use activation_dates::aggregate::make_key;
use activation_dates::aggregate::AggregateMap;
use activation_dates::dates::Date;

#[test]
fn first_observation_is_inserted_as_given() {
    let mut map = AggregateMap::new();
    let collided = map.merge("k1".to_owned(), Date::new(2023, 5, 1).unwrap());
    assert!(!collided);
    assert_eq!(map.len(), 1);
    assert_eq!(map.key_at(0), "k1");
    assert_eq!(map.date_at(0), Date::new(2023, 5, 1).unwrap());
}

#[test]
fn a_collision_keeps_the_earlier_date_and_is_reported() {
    let mut map = AggregateMap::new();
    map.merge("k1".to_owned(), Date::new(2023, 5, 1).unwrap());
    let collided = map.merge("k1".to_owned(), Date::new(2022, 12, 31).unwrap());
    assert!(collided);
    assert_eq!(map.len(), 1);
    assert_eq!(map.date_at(0), Date::new(2022, 12, 31).unwrap());
    let collided_again = map.merge("k1".to_owned(), Date::new(2024, 1, 1).unwrap());
    assert!(collided_again);
    assert_eq!(map.date_at(0), Date::new(2022, 12, 31).unwrap());
}

#[test]
fn merge_order_does_not_change_the_stored_date() {
    let d1 = Date::new(2023, 1, 5).unwrap();
    let d2 = Date::new(2023, 1, 1).unwrap();
    let mut one_way = AggregateMap::new();
    one_way.merge("k".to_owned(), d1);
    one_way.merge("k".to_owned(), d2);
    let mut other_way = AggregateMap::new();
    other_way.merge("k".to_owned(), d2);
    other_way.merge("k".to_owned(), d1);
    assert_eq!(one_way.date_at(0), other_way.date_at(0));
    assert_eq!(one_way.date_at(0), d2);
}

#[test]
fn distinct_keys_stay_distinct() {
    let mut map = AggregateMap::new();
    map.merge("a".to_owned(), Date::new(2023, 1, 1).unwrap());
    map.merge("b".to_owned(), Date::new(2023, 1, 2).unwrap());
    assert_eq!(map.len(), 2);
    assert_eq!(map.key_at(0), "a");
    assert_eq!(map.key_at(1), "b");
}

#[test]
fn key_normalization_strips_single_quotes() {
    assert_eq!(make_key("o'brien", false), "obrien");
    assert_eq!(make_key("''", false), "");
    assert_eq!(make_key("plain", false), "plain");
}

#[test]
fn key_normalization_can_fold_case() {
    assert_eq!(make_key("O'Brien", true), "obrien");
    assert_eq!(make_key("INT-001", false), "INT-001");
}
