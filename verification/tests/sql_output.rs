use activation_dates::aggregate::AggregateMap;
use activation_dates::dates::Date;
use activation_dates::sql::render_script;
use activation_dates::sql::render_update_line;

#[test]
fn one_statement_has_the_documented_shape() {
    let line = render_update_line(
        "intermediari",
        "anagrafica_id",
        "INT-001",
        Date::new(2023, 4, 15).unwrap(),
    );
    assert_eq!(
        line,
        "update intermediari set activated_at = '2023-04-15T00:00:00.000000+00:00' where anagrafica_id = 'INT-001';"
    );
}

#[test]
fn single_digit_parts_are_zero_padded() {
    let line = render_update_line("t", "k", "x", Date::new(987, 1, 9).unwrap());
    assert_eq!(
        line,
        "update t set activated_at = '0987-01-09T00:00:00.000000+00:00' where k = 'x';"
    );
}

#[test]
fn statements_are_joined_with_single_newlines() {
    let mut map = AggregateMap::new();
    map.merge("a".to_owned(), Date::new(2023, 1, 1).unwrap());
    map.merge("b".to_owned(), Date::new(2023, 1, 2).unwrap());
    let script = render_script(&map, "organizations", "anagrafica_id");
    let expected = "update organizations set activated_at = '2023-01-01T00:00:00.000000+00:00' where anagrafica_id = 'a';\nupdate organizations set activated_at = '2023-01-02T00:00:00.000000+00:00' where anagrafica_id = 'b';";
    assert_eq!(script, expected);
}

#[test]
fn an_empty_map_renders_an_empty_script() {
    let map = AggregateMap::new();
    assert_eq!(render_script(&map, "t", "k"), "");
}

#[test]
fn a_quoted_key_is_stored_and_rendered_with_the_quote_stripped() {
    let mut map = AggregateMap::new();
    let key = activation_dates::aggregate::make_key("o'brien", false);
    map.merge(key, Date::new(2023, 6, 1).unwrap());
    let script = render_script(&map, "intermediari", "anagrafica_id");
    assert_eq!(
        script,
        "update intermediari set activated_at = '2023-06-01T00:00:00.000000+00:00' where anagrafica_id = 'obrien';"
    );
}
