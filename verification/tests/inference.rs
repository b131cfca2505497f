use activation_dates::dates::Date;
use activation_dates::infer::infer_activation_date;
use activation_dates::infer::prefix_filename_date;
use activation_dates::infer::scan_filename_date;
use activation_dates::infer::DateStrategy;
use activation_dates::infer::FilenameDate;

#[test]
fn scan_finds_the_pattern_whatever_stands_around_it() {
    let expected = FilenameDate::Found(Date::new(2023, 4, 15).unwrap());
    assert_eq!(scan_filename_date("20230415"), expected);
    assert_eq!(scan_filename_date("xx20230415yy"), expected);
    assert_eq!(scan_filename_date("batch_20230415.csv"), expected);
    assert_eq!(scan_filename_date("à-20230415-é.csv"), expected);
}

#[test]
fn scan_takes_the_leftmost_pattern() {
    assert_eq!(
        scan_filename_date("19990101_20230415.csv"),
        FilenameDate::Found(Date::new(1999, 1, 1).unwrap())
    );
}

#[test]
fn scan_reports_no_pattern_for_out_of_range_months_and_days() {
    assert_eq!(scan_filename_date("20231301.csv"), FilenameDate::Absent);
    assert_eq!(scan_filename_date("20230132.csv"), FilenameDate::Absent);
    assert_eq!(scan_filename_date("20230001.csv"), FilenameDate::Absent);
    assert_eq!(scan_filename_date("20230100.csv"), FilenameDate::Absent);
    assert_eq!(scan_filename_date("notes.csv"), FilenameDate::Absent);
    assert_eq!(scan_filename_date("2023.csv"), FilenameDate::Absent);
}

#[test]
fn scan_marks_a_day_the_calendar_lacks_as_invalid() {
    assert_eq!(scan_filename_date("20230229_batch.csv"), FilenameDate::Invalid);
    assert_eq!(scan_filename_date("20230231_x.csv"), FilenameDate::Invalid);
    assert_eq!(
        scan_filename_date("20240229_batch.csv"),
        FilenameDate::Found(Date::new(2024, 2, 29).unwrap())
    );
}

#[test]
fn prefix_reads_only_the_first_eight_characters() {
    let expected = FilenameDate::Found(Date::new(2023, 4, 15).unwrap());
    assert_eq!(prefix_filename_date("20230415_batch.csv"), expected);
    assert_eq!(prefix_filename_date("x20230415.csv"), FilenameDate::Absent);
    assert_eq!(prefix_filename_date("batch_20230415.csv"), FilenameDate::Absent);
    assert_eq!(prefix_filename_date("20230231_x.csv"), FilenameDate::Invalid);
}

#[test]
fn fallback_takes_the_modification_day_only_without_a_pattern() {
    let mtime = Some(Date::new(2021, 7, 9).unwrap());
    assert_eq!(
        infer_activation_date(DateStrategy::PatternScan, "notes.csv", mtime),
        mtime
    );
    assert_eq!(
        infer_activation_date(DateStrategy::FixedPrefix, "notes_20230415.csv", mtime),
        mtime
    );
    assert_eq!(
        infer_activation_date(DateStrategy::PatternScan, "notes.csv", None),
        None
    );
}

#[test]
fn an_unreal_filename_date_suppresses_the_fallback() {
    let mtime = Some(Date::new(2021, 7, 9).unwrap());
    assert_eq!(
        infer_activation_date(DateStrategy::PatternScan, "20230231_x.csv", mtime),
        None
    );
    assert_eq!(
        infer_activation_date(DateStrategy::FixedPrefix, "20230229_batch.csv", mtime),
        None
    );
}

#[test]
fn filename_pattern_outranks_the_modification_day() {
    let mtime = Some(Date::new(2021, 7, 9).unwrap());
    assert_eq!(
        infer_activation_date(DateStrategy::PatternScan, "20230101_batch.csv", mtime),
        Some(Date::new(2023, 1, 1).unwrap())
    );
}
