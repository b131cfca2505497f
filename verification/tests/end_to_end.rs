use activation_dates::aggregate::AggregationConfig;
use activation_dates::aggregate::KeySource;
use activation_dates::aggregate::Reducer;
use activation_dates::dates::Date;
use activation_dates::infer::DateStrategy;
use activation_dates::pipeline::process_file;
use activation_dates::sql::render_script;

const HEADER: &str = "Email;Inizio;Email Primaria;Anagrafica Intermediario;Anagrafica Organizzazione;Nome Organizzazione;Convenzione;RUI Organizzazione;Ruolo;Attivo";

fn file_bytes(rows: &[&str]) -> Vec<u8> {
    let mut text = String::from(HEADER);
    for row in rows {
        text.push('\n');
        text.push_str(row);
    }
    text.into_bytes()
}

fn email_config() -> AggregationConfig {
    AggregationConfig {
        intermediary_source: KeySource::PrimaryEmail,
        fold_intermediary_key: false,
        fold_organization_key: false,
    }
}

#[test]
fn two_files_leave_one_line_with_the_earlier_date() {
    let cfg = email_config();
    let mut red = Reducer::new();

    let first = file_bytes(&[
        "a@b.com;2020-01-01;SI;I1;O1;N1;C1;R1;Admin;SI",
        "a@b.com;2020-01-02;NO;I1;O1;N1;C1;R1;Admin;SI",
    ]);
    let log1 = process_file(
        &mut red,
        cfg,
        DateStrategy::PatternScan,
        "20230101_batch.csv",
        None,
        &first,
    )
    .unwrap();
    // The second row repeats both keys of the first.
    assert_eq!(log1, vec!["a@b.com".to_owned(), "O1".to_owned()]);

    let second = file_bytes(&["a@b.com;2020-01-03;SI;I1;O1;N1;C1;R1;Admin;SI"]);
    let log2 = process_file(
        &mut red,
        cfg,
        DateStrategy::PatternScan,
        "20230105_batch.csv",
        None,
        &second,
    )
    .unwrap();
    assert_eq!(log2, vec!["a@b.com".to_owned(), "O1".to_owned()]);

    let script = render_script(&red.intermediari, "intermediari", "primary_email");
    assert_eq!(
        script,
        "update intermediari set activated_at = '2023-01-01T00:00:00.000000+00:00' where primary_email = 'a@b.com';"
    );
}

#[test]
fn identifier_mode_keys_by_the_intermediary_identifier() {
    let cfg = AggregationConfig {
        intermediary_source: KeySource::IntermediaryId,
        fold_intermediary_key: false,
        fold_organization_key: false,
    };
    let mut red = Reducer::new();
    let bytes = file_bytes(&["a@b.com;2020-01-01;SI;INT-001;O'1;N1;C1;R1;Admin;SI"]);
    process_file(
        &mut red,
        cfg,
        DateStrategy::PatternScan,
        "20231231_batch.csv",
        None,
        &bytes,
    )
    .unwrap();
    let intermediari = render_script(&red.intermediari, "intermediari", "anagrafica_id");
    assert_eq!(
        intermediari,
        "update intermediari set activated_at = '2023-12-31T00:00:00.000000+00:00' where anagrafica_id = 'INT-001';"
    );
    let organizations = render_script(&red.organizations, "organizations", "anagrafica_id");
    assert_eq!(
        organizations,
        "update organizations set activated_at = '2023-12-31T00:00:00.000000+00:00' where anagrafica_id = 'O1';"
    );
}

#[test]
fn case_folded_email_keys_collapse_to_one_line() {
    let cfg = AggregationConfig {
        intermediary_source: KeySource::PrimaryEmail,
        fold_intermediary_key: true,
        fold_organization_key: false,
    };
    let mut red = Reducer::new();
    // The decoder already folds emails; folding the key as well must not
    // split what differs only by case in the raw input.
    let bytes = file_bytes(&[
        "USER@EXAMPLE.COM;2020-01-01;SI;I1;O1;N1;C1;R1;Admin;SI",
        "user@example.com;2020-01-01;NO;I2;O2;N2;C2;R2;Admin;SI",
    ]);
    let log = process_file(
        &mut red,
        cfg,
        DateStrategy::PatternScan,
        "20230601_batch.csv",
        None,
        &bytes,
    )
    .unwrap();
    assert_eq!(log, vec!["user@example.com".to_owned()]);
    assert_eq!(red.intermediari.len(), 1);
    assert_eq!(red.intermediari.key_at(0), "user@example.com");
}

#[test]
fn a_file_without_a_date_contributes_nothing() {
    let cfg = email_config();
    let mut red = Reducer::new();
    let bytes = file_bytes(&["a@b.com;2020-01-01;SI;I1;O1;N1;C1;R1;Admin;SI"]);
    let log = process_file(
        &mut red,
        cfg,
        DateStrategy::PatternScan,
        "batch.csv",
        None,
        &bytes,
    )
    .unwrap();
    assert!(log.is_empty());
    assert_eq!(red.intermediari.len(), 0);
    assert_eq!(red.organizations.len(), 0);
}

#[test]
fn the_modification_day_stands_in_when_the_name_has_no_date() {
    let cfg = email_config();
    let mut red = Reducer::new();
    let bytes = file_bytes(&["a@b.com;2020-01-01;SI;I1;O1;N1;C1;R1;Admin;SI"]);
    process_file(
        &mut red,
        cfg,
        DateStrategy::PatternScan,
        "batch.csv",
        Some(Date::new(2021, 7, 9).unwrap()),
        &bytes,
    )
    .unwrap();
    assert_eq!(red.intermediari.date_at(0), Date::new(2021, 7, 9).unwrap());
}

#[test]
fn a_decode_failure_leaves_the_maps_untouched() {
    let cfg = email_config();
    let mut red = Reducer::new();
    let good = file_bytes(&["a@b.com;2020-01-01;SI;I1;O1;N1;C1;R1;Admin;SI"]);
    process_file(
        &mut red,
        cfg,
        DateStrategy::PatternScan,
        "20230101_a.csv",
        None,
        &good,
    )
    .unwrap();
    let bad = file_bytes(&["b@c.com;2020-01-01;maybe;I2;O2;N2;C2;R2;Admin;SI"]);
    let result = process_file(
        &mut red,
        cfg,
        DateStrategy::PatternScan,
        "20230102_b.csv",
        None,
        &bad,
    );
    assert!(result.is_err());
    assert_eq!(red.intermediari.len(), 1);
    assert_eq!(red.organizations.len(), 1);
}
