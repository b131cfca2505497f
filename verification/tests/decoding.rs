use activation_dates::dates::Date;
use activation_dates::rows::decode_file;
use activation_dates::rows::parse_flag;
use activation_dates::rows::parse_role;
use activation_dates::rows::DecodeError;
use activation_dates::rows::Role;

const HEADER: &str = "Email;Inizio;Email Primaria;Anagrafica Intermediario;Anagrafica Organizzazione;Nome Organizzazione;Convenzione;RUI Organizzazione;Ruolo;Attivo";

fn file_bytes(rows: &[&str]) -> Vec<u8> {
    let mut text = String::from(HEADER);
    for row in rows {
        text.push('\n');
        text.push_str(row);
    }
    text.into_bytes()
}

#[test]
fn decodes_a_full_row() {
    let bytes = file_bytes(&[
        " A@B.Com ;2023-04-15;SI;INT-001;ORG-9;Acme S.p.A.; conv ;RUI-7;Intermediario;NO",
    ]);
    let rows = decode_file(&bytes).unwrap();
    assert_eq!(rows.len(), 1);
    let row = &rows[0];
    assert_eq!(row.email, "a@b.com");
    assert_eq!(row.start_date, Date::new(2023, 4, 15).unwrap());
    assert!(row.is_primary_email);
    assert_eq!(row.anagrafica_intermediario.as_str(), "INT-001");
    assert_eq!(row.anagrafica_organization.as_str(), "ORG-9");
    assert_eq!(row.organization_name.as_str(), "Acme S.p.A.");
    assert_eq!(row.convention.as_str(), "conv");
    assert_eq!(row.rui.as_str(), "RUI-7");
    assert_eq!(row.role, Role::Intermediario);
    assert!(!row.active);
}

#[test]
fn decoding_twice_yields_equal_rows() {
    let bytes = file_bytes(&[
        "a@b.com;2023-01-01;SI;I1;O1;N1;C1;R1;Admin;SI",
        "c@d.com;2024-02-29;NO;I2;O2;N2;C2;R2;Intermediario;NO",
    ]);
    let first = decode_file(&bytes).unwrap();
    let second = decode_file(&bytes).unwrap();
    assert_eq!(first, second);
}

#[test]
fn boolean_coercion_accepts_case_variants() {
    assert_eq!(parse_flag("SI"), Some(true));
    assert_eq!(parse_flag("si"), Some(true));
    assert_eq!(parse_flag("Si"), Some(true));
    assert_eq!(parse_flag("sI"), Some(true));
    assert_eq!(parse_flag("NO"), Some(false));
    assert_eq!(parse_flag("no"), Some(false));
    assert_eq!(parse_flag("No"), Some(false));
    assert_eq!(parse_flag("maybe"), None);
    assert_eq!(parse_flag(""), None);
    assert_eq!(parse_flag("S"), None);
}

#[test]
fn bad_boolean_fails_the_whole_file() {
    let bytes = file_bytes(&[
        "a@b.com;2023-01-01;SI;I1;O1;N1;C1;R1;Admin;SI",
        "c@d.com;2023-01-01;maybe;I2;O2;N2;C2;R2;Admin;SI",
    ]);
    assert_eq!(
        decode_file(&bytes),
        Err(DecodeError::BadBoolean("maybe".to_owned()))
    );
}

#[test]
fn role_matches_ignore_case_and_reject_others() {
    assert_eq!(parse_role("Admin"), Some(Role::Admin));
    assert_eq!(parse_role("ADMIN"), Some(Role::Admin));
    assert_eq!(parse_role("admin"), Some(Role::Admin));
    assert_eq!(parse_role("intermediario"), Some(Role::Intermediario));
    assert_eq!(parse_role("INTERMEDIARIO"), Some(Role::Intermediario));
    assert_eq!(parse_role("manager"), None);
}

#[test]
fn bad_role_reports_the_value() {
    let bytes = file_bytes(&["a@b.com;2023-01-01;SI;I1;O1;N1;C1;R1;Boss;SI"]);
    assert_eq!(
        decode_file(&bytes),
        Err(DecodeError::BadRole("Boss".to_owned()))
    );
}

#[test]
fn bad_date_reports_the_value() {
    let bytes = file_bytes(&["a@b.com;2023-02-29;SI;I1;O1;N1;C1;R1;Admin;SI"]);
    assert_eq!(
        decode_file(&bytes),
        Err(DecodeError::BadDate("2023-02-29".to_owned()))
    );
}

#[test]
fn leap_day_is_accepted_in_a_leap_year() {
    let bytes = file_bytes(&["a@b.com;2024-02-29;SI;I1;O1;N1;C1;R1;Admin;SI"]);
    let rows = decode_file(&bytes).unwrap();
    assert_eq!(rows[0].start_date, Date::new(2024, 2, 29).unwrap());
}

#[test]
fn missing_column_names_the_column() {
    let header = "Email;Inizio;Email Primaria;Anagrafica Intermediario;Anagrafica Organizzazione;Nome Organizzazione;Convenzione;RUI Organizzazione;Attivo";
    let bytes = format!("{}\na@b.com;2023-01-01;SI;I1;O1;N1;C1;R1;SI", header).into_bytes();
    assert_eq!(
        decode_file(&bytes),
        Err(DecodeError::MissingColumn("Ruolo".to_owned()))
    );
}

#[test]
fn quoted_fields_pass_through_the_delimited_layer() {
    let bytes = file_bytes(&["a@b.com;2023-01-01;SI;I1;O1;\"Acme; Inc.\";C1;R1;Admin;SI"]);
    let rows = decode_file(&bytes).unwrap();
    assert_eq!(rows[0].organization_name.as_str(), "Acme; Inc.");
}

#[test]
fn ragged_row_is_malformed() {
    let bytes = file_bytes(&["a@b.com;2023-01-01;SI"]);
    assert_eq!(decode_file(&bytes), Err(DecodeError::Malformed));
}

#[test]
fn empty_bytes_decode_to_no_rows() {
    let bytes: Vec<u8> = Vec::new();
    assert_eq!(decode_file(&bytes), Ok(Vec::new()));
}

#[test]
fn unicode_whitespace_is_trimmed_from_fields() {
    let bytes = file_bytes(&[
        "\u{a0}a@b.com\u{a0};2023-01-01;SI;\u{2003}I1\u{2003};O1;N1;C1;R1;Admin;SI",
    ]);
    let rows = decode_file(&bytes).unwrap();
    assert_eq!(rows[0].email, "a@b.com");
    assert_eq!(rows[0].anagrafica_intermediario.as_str(), "I1");
}

#[test]
fn a_header_without_rows_decodes_to_no_rows() {
    let bytes = file_bytes(&[]);
    assert_eq!(decode_file(&bytes), Ok(Vec::new()));
}

#[test]
fn columns_are_found_by_name_not_position() {
    let header = "Ruolo;Attivo;Email;Inizio;Email Primaria;Anagrafica Intermediario;Anagrafica Organizzazione;Nome Organizzazione;Convenzione;RUI Organizzazione";
    let bytes =
        format!("{}\nAdmin;SI;x@y.it;2022-12-31;NO;IA;OA;NA;CA;RA", header).into_bytes();
    let rows = decode_file(&bytes).unwrap();
    assert_eq!(rows[0].email, "x@y.it");
    assert_eq!(rows[0].role, Role::Admin);
    assert_eq!(rows[0].start_date, Date::new(2022, 12, 31).unwrap());
}
