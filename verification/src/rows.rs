use vstd::prelude::*;

use crate::dates::spec_parse_iso;
use crate::dates::Date;
use crate::text::eq_ignore_ascii_case;
use crate::text::lower_of;
use crate::text::lowercase;
use crate::text::str_eq;
use crate::text::str_eq_ci;
use crate::text::trim;
use crate::text::trimmed;
use crate::text::SanitizedString;

verus! {

/// The closed set of roles a record may carry.
#[derive(Clone, Copy, PartialEq, Eq, Structural, Debug)]
pub enum Role {
    Admin,
    Intermediario,
}

/// One decoded record, fields already normalized.
#[derive(Clone, Debug, PartialEq, Eq)]
pub struct Row {
    /// Trimmed and case-folded.
    pub email: String,
    pub start_date: Date,
    pub is_primary_email: bool,
    pub anagrafica_intermediario: SanitizedString,
    pub anagrafica_organization: SanitizedString,
    pub organization_name: SanitizedString,
    pub convention: SanitizedString,
    pub rui: SanitizedString,
    pub role: Role,
    pub active: bool,
}

/// The mathematical content of a decoded record.
pub struct RowView {
    pub email: Seq<char>,
    pub start_date: Date,
    pub is_primary_email: bool,
    pub anagrafica_intermediario: Seq<char>,
    pub anagrafica_organization: Seq<char>,
    pub organization_name: Seq<char>,
    pub convention: Seq<char>,
    pub rui: Seq<char>,
    pub role: Role,
    pub active: bool,
}

impl View for Row {
    type V = RowView;

    open spec fn view(&self) -> RowView {
        RowView {
            email: self.email@,
            start_date: self.start_date,
            is_primary_email: self.is_primary_email,
            anagrafica_intermediario: self.anagrafica_intermediario@,
            anagrafica_organization: self.anagrafica_organization@,
            organization_name: self.organization_name@,
            convention: self.convention@,
            rui: self.rui@,
            role: self.role,
            active: self.active,
        }
    }
}

impl DeepView for Row {
    type V = RowView;

    open spec fn deep_view(&self) -> RowView {
        self.view()
    }
}

/// Why decoding a whole file was refused; one bad row refuses the file.
#[derive(Clone, Debug, PartialEq, Eq)]
pub enum DecodeError {
    /// The delimited layer itself could not read the bytes as records.
    Malformed,
    /// A required column name is absent from the header.
    MissingColumn(String),
    /// A flag field whose (trimmed) value is neither `SI` nor `NO`.
    BadBoolean(String),
    /// A start-date field whose (trimmed) value is not a valid `YYYY-MM-DD` day.
    BadDate(String),
    /// A role field whose (trimmed) value names no known role.
    BadRole(String),
}

pub enum DecodeErrorView {
    Malformed,
    MissingColumn(Seq<char>),
    BadBoolean(Seq<char>),
    BadDate(Seq<char>),
    BadRole(Seq<char>),
}

impl View for DecodeError {
    type V = DecodeErrorView;

    open spec fn view(&self) -> DecodeErrorView {
        match self {
            DecodeError::Malformed => DecodeErrorView::Malformed,
            DecodeError::MissingColumn(s) => DecodeErrorView::MissingColumn(s@),
            DecodeError::BadBoolean(s) => DecodeErrorView::BadBoolean(s@),
            DecodeError::BadDate(s) => DecodeErrorView::BadDate(s@),
            DecodeError::BadRole(s) => DecodeErrorView::BadRole(s@),
        }
    }
}

/// `SI`/`NO` coercion, ignoring ASCII case; anything else is refused.
pub open spec fn flag_of(s: Seq<char>) -> Option<bool> {
    if eq_ignore_ascii_case(s, "SI"@) {
        Some(true)
    } else if eq_ignore_ascii_case(s, "NO"@) {
        Some(false)
    } else {
        None
    }
}

pub fn parse_flag(s: &str) -> (r: Option<bool>)
    ensures
        r == flag_of(s@),
{
    if str_eq_ci(s, "SI") {
        Some(true)
    } else if str_eq_ci(s, "NO") {
        Some(false)
    } else {
        None
    }
}

/// Role coercion, ignoring ASCII case; anything else is refused.
pub open spec fn role_of(s: Seq<char>) -> Option<Role> {
    if eq_ignore_ascii_case(s, "Admin"@) {
        Some(Role::Admin)
    } else if eq_ignore_ascii_case(s, "Intermediario"@) {
        Some(Role::Intermediario)
    } else {
        None
    }
}

pub fn parse_role(s: &str) -> (r: Option<Role>)
    ensures
        r == role_of(s@),
{
    if str_eq_ci(s, "Admin") {
        Some(Role::Admin)
    } else if str_eq_ci(s, "Intermediario") {
        Some(Role::Intermediario)
    } else {
        None
    }
}

/// The position of the leftmost header cell equal to `name`, from `from` on.
pub open spec fn find_col_from(h: Seq<Seq<char>>, name: Seq<char>, from: int) -> Option<int>
    decreases h.len() - from,
{
    if from < 0 || from >= h.len() {
        None
    } else if h[from] == name {
        Some(from)
    } else {
        find_col_from(h, name, from + 1)
    }
}

pub open spec fn find_col(h: Seq<Seq<char>>, name: Seq<char>) -> Option<int> {
    find_col_from(h, name, 0)
}

/// Finds the column whose header cell equals `name` exactly.
pub fn find_column(header: &Vec<String>, name: &str) -> (r: Option<usize>)
    ensures
        r matches Some(i) ==> find_col(header.deep_view(), name@) == Some(i as int) && i
            < header.len(),
        r is None ==> find_col(header.deep_view(), name@) is None,
{
    let ghost hv = header.deep_view();
    let n = header.len();
    let mut i: usize = 0;
    while i < n
        invariant
            n == header@.len(),
            hv == header.deep_view(),
            0 <= i <= n,
            find_col_from(hv, name@, 0) == find_col_from(hv, name@, i as int),
        decreases n - i,
    {
        if str_eq(header[i].as_str(), name) {
            return Some(i);
        }
        i = i + 1;
    }
    None
}

/// Where each required column stands in the header, and how wide a row is.
pub struct Columns {
    pub hlen: usize,
    pub email: usize,
    pub inizio: usize,
    pub primaria: usize,
    pub interm: usize,
    pub organiz: usize,
    pub nome: usize,
    pub conv: usize,
    pub rui: usize,
    pub ruolo: usize,
    pub attivo: usize,
}

pub struct ColumnsView {
    pub hlen: int,
    pub email: int,
    pub inizio: int,
    pub primaria: int,
    pub interm: int,
    pub organiz: int,
    pub nome: int,
    pub conv: int,
    pub rui: int,
    pub ruolo: int,
    pub attivo: int,
}

impl View for Columns {
    type V = ColumnsView;

    open spec fn view(&self) -> ColumnsView {
        ColumnsView {
            hlen: self.hlen as int,
            email: self.email as int,
            inizio: self.inizio as int,
            primaria: self.primaria as int,
            interm: self.interm as int,
            organiz: self.organiz as int,
            nome: self.nome as int,
            conv: self.conv as int,
            rui: self.rui as int,
            ruolo: self.ruolo as int,
            attivo: self.attivo as int,
        }
    }
}

impl Columns {
    /// Every recorded position points inside a row of width `hlen`.
    pub open spec fn well_formed(self) -> bool {
        &&& self.email < self.hlen
        &&& self.inizio < self.hlen
        &&& self.primaria < self.hlen
        &&& self.interm < self.hlen
        &&& self.organiz < self.hlen
        &&& self.nome < self.hlen
        &&& self.conv < self.hlen
        &&& self.rui < self.hlen
        &&& self.ruolo < self.hlen
        &&& self.attivo < self.hlen
    }
}

/// The column layout a header names, or the first required column it lacks.
pub open spec fn spec_columns(h: Seq<Seq<char>>) -> Result<ColumnsView, DecodeErrorView> {
    if find_col(h, "Email"@) is None {
        Err(DecodeErrorView::MissingColumn("Email"@))
    } else if find_col(h, "Inizio"@) is None {
        Err(DecodeErrorView::MissingColumn("Inizio"@))
    } else if find_col(h, "Email Primaria"@) is None {
        Err(DecodeErrorView::MissingColumn("Email Primaria"@))
    } else if find_col(h, "Anagrafica Intermediario"@) is None {
        Err(DecodeErrorView::MissingColumn("Anagrafica Intermediario"@))
    } else if find_col(h, "Anagrafica Organizzazione"@) is None {
        Err(DecodeErrorView::MissingColumn("Anagrafica Organizzazione"@))
    } else if find_col(h, "Nome Organizzazione"@) is None {
        Err(DecodeErrorView::MissingColumn("Nome Organizzazione"@))
    } else if find_col(h, "Convenzione"@) is None {
        Err(DecodeErrorView::MissingColumn("Convenzione"@))
    } else if find_col(h, "RUI Organizzazione"@) is None {
        Err(DecodeErrorView::MissingColumn("RUI Organizzazione"@))
    } else if find_col(h, "Ruolo"@) is None {
        Err(DecodeErrorView::MissingColumn("Ruolo"@))
    } else if find_col(h, "Attivo"@) is None {
        Err(DecodeErrorView::MissingColumn("Attivo"@))
    } else {
        Ok(
            ColumnsView {
                hlen: h.len() as int,
                email: find_col(h, "Email"@).unwrap(),
                inizio: find_col(h, "Inizio"@).unwrap(),
                primaria: find_col(h, "Email Primaria"@).unwrap(),
                interm: find_col(h, "Anagrafica Intermediario"@).unwrap(),
                organiz: find_col(h, "Anagrafica Organizzazione"@).unwrap(),
                nome: find_col(h, "Nome Organizzazione"@).unwrap(),
                conv: find_col(h, "Convenzione"@).unwrap(),
                rui: find_col(h, "RUI Organizzazione"@).unwrap(),
                ruolo: find_col(h, "Ruolo"@).unwrap(),
                attivo: find_col(h, "Attivo"@).unwrap(),
            },
        )
    }
}

/// Reads the column layout off the header.
pub fn read_columns(header: &Vec<String>) -> (r: Result<Columns, DecodeError>)
    ensures
        r matches Ok(c) ==> spec_columns(header.deep_view()) == Ok::<ColumnsView, DecodeErrorView>(
            c@,
        ) && c.well_formed() && c.hlen == header@.len(),
        r matches Err(e) ==> spec_columns(header.deep_view()) == Err::<
            ColumnsView,
            DecodeErrorView,
        >(e@),
{
    let email = match find_column(header, "Email") {
        Some(i) => i,
        None => {
            return Err(DecodeError::MissingColumn("Email".to_owned()));
        },
    };
    let inizio = match find_column(header, "Inizio") {
        Some(i) => i,
        None => {
            return Err(DecodeError::MissingColumn("Inizio".to_owned()));
        },
    };
    let primaria = match find_column(header, "Email Primaria") {
        Some(i) => i,
        None => {
            return Err(DecodeError::MissingColumn("Email Primaria".to_owned()));
        },
    };
    let interm = match find_column(header, "Anagrafica Intermediario") {
        Some(i) => i,
        None => {
            return Err(DecodeError::MissingColumn("Anagrafica Intermediario".to_owned()));
        },
    };
    let organiz = match find_column(header, "Anagrafica Organizzazione") {
        Some(i) => i,
        None => {
            return Err(DecodeError::MissingColumn("Anagrafica Organizzazione".to_owned()));
        },
    };
    let nome = match find_column(header, "Nome Organizzazione") {
        Some(i) => i,
        None => {
            return Err(DecodeError::MissingColumn("Nome Organizzazione".to_owned()));
        },
    };
    let conv = match find_column(header, "Convenzione") {
        Some(i) => i,
        None => {
            return Err(DecodeError::MissingColumn("Convenzione".to_owned()));
        },
    };
    let rui = match find_column(header, "RUI Organizzazione") {
        Some(i) => i,
        None => {
            return Err(DecodeError::MissingColumn("RUI Organizzazione".to_owned()));
        },
    };
    let ruolo = match find_column(header, "Ruolo") {
        Some(i) => i,
        None => {
            return Err(DecodeError::MissingColumn("Ruolo".to_owned()));
        },
    };
    let attivo = match find_column(header, "Attivo") {
        Some(i) => i,
        None => {
            return Err(DecodeError::MissingColumn("Attivo".to_owned()));
        },
    };
    Ok(
        Columns {
            hlen: header.len(),
            email,
            inizio,
            primaria,
            interm,
            organiz,
            nome,
            conv,
            rui,
            ruolo,
            attivo,
        },
    )
}

/// One row against a column layout: the decoded record, or the first refusal
/// in field order start date, primary-email flag, role, active flag.
pub open spec fn spec_decode_row(c: ColumnsView, r: Seq<Seq<char>>) -> Result<
    RowView,
    DecodeErrorView,
> {
    if r.len() != c.hlen {
        Err(DecodeErrorView::Malformed)
    } else {
        match spec_parse_iso(trimmed(r[c.inizio])) {
            None => Err(DecodeErrorView::BadDate(trimmed(r[c.inizio]))),
            Some(start_date) => match flag_of(trimmed(r[c.primaria])) {
                None => Err(DecodeErrorView::BadBoolean(trimmed(r[c.primaria]))),
                Some(is_primary_email) => match role_of(trimmed(r[c.ruolo])) {
                    None => Err(DecodeErrorView::BadRole(trimmed(r[c.ruolo]))),
                    Some(role) => match flag_of(trimmed(r[c.attivo])) {
                        None => Err(DecodeErrorView::BadBoolean(trimmed(r[c.attivo]))),
                        Some(active) => Ok(
                            RowView {
                                email: lower_of(trimmed(r[c.email])),
                                start_date,
                                is_primary_email,
                                anagrafica_intermediario: trimmed(r[c.interm]),
                                anagrafica_organization: trimmed(r[c.organiz]),
                                organization_name: trimmed(r[c.nome]),
                                convention: trimmed(r[c.conv]),
                                rui: trimmed(r[c.rui]),
                                role,
                                active,
                            },
                        ),
                    },
                },
            },
        }
    }
}

/// Decodes one row.
pub fn decode_row(c: &Columns, rec: &Vec<String>) -> (r: Result<Row, DecodeError>)
    requires
        c.well_formed(),
    ensures
        r matches Ok(row) ==> spec_decode_row(c@, rec.deep_view()) == Ok::<
            RowView,
            DecodeErrorView,
        >(row@) && row.start_date.well_formed(),
        r matches Err(e) ==> spec_decode_row(c@, rec.deep_view()) == Err::<
            RowView,
            DecodeErrorView,
        >(e@),
{
    if rec.len() != c.hlen {
        return Err(DecodeError::Malformed);
    }
    let date_txt = trim(rec[c.inizio].as_str());
    let start_date = match Date::parse_iso(date_txt) {
        Some(d) => d,
        None => {
            return Err(DecodeError::BadDate(date_txt.to_owned()));
        },
    };
    let primary_txt = trim(rec[c.primaria].as_str());
    let is_primary_email = match parse_flag(primary_txt) {
        Some(b) => b,
        None => {
            return Err(DecodeError::BadBoolean(primary_txt.to_owned()));
        },
    };
    let role_txt = trim(rec[c.ruolo].as_str());
    let role = match parse_role(role_txt) {
        Some(x) => x,
        None => {
            return Err(DecodeError::BadRole(role_txt.to_owned()));
        },
    };
    let active_txt = trim(rec[c.attivo].as_str());
    let active = match parse_flag(active_txt) {
        Some(b) => b,
        None => {
            return Err(DecodeError::BadBoolean(active_txt.to_owned()));
        },
    };
    let email = lowercase(trim(rec[c.email].as_str()));
    Ok(
        Row {
            email,
            start_date,
            is_primary_email,
            anagrafica_intermediario: SanitizedString::new(rec[c.interm].as_str()),
            anagrafica_organization: SanitizedString::new(rec[c.organiz].as_str()),
            organization_name: SanitizedString::new(rec[c.nome].as_str()),
            convention: SanitizedString::new(rec[c.conv].as_str()),
            rui: SanitizedString::new(rec[c.rui].as_str()),
            role,
            active,
        },
    )
}

/// All rows against a column layout; the first refusal refuses them all.
pub open spec fn spec_decode_rows(c: ColumnsView, rows: Seq<Seq<Seq<char>>>) -> Result<
    Seq<RowView>,
    DecodeErrorView,
>
    decreases rows.len(),
{
    if rows.len() == 0 {
        Ok(Seq::empty())
    } else {
        match spec_decode_row(c, rows[0]) {
            Err(e) => Err(e),
            Ok(rv) => match spec_decode_rows(c, rows.drop_first()) {
                Err(e) => Err(e),
                Ok(t) => Ok(seq![rv] + t),
            },
        }
    }
}

/// A whole table. With no data records there is nothing to decode and the
/// header goes unexamined, as with a record-driven decoder; otherwise the
/// header names the columns and every row is decoded.
pub open spec fn spec_decode_table(h: Seq<Seq<char>>, rows: Seq<Seq<Seq<char>>>) -> Result<
    Seq<RowView>,
    DecodeErrorView,
> {
    if rows.len() == 0 {
        Ok(Seq::empty())
    } else {
        match spec_columns(h) {
            Err(e) => Err(e),
            Ok(c) => spec_decode_rows(c, rows),
        }
    }
}

/// Decodes a whole table; any single refusal refuses the file.
pub fn decode_table(header: &Vec<String>, records: &Vec<Vec<String>>) -> (r: Result<
    Vec<Row>,
    DecodeError,
>)
    ensures
        r matches Ok(v) ==> spec_decode_table(header.deep_view(), records.deep_view()) == Ok::<
            Seq<RowView>,
            DecodeErrorView,
        >(v.deep_view()),
        r matches Err(e) ==> spec_decode_table(header.deep_view(), records.deep_view()) == Err::<
            Seq<RowView>,
            DecodeErrorView,
        >(e@),
        r matches Ok(v) ==> forall|i: int|
            0 <= i < v@.len() ==> #[trigger] v@[i].start_date.well_formed(),
{
    if records.is_empty() {
        let empty: Vec<Row> = Vec::new();
        proof {
            assert(records.deep_view() =~= Seq::<Seq<Seq<char>>>::empty());
            assert(empty.deep_view() =~= Seq::<RowView>::empty());
        }
        return Ok(empty);
    }
    let cols = match read_columns(header) {
        Ok(c) => c,
        Err(e) => {
            return Err(e);
        },
    };
    let ghost cv = cols@;
    let ghost rowsv = records.deep_view();
    let n = records.len();
    let mut out: Vec<Row> = Vec::new();
    proof {
        assert(rowsv.skip(0) =~= rowsv);
        assert(out.deep_view() =~= Seq::<RowView>::empty());
        if spec_decode_rows(cv, rowsv) is Ok {
            let t = spec_decode_rows(cv, rowsv)->Ok_0;
            assert(out.deep_view() + t =~= t);
        }
    }
    let mut i: usize = 0;
    while i < n
        invariant
            n == records@.len(),
            rowsv == records.deep_view(),
            cols.well_formed(),
            cv == cols@,
            spec_columns(header.deep_view()) == Ok::<ColumnsView, DecodeErrorView>(cv),
            0 <= i <= n,
            spec_decode_rows(cv, rowsv) == (match spec_decode_rows(cv, rowsv.skip(i as int)) {
                Err(e) => Err::<Seq<RowView>, DecodeErrorView>(e),
                Ok(t) => Ok::<Seq<RowView>, DecodeErrorView>(out.deep_view() + t),
            }),
            forall|k: int| 0 <= k < out@.len() ==> #[trigger] out@[k].start_date.well_formed(),
        decreases n - i,
    {
        proof {
            assert(rowsv.skip(i as int)[0] == rowsv[i as int]);
            assert(rowsv[i as int] == records@[i as int].deep_view());
            assert(rowsv.skip(i as int).drop_first() =~= rowsv.skip(i as int + 1));
        }
        let ghost prev = out.deep_view();
        match decode_row(&cols, &records[i]) {
            Ok(row) => {
                out.push(row);
                proof {
                    assert(out.deep_view() =~= prev + seq![row@]);
                    let rest = spec_decode_rows(cv, rowsv.skip(i as int + 1));
                    if rest is Ok {
                        let t = rest->Ok_0;
                        assert(prev + (seq![row@] + t) =~= (prev + seq![row@]) + t);
                    }
                }
            },
            Err(e) => {
                return Err(e);
            },
        }
        i = i + 1;
    }
    proof {
        assert(rowsv.skip(n as int) =~= Seq::<Seq<Seq<char>>>::empty());
        assert(out.deep_view() + Seq::<RowView>::empty() =~= out.deep_view());
    }
    Ok(out)
}

/// What the delimited layer yields for the given bytes: the header record
/// and the data records, or nothing when it refuses the bytes. The records
/// are whatever the delimited format says; naming them keeps the contract
/// exact without restating that format here.
pub uninterp spec fn csv_table_of(bytes: Seq<u8>) -> Option<(Seq<Seq<char>>, Seq<Seq<Seq<char>>>)>;

/// Relies on csv::ReaderBuilder and csv::Reader, with delimiter `;` and a
/// header row: reading from a byte slice involves no further input, so the
/// split into header and records depends on the bytes alone.
#[verifier::external_body]
fn read_csv_table(bytes: &Vec<u8>) -> (r: Option<(Vec<String>, Vec<Vec<String>>)>)
    ensures
        r is Some <==> csv_table_of(bytes@) is Some,
        r matches Some(t) ==> csv_table_of(bytes@) matches Some(u) && t.0.deep_view() == u.0
            && t.1.deep_view() == u.1,
{
    let mut rdr = csv::ReaderBuilder::new().delimiter(b';').from_reader(bytes.as_slice());
    let header: Vec<String> = match rdr.headers() {
        Ok(h) => h.iter().map(|f| f.to_string()).collect(),
        Err(_) => return None,
    };
    let mut records: Vec<Vec<String>> = Vec::new();
    for rec in rdr.records() {
        match rec {
            Ok(r) => records.push(r.iter().map(|f| f.to_string()).collect()),
            Err(_) => return None,
        }
    }
    Some((header, records))
}

/// Decodes one file's bytes: the delimited layer splits them into a header
/// and records, and every record is decoded; one refusal refuses the file.
/// The result is a function of the bytes alone, so decoding the same bytes
/// twice yields structurally equal rows.
pub fn decode_file(bytes: &Vec<u8>) -> (r: Result<Vec<Row>, DecodeError>)
    ensures
        csv_table_of(bytes@) is None ==> (r matches Err(e) && e@ == DecodeErrorView::Malformed),
        csv_table_of(bytes@) matches Some(t) ==> (match spec_decode_table(t.0, t.1) {
            Ok(s) => r matches Ok(v) && v.deep_view() == s,
            Err(e) => r matches Err(x) && x@ == e,
        }),
        r matches Ok(v) ==> forall|i: int|
            0 <= i < v@.len() ==> #[trigger] v@[i].start_date.well_formed(),
{
    match read_csv_table(bytes) {
        None => Err(DecodeError::Malformed),
        Some(t) => decode_table(&t.0, &t.1),
    }
}

} // verus!
