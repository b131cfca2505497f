use vstd::prelude::*;
use vstd::string::StrSliceExecFns;

use crate::dates::valid_ymd;
use crate::dates::Date;
use crate::digits::digits_at;
use crate::digits::digits_run;
use crate::digits::num2;
use crate::digits::num4;
use crate::digits::read_four_digits;
use crate::digits::read_two_digits;

verus! {

/// A four-digit year standing at position `i`, followed immediately by a
/// two-digit month `01`-`12` and a two-digit day `01`-`31`.
pub open spec fn date_pattern_at(s: Seq<char>, i: int) -> bool {
    &&& digits_at(s, i, 8)
    &&& 1 <= num2(s, i + 4) <= 12
    &&& 1 <= num2(s, i + 6) <= 31
}

/// The date the pattern at position `i` names, when it is a real calendar day.
pub open spec fn pattern_date(s: Seq<char>, i: int) -> Option<Date> {
    if valid_ymd(num4(s, i), num2(s, i + 4), num2(s, i + 6)) {
        Some(
            Date {
                year: num4(s, i) as u16,
                month: num2(s, i + 4) as u8,
                day: num2(s, i + 6) as u8,
            },
        )
    } else {
        None
    }
}

/// The position of the leftmost date pattern at or after `from`.
pub open spec fn first_pattern_from(s: Seq<char>, from: int) -> Option<int>
    decreases s.len() - from,
{
    if from + 8 > s.len() {
        None
    } else if date_pattern_at(s, from) {
        Some(from)
    } else {
        first_pattern_from(s, from + 1)
    }
}

/// What a filename strategy yields: a real date, a pattern whose digits name
/// no real calendar day, or no pattern at all. The three outcomes matter
/// because only a name without any pattern falls back to the file's
/// modification day; a found-but-unreal pattern leaves the file dateless.
#[derive(Clone, Copy, PartialEq, Eq, Structural, Debug)]
pub enum FilenameDate {
    Found(Date),
    Invalid,
    Absent,
}

/// What scanning a filename yields: the leftmost pattern decides, and its
/// digits either name a real calendar day or the name counts as invalid.
pub open spec fn scan_outcome(s: Seq<char>) -> FilenameDate {
    match first_pattern_from(s, 0) {
        Some(i) => match pattern_date(s, i) {
            Some(d) => FilenameDate::Found(d),
            None => FilenameDate::Invalid,
        },
        None => FilenameDate::Absent,
    }
}

/// What reading a fixed eight-character prefix yields: the pattern at the
/// start of the name decides in the same way.
pub open spec fn prefix_outcome(s: Seq<char>) -> FilenameDate {
    if date_pattern_at(s, 0) {
        match pattern_date(s, 0) {
            Some(d) => FilenameDate::Found(d),
            None => FilenameDate::Invalid,
        }
    } else {
        FilenameDate::Absent
    }
}

proof fn lemma_first_pattern(s: Seq<char>, from: int, i: int)
    requires
        0 <= from <= i,
        date_pattern_at(s, i),
        forall|j: int| from <= j < i ==> !date_pattern_at(s, j),
    ensures
        first_pattern_from(s, from) == Some(i),
    decreases i - from,
{
    if from < i {
        lemma_first_pattern(s, from + 1, i);
    }
}

proof fn lemma_no_pattern(s: Seq<char>, from: int)
    requires
        0 <= from,
        forall|j: int| from <= j ==> !date_pattern_at(s, j),
    ensures
        first_pattern_from(s, from) == None::<int>,
    decreases s.len() - from,
{
    if from + 8 <= s.len() {
        lemma_no_pattern(s, from + 1);
    }
}

/// A filename that shows a year/month/day pattern, with none earlier in the
/// name and the pattern naming a real day, is scanned to exactly that date,
/// whatever stands around the pattern.
pub proof fn lemma_scan_finds_pattern(s: Seq<char>, i: int)
    requires
        0 <= i,
        date_pattern_at(s, i),
        forall|j: int| 0 <= j < i ==> !date_pattern_at(s, j),
        valid_ymd(num4(s, i), num2(s, i + 4), num2(s, i + 6)),
    ensures
        scan_outcome(s) == FilenameDate::Found(
            Date {
                year: num4(s, i) as u16,
                month: num2(s, i + 4) as u8,
                day: num2(s, i + 6) as u8,
            },
        ),
{
    lemma_first_pattern(s, 0, i);
}

/// Builds the date of the pattern standing at position `i`.
fn date_of_pattern(name: &str, i: usize) -> (r: Option<Date>)
    requires
        date_pattern_at(name@, i as int),
        i + 8 <= usize::MAX,
    ensures
        r == pattern_date(name@, i as int),
        r matches Some(d) ==> d.well_formed(),
{
    let y = read_four_digits(name, i);
    let m = read_two_digits(name, i + 4);
    let d = read_two_digits(name, i + 6);
    Date::new(y as u16, m as u8, d as u8)
}

/// Scans the whole name for a date pattern; the leftmost one decides.
pub fn scan_filename_date(name: &str) -> (r: FilenameDate)
    ensures
        r == scan_outcome(name@),
        r matches FilenameDate::Found(d) ==> d.well_formed(),
{
    let n = name.unicode_len();
    if n < 8 {
        proof {
            lemma_no_pattern(name@, 0);
        }
        return FilenameDate::Absent;
    }
    let mut i: usize = 0;
    while i <= n - 8
        invariant
            n == name@.len(),
            8 <= n,
            0 <= i <= n,
            forall|j: int| 0 <= j < i ==> !date_pattern_at(name@, j),
        decreases n - i,
    {
        if digits_run(name, i, 8) {
            let m = read_two_digits(name, i + 4);
            let d = read_two_digits(name, i + 6);
            if 1 <= m && m <= 12 && 1 <= d && d <= 31 {
                proof {
                    lemma_first_pattern(name@, 0, i as int);
                }
                return match date_of_pattern(name, i) {
                    Some(found) => FilenameDate::Found(found),
                    None => FilenameDate::Invalid,
                };
            }
        }
        i = i + 1;
    }
    proof {
        assert(forall|j: int| j >= i ==> !date_pattern_at(name@, j));
        lemma_no_pattern(name@, 0);
    }
    FilenameDate::Absent
}

/// Reads the fixed eight-character prefix of the name as a date.
pub fn prefix_filename_date(name: &str) -> (r: FilenameDate)
    ensures
        r == prefix_outcome(name@),
        r matches FilenameDate::Found(d) ==> d.well_formed(),
{
    let n = name.unicode_len();
    if n < 8 {
        return FilenameDate::Absent;
    }
    if !digits_run(name, 0, 8) {
        return FilenameDate::Absent;
    }
    let m = read_two_digits(name, 4);
    let d = read_two_digits(name, 6);
    if !(1 <= m && m <= 12 && 1 <= d && d <= 31) {
        return FilenameDate::Absent;
    }
    match date_of_pattern(name, 0) {
        Some(found) => FilenameDate::Found(found),
        None => FilenameDate::Invalid,
    }
}

/// The two ways a filename may carry the activation date.
#[derive(Clone, Copy, PartialEq, Eq, Structural, Debug)]
pub enum DateStrategy {
    /// The first eight characters of the name, read as `YYYYMMDD`.
    FixedPrefix,
    /// A `YYYYMMDD` pattern anywhere in the name; the leftmost one decides.
    PatternScan,
}

pub open spec fn strategy_outcome(st: DateStrategy, name: Seq<char>) -> FilenameDate {
    match st {
        DateStrategy::FixedPrefix => prefix_outcome(name),
        DateStrategy::PatternScan => scan_outcome(name),
    }
}

/// The precedence over the sources of a file's date: a pattern naming a real
/// day decides; a pattern naming no real day leaves the file dateless, with
/// no fallback; only a name without any pattern falls back to the file's
/// last-modified calendar day.
pub open spec fn inferred_date(
    st: DateStrategy,
    name: Seq<char>,
    modified_day: Option<Date>,
) -> Option<Date> {
    match strategy_outcome(st, name) {
        FilenameDate::Found(d) => Some(d),
        FilenameDate::Invalid => None,
        FilenameDate::Absent => modified_day,
    }
}

/// One activation date per file. The filename strategy is tried first; when
/// the name shows no pattern at all, the file's last-modified calendar day
/// stands in; a pattern that names no real day, or a patternless name with
/// no modification day, leaves the file with no date.
pub fn infer_activation_date(st: DateStrategy, name: &str, modified_day: Option<Date>) -> (r:
    Option<Date>)
    requires
        modified_day matches Some(d) ==> d.well_formed(),
    ensures
        r == inferred_date(st, name@, modified_day),
        strategy_outcome(st, name@) is Absent ==> r == modified_day,
        strategy_outcome(st, name@) is Invalid ==> r is None,
        r matches Some(d) ==> d.well_formed(),
{
    let from_name = match st {
        DateStrategy::FixedPrefix => prefix_filename_date(name),
        DateStrategy::PatternScan => scan_filename_date(name),
    };
    match from_name {
        FilenameDate::Found(d) => Some(d),
        FilenameDate::Invalid => None,
        FilenameDate::Absent => modified_day,
    }
}

} // verus!
