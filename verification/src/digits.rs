use vstd::prelude::*;
use vstd::string::StrSliceExecFns;
use vstd::string::StringExecFns;

verus! {

pub open spec fn is_digit(c: char) -> bool {
    48 <= c as u32 <= 57
}

pub open spec fn digit_val(c: char) -> int {
    c as u32 - 48
}

/// `n` decimal digits standing at position `i` of the text.
pub open spec fn digits_at(s: Seq<char>, i: int, n: int) -> bool {
    &&& 0 <= i
    &&& i + n <= s.len()
    &&& forall|k: int| i <= k < i + n ==> is_digit(s[k])
}

/// The value of the two digits at position `i`.
pub open spec fn num2(s: Seq<char>, i: int) -> int {
    digit_val(s[i]) * 10 + digit_val(s[i + 1])
}

/// The value of the four digits at position `i`.
pub open spec fn num4(s: Seq<char>, i: int) -> int {
    digit_val(s[i]) * 1000 + digit_val(s[i + 1]) * 100 + digit_val(s[i + 2]) * 10 + digit_val(
        s[i + 3],
    )
}

pub fn is_digit_char(c: char) -> (r: bool)
    ensures
        r == is_digit(c),
{
    let u = c as u32;
    48 <= u && u <= 57
}

fn digit_of(c: char) -> (r: u32)
    requires
        is_digit(c),
    ensures
        r as int == digit_val(c),
        r <= 9,
{
    (c as u32) - 48
}

/// True when `n` decimal digits stand at position `from`.
pub fn digits_run(s: &str, from: usize, n: usize) -> (r: bool)
    requires
        from + n <= s@.len(),
        from + n <= usize::MAX,
    ensures
        r == digits_at(s@, from as int, n as int),
{
    let mut i: usize = from;
    while i < from + n
        invariant
            from + n <= s@.len(),
            from + n <= usize::MAX,
            from <= i <= from + n,
            forall|k: int| from <= k < i ==> is_digit(s@[k]),
        decreases from + n - i,
    {
        if !is_digit_char(s.get_char(i)) {
            return false;
        }
        i = i + 1;
    }
    true
}

pub fn read_two_digits(s: &str, i: usize) -> (r: u32)
    requires
        digits_at(s@, i as int, 2),
        i + 2 <= usize::MAX,
    ensures
        r as int == num2(s@, i as int),
        r <= 99,
{
    digit_of(s.get_char(i)) * 10 + digit_of(s.get_char(i + 1))
}

pub fn read_four_digits(s: &str, i: usize) -> (r: u32)
    requires
        digits_at(s@, i as int, 4),
        i + 4 <= usize::MAX,
    ensures
        r as int == num4(s@, i as int),
        r <= 9999,
{
    digit_of(s.get_char(i)) * 1000 + digit_of(s.get_char(i + 1)) * 100 + digit_of(
        s.get_char(i + 2),
    ) * 10 + digit_of(s.get_char(i + 3))
}

/// The character for one decimal digit.
pub open spec fn digit_char(d: int) -> char {
    if d == 0 {
        '0'
    } else if d == 1 {
        '1'
    } else if d == 2 {
        '2'
    } else if d == 3 {
        '3'
    } else if d == 4 {
        '4'
    } else if d == 5 {
        '5'
    } else if d == 6 {
        '6'
    } else if d == 7 {
        '7'
    } else if d == 8 {
        '8'
    } else {
        '9'
    }
}

/// A value under 100 rendered as exactly two digits, zero-padded.
pub open spec fn dec2(v: int) -> Seq<char> {
    seq![digit_char((v / 10) % 10), digit_char(v % 10)]
}

/// A value under 10000 rendered as exactly four digits, zero-padded.
pub open spec fn dec4(v: int) -> Seq<char> {
    seq![
        digit_char((v / 1000) % 10),
        digit_char((v / 100) % 10),
        digit_char((v / 10) % 10),
        digit_char(v % 10),
    ]
}

fn digit_str(d: u32) -> (r: &'static str)
    requires
        d < 10,
    ensures
        r@ == seq![digit_char(d as int)],
{
    let r: &'static str = match d {
        0 => "0",
        1 => "1",
        2 => "2",
        3 => "3",
        4 => "4",
        5 => "5",
        6 => "6",
        7 => "7",
        8 => "8",
        _ => "9",
    };
    proof {
        reveal_strlit("0");
        reveal_strlit("1");
        reveal_strlit("2");
        reveal_strlit("3");
        reveal_strlit("4");
        reveal_strlit("5");
        reveal_strlit("6");
        reveal_strlit("7");
        reveal_strlit("8");
        reveal_strlit("9");
        assert(r@ =~= seq![digit_char(d as int)]);
    }
    r
}

/// Appends the two-digit zero-padded rendering of `v`.
pub fn push_two_digits(out: &mut String, v: u32)
    requires
        v < 100,
    ensures
        final(out)@ == old(out)@ + dec2(v as int),
{
    out.append(digit_str(v / 10));
    out.append(digit_str(v % 10));
    proof {
        assert(out@ =~= old(out)@ + dec2(v as int));
    }
}

/// Appends the four-digit zero-padded rendering of `v`.
pub fn push_four_digits(out: &mut String, v: u32)
    requires
        v < 10000,
    ensures
        final(out)@ == old(out)@ + dec4(v as int),
{
    out.append(digit_str(v / 1000));
    out.append(digit_str((v / 100) % 10));
    out.append(digit_str((v / 10) % 10));
    out.append(digit_str(v % 10));
    proof {
        assert(out@ =~= old(out)@ + dec4(v as int));
    }
}

} // verus!
