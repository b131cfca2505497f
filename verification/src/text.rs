use vstd::prelude::*;
use vstd::string::StrSliceExecFns;

verus! {

/// The whitespace that field normalization removes from the ends of a
/// value: the characters with the Unicode `White_Space` property, the set
/// `char::is_whitespace` accepts.
pub open spec fn is_space(c: char) -> bool {
    ||| c == ' ' || c == '\t' || c == '\n' || c == '\r'
    ||| c as u32 == 0x0B || c as u32 == 0x0C
    ||| c as u32 == 0x85 || c as u32 == 0xA0
    ||| c as u32 == 0x1680
    ||| 0x2000 <= c as u32 <= 0x200A
    ||| c as u32 == 0x2028 || c as u32 == 0x2029
    ||| c as u32 == 0x202F || c as u32 == 0x205F
    ||| c as u32 == 0x3000
}

pub open spec fn trim_front(s: Seq<char>) -> Seq<char>
    decreases s.len(),
{
    if s.len() > 0 && is_space(s[0]) {
        trim_front(s.drop_first())
    } else {
        s
    }
}

pub open spec fn trim_back(s: Seq<char>) -> Seq<char>
    decreases s.len(),
{
    if s.len() > 0 && is_space(s[s.len() - 1]) {
        trim_back(s.drop_last())
    } else {
        s
    }
}

/// A value with its surrounding whitespace removed.
pub open spec fn trimmed(s: Seq<char>) -> Seq<char> {
    trim_back(trim_front(s))
}

proof fn lemma_trim_front_at(s: Seq<char>, i: int)
    requires
        0 <= i <= s.len(),
        forall|k: int| 0 <= k < i ==> is_space(s[k]),
        i == s.len() || !is_space(s[i]),
    ensures
        trim_front(s) == s.subrange(i, s.len() as int),
    decreases i,
{
    if i == 0 {
        assert(s.subrange(0, s.len() as int) =~= s);
    } else {
        let t = s.drop_first();
        assert(forall|k: int| 0 <= k < i - 1 ==> is_space(t[k]));
        lemma_trim_front_at(t, i - 1);
        assert(t.subrange(i - 1, t.len() as int) =~= s.subrange(i, s.len() as int));
    }
}

proof fn lemma_trim_back_at(s: Seq<char>, j: int)
    requires
        0 <= j <= s.len(),
        forall|k: int| j <= k < s.len() ==> is_space(s[k]),
        j == 0 || !is_space(s[j - 1]),
    ensures
        trim_back(s) == s.subrange(0, j),
    decreases s.len(),
{
    if j == s.len() {
        assert(s.subrange(0, j) =~= s);
    } else {
        let t = s.drop_last();
        assert(is_space(s[s.len() - 1]));
        assert(forall|k: int| j <= k < t.len() ==> is_space(t[k]));
        lemma_trim_back_at(t, j);
        assert(t.subrange(0, j) =~= s.subrange(0, j));
    }
}

fn is_space_char(c: char) -> (r: bool)
    ensures
        r == is_space(c),
{
    let u = c as u32;
    c == ' ' || c == '\t' || c == '\n' || c == '\r' || u == 0x0B || u == 0x0C || u == 0x85 || u
        == 0xA0 || u == 0x1680 || (0x2000 <= u && u <= 0x200A) || u == 0x2028 || u == 0x2029 || u
        == 0x202F || u == 0x205F || u == 0x3000
}

/// Removes leading and trailing whitespace; the result carries none.
pub fn trim(s: &str) -> (r: &str)
    ensures
        r@ == trimmed(s@),
        trimmed(r@) == r@,
{
    let n = s.unicode_len();
    let mut i: usize = 0;
    while i < n && is_space_char(s.get_char(i))
        invariant
            n == s@.len(),
            0 <= i <= n,
            forall|k: int| 0 <= k < i ==> is_space(s@[k]),
        decreases n - i,
    {
        i = i + 1;
    }
    let mut j: usize = n;
    while j > i && is_space_char(s.get_char(j - 1))
        invariant
            n == s@.len(),
            i <= j <= n,
            forall|k: int| j <= k < n ==> is_space(s@[k]),
        decreases j,
    {
        j = j - 1;
    }
    let r = s.substring_char(i, j);
    proof {
        lemma_trim_front_at(s@, i as int);
        let t = s@.subrange(i as int, n as int);
        assert(forall|k: int| j - i <= k < t.len() ==> is_space(t[k]));
        lemma_trim_back_at(t, j - i);
        assert(t.subrange(0, j - i) =~= s@.subrange(i as int, j as int));
        lemma_trim_front_at(r@, 0);
        lemma_trim_back_at(r@, r@.len() as int);
        assert(r@.subrange(0, r@.len() as int) =~= r@);
    }
    r
}

/// A field value as the decoder stores it: trimmed of surrounding whitespace.
#[derive(Clone, Debug, PartialEq, Eq)]
pub struct SanitizedString {
    text: String,
}

impl View for SanitizedString {
    type V = Seq<char>;

    closed spec fn view(&self) -> Seq<char> {
        self.text@
    }
}

impl SanitizedString {
    /// Holds once built: the stored text carries no surrounding whitespace.
    pub open spec fn well_formed(self) -> bool {
        trimmed(self@) == self@
    }

    pub fn new(v: &str) -> (r: SanitizedString)
        ensures
            r@ == trimmed(v@),
            r.well_formed(),
    {
        SanitizedString { text: trim(v).to_owned() }
    }

    pub fn as_str(&self) -> (r: &str)
        ensures
            r@ == self@,
    {
        self.text.as_str()
    }
}

/// The quote-stripping that keeps aggregate keys safe to embed between
/// single quotes in SQL text.
pub open spec fn without_quotes(s: Seq<char>) -> Seq<char>
    decreases s.len(),
{
    if s.len() == 0 {
        Seq::empty()
    } else if s[0] == '\'' {
        without_quotes(s.drop_first())
    } else {
        seq![s[0]] + without_quotes(s.drop_first())
    }
}

proof fn lemma_without_quotes_push(s: Seq<char>, c: char)
    ensures
        without_quotes(s.push(c)) == without_quotes(s) + (if c == '\'' {
            Seq::<char>::empty()
        } else {
            seq![c]
        }),
    decreases s.len(),
{
    let tail = (if c == '\'' {
        Seq::<char>::empty()
    } else {
        seq![c]
    });
    if s.len() == 0 {
        assert(s.push(c)[0] == c);
        assert(s.push(c).drop_first() =~= Seq::<char>::empty());
        assert(without_quotes(Seq::<char>::empty()) == Seq::<char>::empty());
        assert(without_quotes(s.push(c)) =~= without_quotes(s) + tail);
    } else {
        assert(s.push(c).drop_first() =~= s.drop_first().push(c));
        lemma_without_quotes_push(s.drop_first(), c);
        assert(s.push(c)[0] == s[0]);
        if s[0] != '\'' {
            assert(seq![s[0]] + (without_quotes(s.drop_first()) + tail) =~= (seq![s[0]]
                + without_quotes(s.drop_first())) + tail);
        }
    }
}

/// Quote stripping removes every single-quote character: nothing of the key
/// can close the quoted position it is later embedded in.
pub proof fn lemma_without_quotes_clean(s: Seq<char>)
    ensures
        forall|i: int| 0 <= i < without_quotes(s).len() ==> without_quotes(s)[i] != '\'',
    decreases s.len(),
{
    if s.len() > 0 {
        lemma_without_quotes_clean(s.drop_first());
        let rest = without_quotes(s.drop_first());
        if s[0] == '\'' {
            assert(without_quotes(s) == rest);
        } else {
            assert(without_quotes(s) == seq![s[0]] + rest);
            assert forall|i: int|
                0 <= i < without_quotes(s).len() implies without_quotes(s)[i] != '\'' by {
                if i == 0 {
                    assert((seq![s[0]] + rest)[0] == s[0]);
                } else {
                    assert((seq![s[0]] + rest)[i] == rest[i - 1]);
                    assert(rest[i - 1] != '\'');
                }
            }
        }
    }
}

/// Removes every single-quote character from the value.
pub fn strip_quotes(s: &str) -> (r: String)
    ensures
        r@ == without_quotes(s@),
{
    let n = s.unicode_len();
    let mut r = String::new();
    let mut i: usize = 0;
    while i < n
        invariant
            n == s@.len(),
            0 <= i <= n,
            r@ == without_quotes(s@.subrange(0, i as int)),
        decreases n - i,
    {
        let c = s.get_char(i);
        if c != '\'' {
            let piece = s.substring_char(i, i + 1);
            proof {
                assert(piece@ =~= seq![s@[i as int]]);
            }
            r.append(piece);
        }
        proof {
            lemma_without_quotes_push(s@.subrange(0, i as int), s@[i as int]);
            assert(s@.subrange(0, i as int + 1) =~= s@.subrange(0, i as int).push(s@[i as int]));
            if c == '\'' {
                assert(r@ =~= without_quotes(s@.subrange(0, i as int + 1)));
            }
        }
        i = i + 1;
    }
    proof {
        assert(s@.subrange(0, n as int) =~= s@);
    }
    r
}

/// What `str::to_lowercase` returns for the given characters; the folding
/// itself is delegated, so the result is named rather than spelled out.
pub uninterp spec fn lower_of(s: Seq<char>) -> Seq<char>;

/// Relies on str::to_lowercase: the result depends on the characters alone.
#[verifier::external_body]
pub(crate) fn lowercase(s: &str) -> (r: String)
    ensures
        r@ == lower_of(s@),
{
    s.to_lowercase()
}

pub open spec fn is_ascii_upper(c: char) -> bool {
    65 <= c as u32 <= 90
}

/// Two characters that spell the same letter, differing at most in ASCII case.
pub open spec fn same_letter(a: char, b: char) -> bool {
    ||| a == b
    ||| (is_ascii_upper(a) && b as u32 == a as u32 + 32)
    ||| (is_ascii_upper(b) && a as u32 == b as u32 + 32)
}

pub open spec fn eq_ignore_ascii_case(s: Seq<char>, t: Seq<char>) -> bool {
    s.len() == t.len() && (forall|i: int| 0 <= i < s.len() ==> same_letter(s[i], t[i]))
}

fn char_matches_ci(a: char, b: char) -> (r: bool)
    ensures
        r == same_letter(a, b),
{
    let ua = a as u32;
    let ub = b as u32;
    a == b || (65 <= ua && ua <= 90 && ub == ua + 32) || (65 <= ub && ub <= 90 && ua == ub + 32)
}

/// Compares two values character by character.
pub fn str_eq(a: &str, b: &str) -> (r: bool)
    ensures
        r == (a@ == b@),
{
    let n = a.unicode_len();
    let m = b.unicode_len();
    if n != m {
        return false;
    }
    let mut i: usize = 0;
    while i < n
        invariant
            n == a@.len(),
            n == b@.len(),
            0 <= i <= n,
            forall|k: int| 0 <= k < i ==> a@[k] == b@[k],
        decreases n - i,
    {
        if a.get_char(i) != b.get_char(i) {
            return false;
        }
        i = i + 1;
    }
    proof {
        assert(a@ =~= b@);
    }
    true
}

/// Compares two values letter by letter, ignoring ASCII case.
pub fn str_eq_ci(s: &str, t: &str) -> (r: bool)
    ensures
        r == eq_ignore_ascii_case(s@, t@),
{
    let n = s.unicode_len();
    let m = t.unicode_len();
    if n != m {
        return false;
    }
    let mut i: usize = 0;
    while i < n
        invariant
            n == s@.len(),
            n == t@.len(),
            0 <= i <= n,
            forall|k: int| 0 <= k < i ==> same_letter(s@[k], t@[k]),
        decreases n - i,
    {
        if !char_matches_ci(s.get_char(i), t.get_char(i)) {
            return false;
        }
        i = i + 1;
    }
    true
}

} // verus!
