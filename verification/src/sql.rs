use vstd::prelude::*;
use vstd::string::StringExecFns;

use crate::aggregate::AggregateMap;
use crate::dates::Date;
use crate::digits::dec2;
use crate::digits::dec4;
use crate::digits::push_four_digits;
use crate::digits::push_two_digits;

verus! {

/// The timestamp a date renders to: its calendar day at UTC midnight, with
/// microsecond precision written out.
pub open spec fn spec_timestamp(d: Date) -> Seq<char> {
    dec4(d.year as int) + "-"@ + dec2(d.month as int) + "-"@ + dec2(d.day as int)
        + "T00:00:00.000000+00:00"@
}

/// One update statement: the date under the fixed column, the key between
/// single quotes.
pub open spec fn spec_update_line(
    table: Seq<char>,
    key_col: Seq<char>,
    key: Seq<char>,
    d: Date,
) -> Seq<char> {
    "update "@ + table + " set activated_at = '"@ + spec_timestamp(d) + "' where "@ + key_col
        + " = '"@ + key + "';"@
}

/// A whole script: one statement per entry, in entry order, joined with a
/// single newline between statements and nothing after the last.
pub open spec fn spec_script(
    m: Seq<(Seq<char>, Date)>,
    table: Seq<char>,
    key_col: Seq<char>,
) -> Seq<char>
    decreases m.len(),
{
    if m.len() == 0 {
        Seq::empty()
    } else if m.len() == 1 {
        spec_update_line(table, key_col, m[0].0, m[0].1)
    } else {
        spec_update_line(table, key_col, m[0].0, m[0].1) + "\n"@ + spec_script(
            m.drop_first(),
            table,
            key_col,
        )
    }
}

proof fn lemma_script_snoc(
    m: Seq<(Seq<char>, Date)>,
    e: (Seq<char>, Date),
    table: Seq<char>,
    key_col: Seq<char>,
)
    ensures
        spec_script(m.push(e), table, key_col) == (if m.len() == 0 {
            spec_update_line(table, key_col, e.0, e.1)
        } else {
            spec_script(m, table, key_col) + "\n"@ + spec_update_line(table, key_col, e.0, e.1)
        }),
    decreases m.len(),
{
    let p = m.push(e);
    assert(p[0] == if m.len() == 0 {
        e
    } else {
        m[0]
    });
    if m.len() == 0 {
    } else if m.len() == 1 {
        assert(p.drop_first() =~= seq![e]);
        assert(seq![e][0] == e);
        assert(spec_script(seq![e], table, key_col) == spec_update_line(
            table,
            key_col,
            e.0,
            e.1,
        ));
    } else {
        assert(p.drop_first() =~= m.drop_first().push(e));
        lemma_script_snoc(m.drop_first(), e, table, key_col);
        let line0 = spec_update_line(table, key_col, m[0].0, m[0].1);
        let line_e = spec_update_line(table, key_col, e.0, e.1);
        let rest = spec_script(m.drop_first(), table, key_col);
        assert(line0 + "\n"@ + (rest + "\n"@ + line_e) =~= (line0 + "\n"@ + rest) + "\n"@
            + line_e);
    }
}

/// Renders one update statement.
pub fn render_update_line(table: &str, key_col: &str, key: &str, d: Date) -> (r: String)
    requires
        d.well_formed(),
    ensures
        r@ == spec_update_line(table@, key_col@, key@, d),
{
    let mut out = String::new();
    out.append("update ");
    out.append(table);
    out.append(" set activated_at = '");
    push_four_digits(&mut out, d.year as u32);
    out.append("-");
    push_two_digits(&mut out, d.month as u32);
    out.append("-");
    push_two_digits(&mut out, d.day as u32);
    out.append("T00:00:00.000000+00:00");
    out.append("' where ");
    out.append(key_col);
    out.append(" = '");
    out.append(key);
    out.append("';");
    proof {
        assert(out@ =~= spec_update_line(table@, key_col@, key@, d));
    }
    out
}

/// Renders a finished map as its whole script.
pub fn render_script(m: &AggregateMap, table: &str, key_col: &str) -> (r: String)
    requires
        m.wf(),
    ensures
        r@ == spec_script(m@, table@, key_col@),
{
    let n = m.len();
    let mut out = String::new();
    proof {
        assert(m@.take(0) =~= Seq::<(Seq<char>, Date)>::empty());
        assert(out@ =~= spec_script(m@.take(0), table@, key_col@));
    }
    let mut i: usize = 0;
    while i < n
        invariant
            n == m@.len(),
            m.wf(),
            0 <= i <= n,
            out@ == spec_script(m@.take(i as int), table@, key_col@),
        decreases n - i,
    {
        let ghost prev = out@;
        if i > 0 {
            out.append("\n");
        }
        let line = render_update_line(table, key_col, m.key_at(i), m.date_at(i));
        out.append(line.as_str());
        proof {
            lemma_script_snoc(m@.take(i as int), m@[i as int], table@, key_col@);
            assert(m@.take(i as int + 1) =~= m@.take(i as int).push(m@[i as int]));
            if i == 0 {
                assert(prev =~= Seq::<char>::empty());
                assert(out@ =~= line@);
            }
        }
        i = i + 1;
    }
    proof {
        assert(m@.take(n as int) =~= m@);
    }
    out
}

} // verus!
