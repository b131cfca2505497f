use vstd::prelude::*;

use crate::dates::Date;
use crate::rows::Row;
use crate::rows::RowView;
use crate::text::lower_of;
use crate::text::lowercase;
use crate::text::str_eq;
use crate::text::strip_quotes;
use crate::text::without_quotes;

verus! {

/// A key already present in the entries.
pub open spec fn has_key(m: Seq<(Seq<char>, Date)>, k: Seq<char>) -> bool {
    exists|i: int| 0 <= i < m.len() && m[i].0 == k
}

/// The date stored under a key; meaningful only where the key is present.
pub open spec fn value_of(m: Seq<(Seq<char>, Date)>, k: Seq<char>) -> Date
    decreases m.len(),
{
    if m.len() == 0 {
        Date { year: 0, month: 0, day: 0 }
    } else if m[0].0 == k {
        m[0].1
    } else {
        value_of(m.drop_first(), k)
    }
}

pub open spec fn unique_keys(m: Seq<(Seq<char>, Date)>) -> bool {
    forall|i: int, j: int| 0 <= i < j < m.len() ==> m[i].0 != m[j].0
}

/// One merge step: an absent key is appended with the new date; a present
/// key keeps the chronologically earlier of its date and the new one.
pub open spec fn spec_merge(m: Seq<(Seq<char>, Date)>, k: Seq<char>, d: Date) -> Seq<
    (Seq<char>, Date),
>
    decreases m.len(),
{
    if m.len() == 0 {
        seq![(k, d)]
    } else if m[0].0 == k {
        seq![(k, Date::spec_min(m[0].1, d))] + m.drop_first()
    } else {
        seq![m[0]] + spec_merge(m.drop_first(), k, d)
    }
}

proof fn lemma_has_key_cons(e: (Seq<char>, Date), t: Seq<(Seq<char>, Date)>, k: Seq<char>)
    ensures
        has_key(seq![e] + t, k) <==> (e.0 == k || has_key(t, k)),
{
    let m = seq![e] + t;
    if has_key(m, k) {
        let i = choose|i: int| 0 <= i < m.len() && m[i].0 == k;
        if i > 0 {
            assert(t[i - 1].0 == k);
        }
    }
    if e.0 == k {
        assert(m[0].0 == k);
    }
    if has_key(t, k) {
        let i = choose|i: int| 0 <= i < t.len() && t[i].0 == k;
        assert(m[i + 1].0 == k);
    }
}

proof fn lemma_value_cons(e: (Seq<char>, Date), t: Seq<(Seq<char>, Date)>, k: Seq<char>)
    ensures
        value_of(seq![e] + t, k) == (if e.0 == k {
            e.1
        } else {
            value_of(t, k)
        }),
{
    let m = seq![e] + t;
    assert(m[0] == e);
    assert(m.drop_first() =~= t);
}

/// Merging a date for a key stores the earliest date seen for that key and
/// touches no other key.
pub proof fn lemma_merge_stores_min(m: Seq<(Seq<char>, Date)>, k: Seq<char>, d: Date)
    ensures
        has_key(spec_merge(m, k, d), k),
        value_of(spec_merge(m, k, d), k) == (if has_key(m, k) {
            Date::spec_min(value_of(m, k), d)
        } else {
            d
        }),
        forall|k2: Seq<char>| k2 != k ==> has_key(spec_merge(m, k, d), k2) == has_key(m, k2),
        forall|k2: Seq<char>|
            k2 != k ==> value_of(spec_merge(m, k, d), k2) == value_of(m, k2),
    decreases m.len(),
{
    if m.len() == 0 {
        let r = spec_merge(m, k, d);
        assert(r == seq![(k, d)]);
        assert(r[0].0 == k);
        assert(r.drop_first() =~= Seq::<(Seq<char>, Date)>::empty());
        assert(!has_key(m, k));
        assert(m =~= Seq::<(Seq<char>, Date)>::empty());
        assert forall|k2: Seq<char>| k2 != k implies has_key(r, k2) == has_key(m, k2)
            && value_of(r, k2) == value_of(m, k2) by {
            if has_key(r, k2) {
                let i = choose|i: int| 0 <= i < r.len() && r[i].0 == k2;
                assert(i == 0 && r[0].0 == k);
            }
            if has_key(m, k2) {
                let i = choose|i: int| 0 <= i < m.len() && m[i].0 == k2;
            }
            lemma_value_cons((k, d), Seq::<(Seq<char>, Date)>::empty(), k2);
            assert(r =~= seq![(k, d)] + Seq::<(Seq<char>, Date)>::empty());
        }
    } else if m[0].0 == k {
        let r = spec_merge(m, k, d);
        let e = (k, Date::spec_min(m[0].1, d));
        assert(r == seq![e] + m.drop_first());
        lemma_has_key_cons(e, m.drop_first(), k);
        lemma_value_cons(e, m.drop_first(), k);
        assert(m[0].0 == k);
        assert(has_key(m, k));
        assert(value_of(m, k) == m[0].1);
        assert forall|k2: Seq<char>| k2 != k implies has_key(r, k2) == has_key(m, k2)
            && value_of(r, k2) == value_of(m, k2) by {
            lemma_has_key_cons(e, m.drop_first(), k2);
            lemma_has_key_cons(m[0], m.drop_first(), k2);
            lemma_value_cons(e, m.drop_first(), k2);
            lemma_value_cons(m[0], m.drop_first(), k2);
            assert(seq![m[0]] + m.drop_first() =~= m);
        }
    } else {
        let rest = m.drop_first();
        let sub = spec_merge(rest, k, d);
        let r = spec_merge(m, k, d);
        assert(r == seq![m[0]] + sub);
        lemma_merge_stores_min(rest, k, d);
        lemma_has_key_cons(m[0], sub, k);
        lemma_value_cons(m[0], sub, k);
        lemma_has_key_cons(m[0], rest, k);
        lemma_value_cons(m[0], rest, k);
        assert(seq![m[0]] + rest =~= m);
        assert forall|k2: Seq<char>| k2 != k implies has_key(r, k2) == has_key(m, k2)
            && value_of(r, k2) == value_of(m, k2) by {
            lemma_has_key_cons(m[0], sub, k2);
            lemma_value_cons(m[0], sub, k2);
            lemma_has_key_cons(m[0], rest, k2);
            lemma_value_cons(m[0], rest, k2);
        }
    }
}

/// Two dates merged for one fresh key store exactly the earlier of the two.
pub proof fn lemma_pair_merge_stores_min(
    m: Seq<(Seq<char>, Date)>,
    k: Seq<char>,
    d1: Date,
    d2: Date,
)
    requires
        !has_key(m, k),
    ensures
        value_of(spec_merge(spec_merge(m, k, d1), k, d2), k) == Date::spec_min(d1, d2),
{
    lemma_merge_stores_min(m, k, d1);
    lemma_merge_stores_min(spec_merge(m, k, d1), k, d2);
}

/// Two dates merged for one key, in either order, leave the same map: the
/// collision policy is insensitive to the order in which files arrive.
pub proof fn lemma_merge_order_irrelevant(
    m: Seq<(Seq<char>, Date)>,
    k: Seq<char>,
    d1: Date,
    d2: Date,
)
    ensures
        spec_merge(spec_merge(m, k, d1), k, d2) == spec_merge(spec_merge(m, k, d2), k, d1),
    decreases m.len(),
{
    crate::dates::lemma_min_commutative(d1, d2);
    if m.len() == 0 {
        let a = spec_merge(m, k, d1);
        assert(a == seq![(k, d1)]);
        assert(a[0].0 == k);
        assert(a.drop_first() =~= Seq::<(Seq<char>, Date)>::empty());
        assert(spec_merge(a, k, d2) =~= seq![(k, Date::spec_min(d1, d2))]);
        let b = spec_merge(m, k, d2);
        assert(b == seq![(k, d2)]);
        assert(b[0].0 == k);
        assert(b.drop_first() =~= Seq::<(Seq<char>, Date)>::empty());
        assert(spec_merge(b, k, d1) =~= seq![(k, Date::spec_min(d2, d1))]);
    } else if m[0].0 == k {
        let v = m[0].1;
        let rest = m.drop_first();
        let a = spec_merge(m, k, d1);
        assert(a == seq![(k, Date::spec_min(v, d1))] + rest);
        assert(a[0].0 == k);
        assert(a.drop_first() =~= rest);
        assert(spec_merge(a, k, d2) =~= seq![(k, Date::spec_min(Date::spec_min(v, d1), d2))]
            + rest);
        let b = spec_merge(m, k, d2);
        assert(b == seq![(k, Date::spec_min(v, d2))] + rest);
        assert(b[0].0 == k);
        assert(b.drop_first() =~= rest);
        assert(spec_merge(b, k, d1) =~= seq![(k, Date::spec_min(Date::spec_min(v, d2), d1))]
            + rest);
        crate::dates::lemma_min_associative(v, d1, d2);
        crate::dates::lemma_min_associative(v, d2, d1);
        assert(Date::spec_min(Date::spec_min(v, d1), d2) == Date::spec_min(
            Date::spec_min(v, d2),
            d1,
        ));
    } else {
        let rest = m.drop_first();
        let a = spec_merge(m, k, d1);
        assert(a == seq![m[0]] + spec_merge(rest, k, d1));
        assert(a[0] == m[0]);
        assert(a.drop_first() =~= spec_merge(rest, k, d1));
        assert(spec_merge(a, k, d2) == seq![m[0]] + spec_merge(spec_merge(rest, k, d1), k, d2));
        let b = spec_merge(m, k, d2);
        assert(b == seq![m[0]] + spec_merge(rest, k, d2));
        assert(b[0] == m[0]);
        assert(b.drop_first() =~= spec_merge(rest, k, d2));
        assert(spec_merge(b, k, d1) == seq![m[0]] + spec_merge(spec_merge(rest, k, d2), k, d1));
        lemma_merge_order_irrelevant(rest, k, d1, d2);
    }
}

/// A batch of merge observations, applied first to last.
pub open spec fn apply_merges(
    m: Seq<(Seq<char>, Date)>,
    ops: Seq<(Seq<char>, Date)>,
) -> Seq<(Seq<char>, Date)>
    decreases ops.len(),
{
    if ops.len() == 0 {
        m
    } else {
        apply_merges(spec_merge(m, ops[0].0, ops[0].1), ops.drop_first())
    }
}

/// Two maps that agree as maps: the same keys, each with the same stored
/// date. Entry order (and with it the order of emitted statements) may
/// still differ.
pub open spec fn same_content(a: Seq<(Seq<char>, Date)>, b: Seq<(Seq<char>, Date)>) -> bool {
    forall|k: Seq<char>|
        #![trigger has_key(a, k)]
        #![trigger has_key(b, k)]
        #![trigger value_of(a, k)]
        #![trigger value_of(b, k)]
        has_key(a, k) == has_key(b, k) && value_of(a, k) == value_of(b, k)
}

proof fn lemma_same_content_sym(a: Seq<(Seq<char>, Date)>, b: Seq<(Seq<char>, Date)>)
    requires
        same_content(a, b),
    ensures
        same_content(b, a),
{
    assert forall|k: Seq<char>|
        has_key(b, k) == has_key(a, k) && value_of(b, k) == value_of(a, k) by {
        assert(has_key(a, k) == has_key(b, k));
    }
}

proof fn lemma_same_content_trans(
    a: Seq<(Seq<char>, Date)>,
    b: Seq<(Seq<char>, Date)>,
    c: Seq<(Seq<char>, Date)>,
)
    requires
        same_content(a, b),
        same_content(b, c),
    ensures
        same_content(a, c),
{
    assert forall|k: Seq<char>|
        has_key(a, k) == has_key(c, k) && value_of(a, k) == value_of(c, k) by {
        assert(has_key(a, k) == has_key(b, k));
        assert(has_key(b, k) == has_key(c, k));
    }
}

/// Merging one observation into maps of the same content leaves maps of the
/// same content.
proof fn lemma_merge_content_congruence(
    a: Seq<(Seq<char>, Date)>,
    b: Seq<(Seq<char>, Date)>,
    k: Seq<char>,
    d: Date,
)
    requires
        same_content(a, b),
    ensures
        same_content(spec_merge(a, k, d), spec_merge(b, k, d)),
{
    lemma_merge_stores_min(a, k, d);
    lemma_merge_stores_min(b, k, d);
    assert forall|q: Seq<char>|
        has_key(spec_merge(a, k, d), q) == has_key(spec_merge(b, k, d), q) && value_of(
            spec_merge(a, k, d),
            q,
        ) == value_of(spec_merge(b, k, d), q) by {
        assert(has_key(a, q) == has_key(b, q));
        assert(value_of(a, q) == value_of(b, q));
        if q != k {
            assert(has_key(spec_merge(a, k, d), q) == has_key(a, q));
            assert(has_key(spec_merge(b, k, d), q) == has_key(b, q));
            assert(value_of(spec_merge(a, k, d), q) == value_of(a, q));
            assert(value_of(spec_merge(b, k, d), q) == value_of(b, q));
        }
    }
}

proof fn lemma_apply_merges_congruence(
    a: Seq<(Seq<char>, Date)>,
    b: Seq<(Seq<char>, Date)>,
    ops: Seq<(Seq<char>, Date)>,
)
    requires
        same_content(a, b),
    ensures
        same_content(apply_merges(a, ops), apply_merges(b, ops)),
    decreases ops.len(),
{
    if ops.len() > 0 {
        lemma_merge_content_congruence(a, b, ops[0].0, ops[0].1);
        lemma_apply_merges_congruence(
            spec_merge(a, ops[0].0, ops[0].1),
            spec_merge(b, ops[0].0, ops[0].1),
            ops.drop_first(),
        );
    }
}

/// Two observations merged one after the other, in either order, leave maps
/// of the same content.
proof fn lemma_merge_swap_content(
    m: Seq<(Seq<char>, Date)>,
    k1: Seq<char>,
    d1: Date,
    k2: Seq<char>,
    d2: Date,
)
    ensures
        same_content(
            spec_merge(spec_merge(m, k1, d1), k2, d2),
            spec_merge(spec_merge(m, k2, d2), k1, d1),
        ),
{
    if k1 == k2 {
        lemma_merge_order_irrelevant(m, k1, d1, d2);
    } else {
        let a = spec_merge(m, k1, d1);
        let b = spec_merge(m, k2, d2);
        lemma_merge_stores_min(m, k1, d1);
        lemma_merge_stores_min(m, k2, d2);
        lemma_merge_stores_min(a, k2, d2);
        lemma_merge_stores_min(b, k1, d1);
        assert forall|q: Seq<char>|
            has_key(spec_merge(a, k2, d2), q) == has_key(spec_merge(b, k1, d1), q) && value_of(
                spec_merge(a, k2, d2),
                q,
            ) == value_of(spec_merge(b, k1, d1), q) by {
            if q == k1 {
                assert(has_key(spec_merge(a, k2, d2), k1) == has_key(a, k1));
                assert(value_of(spec_merge(a, k2, d2), k1) == value_of(a, k1));
                assert(has_key(b, k1) == has_key(m, k1));
                assert(value_of(b, k1) == value_of(m, k1));
            } else if q == k2 {
                assert(has_key(spec_merge(b, k1, d1), k2) == has_key(b, k2));
                assert(value_of(spec_merge(b, k1, d1), k2) == value_of(b, k2));
                assert(has_key(a, k2) == has_key(m, k2));
                assert(value_of(a, k2) == value_of(m, k2));
            } else {
                assert(has_key(spec_merge(a, k2, d2), q) == has_key(a, q));
                assert(has_key(a, q) == has_key(m, q));
                assert(has_key(spec_merge(b, k1, d1), q) == has_key(b, q));
                assert(has_key(b, q) == has_key(m, q));
                assert(value_of(spec_merge(a, k2, d2), q) == value_of(a, q));
                assert(value_of(a, q) == value_of(m, q));
                assert(value_of(spec_merge(b, k1, d1), q) == value_of(b, q));
                assert(value_of(b, q) == value_of(m, q));
            }
        }
    }
}

/// Applying a batch equals applying any one of its observations first and
/// the rest after, up to map content.
proof fn lemma_bring_to_front(m: Seq<(Seq<char>, Date)>, ops: Seq<(Seq<char>, Date)>, j: int)
    requires
        0 <= j < ops.len(),
    ensures
        same_content(apply_merges(m, ops), apply_merges(m, seq![ops[j]] + ops.remove(j))),
    decreases j,
{
    if j == 0 {
        assert(seq![ops[0]] + ops.remove(0) =~= ops);
    } else {
        let x = ops[j];
        let first = ops[0];
        let rest = ops.drop_first();
        let m1 = spec_merge(m, first.0, first.1);
        assert(apply_merges(m, ops) == apply_merges(m1, rest));
        assert(rest[j - 1] == x);
        lemma_bring_to_front(m1, rest, j - 1);
        let t = rest.remove(j - 1);
        assert((seq![x] + t)[0] == x);
        assert((seq![x] + t).drop_first() =~= t);
        assert(apply_merges(m1, seq![x] + t) == apply_merges(spec_merge(m1, x.0, x.1), t));
        lemma_merge_swap_content(m, first.0, first.1, x.0, x.1);
        let mx = spec_merge(m, x.0, x.1);
        lemma_apply_merges_congruence(spec_merge(m1, x.0, x.1), spec_merge(mx, first.0, first.1), t);
        assert(ops.remove(j) =~= seq![first] + t);
        assert((seq![x] + ops.remove(j))[0] == x);
        assert((seq![x] + ops.remove(j)).drop_first() =~= ops.remove(j));
        assert(apply_merges(m, seq![x] + ops.remove(j)) == apply_merges(mx, ops.remove(j)));
        assert((seq![first] + t)[0] == first);
        assert((seq![first] + t).drop_first() =~= t);
        assert(apply_merges(mx, seq![first] + t) == apply_merges(
            spec_merge(mx, first.0, first.1),
            t,
        ));
        lemma_same_content_trans(
            apply_merges(m, ops),
            apply_merges(m1, seq![x] + t),
            apply_merges(spec_merge(mx, first.0, first.1), t),
        );
    }
}

/// The same observations, in any two orders, leave maps of the same
/// content: the run's result is independent of the order in which the
/// directory listing yields the files, though entry order — and with it the
/// order of statements and of collision logs — may differ.
pub proof fn lemma_apply_merges_any_order(
    m: Seq<(Seq<char>, Date)>,
    ops1: Seq<(Seq<char>, Date)>,
    ops2: Seq<(Seq<char>, Date)>,
)
    requires
        ops1.to_multiset() == ops2.to_multiset(),
    ensures
        same_content(apply_merges(m, ops1), apply_merges(m, ops2)),
    decreases ops1.len(),
{
    broadcast use vstd::seq_lib::group_to_multiset_ensures;

    if ops1.len() == 0 {
        assert(ops1.to_multiset().len() == 0);
        assert(ops2.len() == 0);
    } else {
        let x = ops1[0];
        assert(ops1.contains(x));
        assert(ops1.to_multiset().count(x) > 0);
        assert(ops2.contains(x));
        let j = choose|j: int| 0 <= j < ops2.len() && ops2[j] == x;
        lemma_bring_to_front(m, ops2, j);
        assert(ops1.drop_first() =~= ops1.remove(0));
        assert(ops1.remove(0).to_multiset() == ops1.to_multiset().remove(x));
        assert(ops2.remove(j).to_multiset() == ops2.to_multiset().remove(x));
        let mx = spec_merge(m, x.0, x.1);
        lemma_apply_merges_any_order(mx, ops1.drop_first(), ops2.remove(j));
        assert(apply_merges(m, ops1) == apply_merges(mx, ops1.drop_first()));
        assert((seq![x] + ops2.remove(j))[0] == x);
        assert((seq![x] + ops2.remove(j)).drop_first() =~= ops2.remove(j));
        assert(apply_merges(m, seq![x] + ops2.remove(j)) == apply_merges(mx, ops2.remove(j)));
        lemma_same_content_sym(
            apply_merges(m, ops2),
            apply_merges(m, seq![x] + ops2.remove(j)),
        );
        lemma_same_content_trans(
            apply_merges(m, ops1),
            apply_merges(m, seq![x] + ops2.remove(j)),
            apply_merges(m, ops2),
        );
    }
}

proof fn lemma_merge_at_first(m: Seq<(Seq<char>, Date)>, k: Seq<char>, d: Date, i: int)
    requires
        0 <= i < m.len(),
        m[i].0 == k,
        forall|j: int| 0 <= j < i ==> m[j].0 != k,
    ensures
        spec_merge(m, k, d) == m.update(i, (k, Date::spec_min(m[i].1, d))),
    decreases i,
{
    if i == 0 {
        assert(spec_merge(m, k, d) =~= m.update(0, (k, Date::spec_min(m[0].1, d))));
    } else {
        let rest = m.drop_first();
        assert(forall|j: int| 0 <= j < i - 1 ==> rest[j].0 != k);
        lemma_merge_at_first(rest, k, d, i - 1);
        assert(seq![m[0]] + rest.update(i - 1, (k, Date::spec_min(m[i].1, d))) =~= m.update(
            i,
            (k, Date::spec_min(m[i].1, d)),
        ));
    }
}

proof fn lemma_merge_absent(m: Seq<(Seq<char>, Date)>, k: Seq<char>, d: Date)
    requires
        forall|j: int| 0 <= j < m.len() ==> m[j].0 != k,
    ensures
        spec_merge(m, k, d) == m.push((k, d)),
    decreases m.len(),
{
    if m.len() == 0 {
        assert(spec_merge(m, k, d) =~= m.push((k, d)));
    } else {
        let rest = m.drop_first();
        assert(forall|j: int| 0 <= j < rest.len() ==> rest[j].0 != k);
        lemma_merge_absent(rest, k, d);
        assert(seq![m[0]] + rest.push((k, d)) =~= m.push((k, d)));
    }
}

/// One key-to-earliest-date map, keyed by normalized identifier text, in
/// first-insertion order.
pub struct AggregateMap {
    entries: Vec<(String, Date)>,
}

impl View for AggregateMap {
    type V = Seq<(Seq<char>, Date)>;

    closed spec fn view(&self) -> Seq<(Seq<char>, Date)> {
        Seq::new(self.entries@.len(), |i: int| (self.entries@[i].0@, self.entries@[i].1))
    }
}

impl AggregateMap {
    /// Holds throughout a run: keys stay distinct and every stored date is a
    /// real calendar day.
    pub open spec fn wf(self) -> bool {
        &&& unique_keys(self@)
        &&& forall|i: int| 0 <= i < self@.len() ==> (#[trigger] self@[i]).1.well_formed()
    }

    pub fn new() -> (r: AggregateMap)
        ensures
            r@ == Seq::<(Seq<char>, Date)>::empty(),
            r.wf(),
    {
        let r = AggregateMap { entries: Vec::new() };
        proof {
            assert(r@ =~= Seq::<(Seq<char>, Date)>::empty());
        }
        r
    }

    pub fn len(&self) -> (r: usize)
        ensures
            r == self@.len(),
    {
        self.entries.len()
    }

    pub fn key_at(&self, i: usize) -> (r: &str)
        requires
            i < self@.len(),
        ensures
            r@ == self@[i as int].0,
    {
        self.entries[i].0.as_str()
    }

    pub fn date_at(&self, i: usize) -> (r: Date)
        requires
            i < self@.len(),
        ensures
            r == self@[i as int].1,
    {
        self.entries[i].1
    }

    /// Merges one observation; reports whether the key was already present,
    /// which is the collision the caller logs.
    pub fn merge(&mut self, key: String, date: Date) -> (collided: bool)
        requires
            old(self).wf(),
            date.well_formed(),
        ensures
            final(self)@ == spec_merge(old(self)@, key@, date),
            collided == has_key(old(self)@, key@),
            final(self).wf(),
    {
        let n = self.entries.len();
        let mut i: usize = 0;
        while i < n
            invariant
                n == self.entries@.len(),
                self == old(self),
                self.wf(),
                date.well_formed(),
                0 <= i <= n,
                forall|j: int| 0 <= j < i ==> self@[j].0 != key@,
            decreases n - i,
        {
            let hit = {
                let pair = &self.entries[i];
                str_eq(pair.0.as_str(), key.as_str())
            };
            if hit {
                let existing = self.entries[i].1;
                let ghost mv = self@;
                self.entries[i] = (key, Date::earliest(existing, date));
                proof {
                    lemma_merge_at_first(mv, key@, date, i as int);
                    assert(self@ =~= mv.update(
                        i as int,
                        (key@, Date::spec_min(existing, date)),
                    ));
                    assert(has_key(mv, key@));
                    assert forall|a: int, b: int| 0 <= a < b < self@.len() implies self@[a].0
                        != self@[b].0 by {
                        assert(mv[a].0 != mv[b].0);
                    }
                }
                return true;
            }
            i = i + 1;
        }
        let ghost mv = self@;
        self.entries.push((key, date));
        proof {
            lemma_merge_absent(mv, key@, date);
            assert(self@ =~= mv.push((key@, date)));
            if has_key(mv, key@) {
                let w = choose|w: int| 0 <= w < mv.len() && mv[w].0 == key@;
            }
            assert forall|a: int, b: int| 0 <= a < b < self@.len() implies self@[a].0
                != self@[b].0 by {
                if b < mv.len() {
                    assert(mv[a].0 != mv[b].0);
                } else {
                    assert(self@[b].0 == key@);
                    assert(mv[a].0 != key@);
                }
            }
        }
        false
    }
}

/// Which field feeds the intermediary map's key.
#[derive(Clone, Copy, PartialEq, Eq, Structural, Debug)]
pub enum KeySource {
    PrimaryEmail,
    IntermediaryId,
}

/// How the two maps are keyed and which keys are case-folded.
#[derive(Clone, Copy, PartialEq, Eq, Structural, Debug)]
pub struct AggregationConfig {
    pub intermediary_source: KeySource,
    pub fold_intermediary_key: bool,
    pub fold_organization_key: bool,
}

/// Key normalization: optional case folding, then quote stripping, so that
/// the key can later stand between single quotes in SQL text.
pub open spec fn spec_key(raw: Seq<char>, fold: bool) -> Seq<char> {
    without_quotes(
        if fold {
            lower_of(raw)
        } else {
            raw
        },
    )
}

pub fn make_key(raw: &str, fold: bool) -> (r: String)
    ensures
        r@ == spec_key(raw@, fold),
{
    if fold {
        let low = lowercase(raw);
        strip_quotes(low.as_str())
    } else {
        strip_quotes(raw)
    }
}

pub open spec fn intermediary_key(row: RowView, cfg: AggregationConfig) -> Seq<char> {
    match cfg.intermediary_source {
        KeySource::PrimaryEmail => spec_key(row.email, cfg.fold_intermediary_key),
        KeySource::IntermediaryId => spec_key(
            row.anagrafica_intermediario,
            cfg.fold_intermediary_key,
        ),
    }
}

pub open spec fn organization_key(row: RowView, cfg: AggregationConfig) -> Seq<char> {
    spec_key(row.anagrafica_organization, cfg.fold_organization_key)
}

/// Both maps after a batch of rows, with the keys that collided, in order.
pub struct AbsorbOutcome {
    pub intermediari: Seq<(Seq<char>, Date)>,
    pub organizations: Seq<(Seq<char>, Date)>,
    pub log: Seq<Seq<char>>,
}

/// Folding a batch of rows into the two maps: each row contributes its
/// intermediary key and its organization key, and every collision is noted.
pub open spec fn spec_absorb(
    im: Seq<(Seq<char>, Date)>,
    om: Seq<(Seq<char>, Date)>,
    rows: Seq<RowView>,
    date: Date,
    cfg: AggregationConfig,
) -> AbsorbOutcome
    decreases rows.len(),
{
    if rows.len() == 0 {
        AbsorbOutcome { intermediari: im, organizations: om, log: Seq::empty() }
    } else {
        let k1 = intermediary_key(rows[0], cfg);
        let k2 = organization_key(rows[0], cfg);
        let noted = (if has_key(im, k1) {
            seq![k1]
        } else {
            Seq::<Seq<char>>::empty()
        }) + (if has_key(om, k2) {
            seq![k2]
        } else {
            Seq::<Seq<char>>::empty()
        });
        let rest = spec_absorb(
            spec_merge(im, k1, date),
            spec_merge(om, k2, date),
            rows.drop_first(),
            date,
            cfg,
        );
        AbsorbOutcome {
            intermediari: rest.intermediari,
            organizations: rest.organizations,
            log: noted + rest.log,
        }
    }
}

/// The two aggregate maps a run accumulates.
pub struct Reducer {
    pub intermediari: AggregateMap,
    pub organizations: AggregateMap,
}

impl Reducer {
    pub open spec fn wf(self) -> bool {
        self.intermediari.wf() && self.organizations.wf()
    }

    pub fn new() -> (r: Reducer)
        ensures
            r.intermediari@ == Seq::<(Seq<char>, Date)>::empty(),
            r.organizations@ == Seq::<(Seq<char>, Date)>::empty(),
            r.wf(),
    {
        Reducer { intermediari: AggregateMap::new(), organizations: AggregateMap::new() }
    }

    /// Folds every row of one file, all under the file's single activation
    /// date; the returned keys are the collisions, in the order they were
    /// seen, for the caller to report.
    pub fn absorb_rows(&mut self, rows: &Vec<Row>, date: Date, cfg: AggregationConfig) -> (log:
        Vec<String>)
        requires
            old(self).wf(),
            date.well_formed(),
        ensures
            final(self).wf(),
            ({
                let o = spec_absorb(
                    old(self).intermediari@,
                    old(self).organizations@,
                    rows.deep_view(),
                    date,
                    cfg,
                );
                &&& final(self).intermediari@ == o.intermediari
                &&& final(self).organizations@ == o.organizations
                &&& log.deep_view() == o.log
            }),
    {
        let ghost im0 = self.intermediari@;
        let ghost om0 = self.organizations@;
        let ghost rowsv = rows.deep_view();
        let n = rows.len();
        let mut log: Vec<String> = Vec::new();
        proof {
            assert(rowsv.skip(0) =~= rowsv);
            assert(log.deep_view() =~= Seq::<Seq<char>>::empty());
            let tail = spec_absorb(im0, om0, rowsv, date, cfg);
            assert(log.deep_view() + tail.log =~= tail.log);
        }
        let mut i: usize = 0;
        while i < n
            invariant
                n == rows@.len(),
                rowsv == rows.deep_view(),
                self.wf(),
                date.well_formed(),
                0 <= i <= n,
                ({
                    let tail = spec_absorb(
                        self.intermediari@,
                        self.organizations@,
                        rowsv.skip(i as int),
                        date,
                        cfg,
                    );
                    spec_absorb(im0, om0, rowsv, date, cfg) == (AbsorbOutcome {
                        intermediari: tail.intermediari,
                        organizations: tail.organizations,
                        log: log.deep_view() + tail.log,
                    })
                }),
            decreases n - i,
        {
            proof {
                assert(rowsv.skip(i as int)[0] == rowsv[i as int]);
                assert(rowsv[i as int] == rows@[i as int].deep_view());
                assert(rowsv.skip(i as int).drop_first() =~= rowsv.skip(i as int + 1));
            }
            let row = &rows[i];
            let source = match cfg.intermediary_source {
                KeySource::PrimaryEmail => row.email.as_str(),
                KeySource::IntermediaryId => row.anagrafica_intermediario.as_str(),
            };
            let k1 = make_key(source, cfg.fold_intermediary_key);
            let k2 = make_key(row.anagrafica_organization.as_str(), cfg.fold_organization_key);
            let ghost log_prev = log.deep_view();
            let k1_copy = k1.clone();
            let collided1 = self.intermediari.merge(k1, date);
            if collided1 {
                log.push(k1_copy);
            }
            let k2_copy = k2.clone();
            let collided2 = self.organizations.merge(k2, date);
            if collided2 {
                log.push(k2_copy);
            }
            proof {
                let k1v = intermediary_key(rowsv[i as int], cfg);
                let k2v = organization_key(rowsv[i as int], cfg);
                assert(log.deep_view() =~= log_prev + ((if collided1 {
                    seq![k1v]
                } else {
                    Seq::<Seq<char>>::empty()
                }) + (if collided2 {
                    seq![k2v]
                } else {
                    Seq::<Seq<char>>::empty()
                })));
                let tail = spec_absorb(
                    self.intermediari@,
                    self.organizations@,
                    rowsv.skip(i as int + 1),
                    date,
                    cfg,
                );
                assert(log_prev + (((if collided1 {
                    seq![k1v]
                } else {
                    Seq::<Seq<char>>::empty()
                }) + (if collided2 {
                    seq![k2v]
                } else {
                    Seq::<Seq<char>>::empty()
                })) + tail.log) =~= (log_prev + ((if collided1 {
                    seq![k1v]
                } else {
                    Seq::<Seq<char>>::empty()
                }) + (if collided2 {
                    seq![k2v]
                } else {
                    Seq::<Seq<char>>::empty()
                }))) + tail.log);
            }
            i = i + 1;
        }
        proof {
            assert(rowsv.skip(n as int) =~= Seq::<RowView>::empty());
            let tail = spec_absorb(self.intermediari@, self.organizations@, rowsv.skip(n as int), date, cfg);
            assert(log.deep_view() + tail.log =~= log.deep_view());
        }
        log
    }
}

} // verus!
