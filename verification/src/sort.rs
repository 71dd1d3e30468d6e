//! Stable sorting of view rows by days remaining. The sort is specified as
//! an insertion sort that places each row before the first later row whose
//! key is not smaller, so rows with equal days remaining keep the relative
//! order in which they were fetched.

use vstd::prelude::*;
use vstd::seq_lib::group_seq_properties;
use crate::model::Output;

verus! {

/// The sort key of a row: its whole days remaining.
pub open spec fn row_key(r: Output) -> int {
    r.days_left as int
}

/// Rows appear in ascending order of days remaining.
pub open spec fn sorted_rows(s: Seq<Output>) -> bool {
    forall|i: int, j: int| 0 <= i <= j < s.len() ==> row_key(s[i]) <= row_key(s[j])
}

/// The subsequence of rows whose key is exactly `k`, in order.
pub open spec fn with_key(s: Seq<Output>, k: int) -> Seq<Output> {
    s.filter(|r: Output| row_key(r) == k)
}

/// `x` placed directly before the first row of `l` whose key is not
/// smaller than `x`'s, so `x` precedes every row of `l` with an equal key.
pub open spec fn spec_insert(x: Output, l: Seq<Output>) -> Seq<Output>
    decreases l.len(),
{
    if l.len() == 0 {
        seq![x]
    } else if row_key(x) <= row_key(l[0]) {
        seq![x] + l
    } else {
        seq![l[0]] + spec_insert(x, l.drop_first())
    }
}

/// Stable insertion sort by `row_key`: each row is inserted, earliest
/// first, into the sorted rows that follow it.
pub open spec fn spec_sort(s: Seq<Output>) -> Seq<Output>
    decreases s.len(),
{
    if s.len() == 0 {
        Seq::empty()
    } else {
        spec_insert(s[0], spec_sort(s.drop_first()))
    }
}

proof fn lemma_insert_len(x: Output, l: Seq<Output>)
    ensures
        spec_insert(x, l).len() == l.len() + 1,
    decreases l.len(),
{
    if l.len() > 0 && row_key(x) > row_key(l[0]) {
        lemma_insert_len(x, l.drop_first());
    }
}

proof fn lemma_insert_sorted(x: Output, l: Seq<Output>)
    requires
        sorted_rows(l),
    ensures
        sorted_rows(spec_insert(x, l)),
    decreases l.len(),
{
    if l.len() == 0 {
    } else if row_key(x) <= row_key(l[0]) {
    } else {
        assert(sorted_rows(l.drop_first()));
        lemma_insert_sorted(x, l.drop_first());
        lemma_insert_len(x, l.drop_first());
        let r = seq![l[0]] + spec_insert(x, l.drop_first());
        assert forall|i: int, j: int| 0 <= i <= j < r.len() implies row_key(r[i]) <= row_key(
            r[j],
        ) by {
            if i == 0 && j > 0 {
                let inner = spec_insert(x, l.drop_first());
                assert(r[j] == inner[j - 1]);
                lemma_insert_element_bound(x, l.drop_first(), j - 1);
            }
        }
    }
}

/// Every row of `spec_insert(x, l)` is either `x` or a row of `l`.
proof fn lemma_insert_element_bound(x: Output, l: Seq<Output>, i: int)
    requires
        0 <= i < spec_insert(x, l).len(),
    ensures
        spec_insert(x, l)[i] == x || exists|j: int|
            0 <= j < l.len() && l[j] == #[trigger] spec_insert(x, l)[i],
    decreases l.len(),
{
    lemma_insert_len(x, l);
    if l.len() == 0 {
    } else if row_key(x) <= row_key(l[0]) {
        if i > 0 {
            assert(spec_insert(x, l)[i] == l[i - 1]);
        }
    } else {
        if i > 0 {
            lemma_insert_element_bound(x, l.drop_first(), i - 1);
            let inner = spec_insert(x, l.drop_first());
            assert(spec_insert(x, l)[i] == inner[i - 1]);
            if inner[i - 1] != x {
                let j = choose|j: int|
                    0 <= j < l.drop_first().len() && l.drop_first()[j] == inner[i - 1];
                assert(l[j + 1] == inner[i - 1]);
            }
        }
    }
}

/// The sorted view really is sorted by days remaining.
pub proof fn lemma_sort_sorted(s: Seq<Output>)
    ensures
        sorted_rows(spec_sort(s)),
    decreases s.len(),
{
    if s.len() > 0 {
        lemma_sort_sorted(s.drop_first());
        lemma_insert_sorted(s[0], spec_sort(s.drop_first()));
    }
}

proof fn lemma_with_key_singleton(x: Output, k: int)
    ensures
        with_key(seq![x], k) == if row_key(x) == k {
            seq![x]
        } else {
            Seq::<Output>::empty()
        },
{
    reveal_with_fuel(Seq::filter, 2);
    let p = |r: Output| row_key(r) == k;
    assert(seq![x].drop_last() =~= Seq::<Output>::empty());
    if p(x) {
        assert(seq![x].filter(p) =~= seq![x]);
    } else {
        assert(seq![x].filter(p) =~= Seq::<Output>::empty());
    }
}

proof fn lemma_with_key_insert(x: Output, l: Seq<Output>, k: int)
    ensures
        with_key(spec_insert(x, l), k) == if row_key(x) == k {
            seq![x] + with_key(l, k)
        } else {
            with_key(l, k)
        },
    decreases l.len(),
{
    broadcast use Seq::filter_distributes_over_add;

    reveal(Seq::filter);
    let p = |r: Output| row_key(r) == k;
    lemma_with_key_singleton(x, k);
    if l.len() == 0 {
        assert(with_key(l, k) =~= Seq::<Output>::empty());
        assert(seq![x] + Seq::<Output>::empty() =~= seq![x]);
    } else if row_key(x) <= row_key(l[0]) {
        assert(spec_insert(x, l) == seq![x] + l);
        assert((seq![x] + l).filter(p) == seq![x].filter(p) + l.filter(p));
        if !p(x) {
            assert(Seq::<Output>::empty() + l.filter(p) =~= l.filter(p));
        }
    } else {
        lemma_with_key_insert(x, l.drop_first(), k);
        lemma_with_key_singleton(l[0], k);
        assert(l =~= seq![l[0]] + l.drop_first());
        assert(l.filter(p) == seq![l[0]].filter(p) + l.drop_first().filter(p));
        let inner = spec_insert(x, l.drop_first());
        assert(spec_insert(x, l) == seq![l[0]] + inner);
        assert((seq![l[0]] + inner).filter(p) == seq![l[0]].filter(p) + inner.filter(p));
        if p(x) {
            if p(l[0]) {
                // l[0]'s key is k == x's key, yet insertion skipped l[0]:
                // impossible, since then row_key(x) <= row_key(l[0]).
                assert(false);
            }
            assert(seq![l[0]].filter(p) =~= Seq::<Output>::empty());
            assert(Seq::<Output>::empty() + (seq![x] + l.drop_first().filter(p)) =~= seq![x] + (
            Seq::<Output>::empty() + l.drop_first().filter(p)));
        } else {
            assert(seq![l[0]].filter(p) + inner.filter(p) =~= seq![l[0]].filter(p)
                + l.drop_first().filter(p));
        }
    }
}

/// Stability: for every key `k`, the rows with `k` days remaining come out
/// of the sort exactly as they went in, in the same order. Together with
/// `lemma_sort_sorted` this pins the sorted view down completely.
pub proof fn lemma_sort_stable(s: Seq<Output>, k: int)
    ensures
        with_key(spec_sort(s), k) == with_key(s, k),
    decreases s.len(),
{
    broadcast use Seq::filter_distributes_over_add;

    reveal(Seq::filter);
    let p = |r: Output| row_key(r) == k;
    if s.len() > 0 {
        lemma_sort_stable(s.drop_first(), k);
        lemma_with_key_insert(s[0], spec_sort(s.drop_first()), k);
        lemma_with_key_singleton(s[0], k);
        assert(s =~= seq![s[0]] + s.drop_first());
        assert(s.filter(p) == seq![s[0]].filter(p) + s.drop_first().filter(p));
        if p(s[0]) {
        } else {
            assert(Seq::<Output>::empty() + s.drop_first().filter(p) =~= s.drop_first().filter(
                p,
            ));
        }
    }
}

/// Insert one row into an already sorted vector at its stable position.
fn insert_row(v: Vec<Output>, x: Output) -> (r: Vec<Output>)
    ensures
        r@ == spec_insert(x, v@),
{
    let mut p: usize = 0;
    while p < v.len() && v[p].days_left < x.days_left
        invariant
            p <= v.len(),
            forall|j: int| 0 <= j < p ==> row_key(v@[j]) < row_key(x),
        decreases v.len() - p,
    {
        p += 1;
    }
    let ghost old_v = v@;
    let ghost pos = p as int;
    let mut v = v;
    v.insert(p, x);
    proof {
        lemma_insert_at(x, old_v, pos);
    }
    v
}

/// Where the scan stops is where `spec_insert` puts the row.
proof fn lemma_insert_at(x: Output, l: Seq<Output>, p: int)
    requires
        0 <= p <= l.len(),
        forall|j: int| 0 <= j < p ==> row_key(l[j]) < row_key(x),
        p < l.len() ==> row_key(x) <= row_key(l[p]),
    ensures
        spec_insert(x, l) == l.insert(p, x),
    decreases p,
{
    if p == 0 {
        if l.len() == 0 {
            assert(spec_insert(x, l) =~= l.insert(0, x));
        } else {
            assert(spec_insert(x, l) == seq![x] + l);
            assert(seq![x] + l =~= l.insert(0, x));
        }
    } else {
        assert(row_key(l[0]) < row_key(x));
        let rest = l.drop_first();
        assert forall|j: int| 0 <= j < p - 1 implies row_key(rest[j]) < row_key(x) by {
            assert(rest[j] == l[j + 1]);
        }
        assert(p - 1 < rest.len() ==> row_key(x) <= row_key(rest[p - 1]));
        lemma_insert_at(x, rest, p - 1);
        assert(spec_insert(x, l) == seq![l[0]] + rest.insert(p - 1, x));
        assert(seq![l[0]] + rest.insert(p - 1, x) =~= l.insert(p, x));
    }
}

/// Sort the merged rows of all courses, ascending by days remaining,
/// stably: exactly `spec_sort` of the input.
pub fn sort_rows(rows: Vec<Output>) -> (r: Vec<Output>)
    ensures
        r@ == spec_sort(rows@),
{
    broadcast use group_seq_properties;

    let ghost orig = rows@;
    let mut rows = rows;
    let mut out: Vec<Output> = Vec::new();
    proof {
        assert(orig.take(orig.len() as int) =~= orig);
        assert(orig.skip(orig.len() as int) =~= Seq::<Output>::empty());
    }
    while rows.len() > 0
        invariant
            rows@.len() <= orig.len(),
            rows@ == orig.take(rows@.len() as int),
            out@ == spec_sort(orig.skip(rows@.len() as int)),
        decreases rows.len(),
    {
        let ghost n = rows@.len() as int;
        let x = rows.pop().unwrap();
        proof {
            assert(x == orig[n - 1]);
            assert(rows@ =~= orig.take(n - 1));
            assert(orig.skip(n - 1)[0] == orig[n - 1]);
            assert(orig.skip(n - 1).drop_first() =~= orig.skip(n));
        }
        out = insert_row(out, x);
    }
    proof {
        assert(orig.skip(0) =~= orig);
    }
    out
}

} // verus!
