//! Stable ordering: positions of a sequence, rearranged by a key.

use vstd::prelude::*;

verus! {

/// `sorted` with `x` put behind every element that may stand before it.
pub open spec fn inserted(sorted: Seq<int>, x: int, le: spec_fn(int, int) -> bool) -> Seq<int>
    decreases sorted.len(),
{
    if sorted.len() == 0 || le(sorted.last(), x) {
        sorted.push(x)
    } else {
        inserted(sorted.drop_last(), x, le).push(sorted.last())
    }
}

/// The positions `0..n` in the order of `le`, equal ones in their own order.
pub open spec fn stable_order(n: nat, le: spec_fn(int, int) -> bool) -> Seq<int>
    decreases n,
{
    if n == 0 {
        Seq::<int>::empty()
    } else {
        inserted(stable_order((n - 1) as nat, le), n - 1, le)
    }
}

/// Whether `le` compares any two positions and chains.
pub open spec fn total_preorder(le: spec_fn(int, int) -> bool) -> bool {
    &&& forall|a: int, b: int| #[trigger] le(a, b) || le(b, a)
    &&& forall|a: int, b: int, c: int| #[trigger] le(a, b) && #[trigger] le(b, c) ==> le(a, c)
}

/// Whether `s` is in the order of `le`, equal positions in their own order.
pub open spec fn stably_sorted(s: Seq<int>, le: spec_fn(int, int) -> bool) -> bool {
    forall|i: int, j: int|
        0 <= i < j < s.len() ==> {
            &&& le(#[trigger] s[i], #[trigger] s[j])
            &&& le(s[j], s[i]) ==> s[i] < s[j]
        }
}

/// Inserting keeps the length and adds just `x`.
pub proof fn lemma_inserted(sorted: Seq<int>, x: int, le: spec_fn(int, int) -> bool)
    ensures
        inserted(sorted, x, le).len() == sorted.len() + 1,
        inserted(sorted, x, le).to_multiset() == sorted.to_multiset().insert(x),
        forall|v: int|
            #![trigger inserted(sorted, x, le).contains(v)]
            #![trigger sorted.contains(v)]
            inserted(sorted, x, le).contains(v) <==> (v == x || sorted.contains(v)),
    decreases sorted.len(),
{
    broadcast use vstd::seq_lib::group_to_multiset_ensures;

    let r = inserted(sorted, x, le);
    if sorted.len() == 0 || le(sorted.last(), x) {
        assert(r == sorted.push(x));
        assert forall|v: int| r.contains(v) <==> (v == x || sorted.contains(v)) by {
            if sorted.contains(v) {
                let k = choose|k: int| 0 <= k < sorted.len() && sorted[k] == v;
                assert(r[k] == v);
            }
            assert(r[sorted.len() as int] == x);
        }
    } else {
        let d = sorted.drop_last();
        lemma_inserted(d, x, le);
        let rd = inserted(d, x, le);
        assert(d.push(sorted.last()) =~= sorted);
        assert(r == rd.push(sorted.last()));
        assert(r.to_multiset() =~= sorted.to_multiset().insert(x));
        assert forall|v: int| r.contains(v) <==> (v == x || sorted.contains(v)) by {
            if r.contains(v) {
                let k = choose|k: int| 0 <= k < r.len() && r[k] == v;
                if k < rd.len() {
                    assert(rd.contains(v)) by {
                        assert(rd[k] == v);
                    }
                    if v != x {
                        let m = choose|m: int| 0 <= m < d.len() && d[m] == v;
                        assert(sorted[m] == v);
                    }
                } else {
                    assert(sorted[sorted.len() - 1] == v);
                }
            }
            if sorted.contains(v) {
                let m = choose|m: int| 0 <= m < sorted.len() && sorted[m] == v;
                if m < d.len() {
                    assert(d[m] == v);
                    assert(d.contains(v));
                    assert(rd.contains(v));
                    let k = choose|k: int| 0 <= k < rd.len() && rd[k] == v;
                    assert(r[k] == v);
                } else {
                    assert(r[rd.len() as int] == v);
                }
            }
            assert(rd.contains(x));
            let k = choose|k: int| 0 <= k < rd.len() && rd[k] == x;
            assert(r[k] == x);
        }
    }
}

/// Inserting a later position into a sorted sequence keeps it sorted.
proof fn lemma_inserted_sorted(sorted: Seq<int>, x: int, le: spec_fn(int, int) -> bool)
    requires
        total_preorder(le),
        stably_sorted(sorted, le),
        forall|i: int| 0 <= i < sorted.len() ==> #[trigger] sorted[i] < x,
    ensures
        stably_sorted(inserted(sorted, x, le), le),
    decreases sorted.len(),
{
    let r = inserted(sorted, x, le);
    if sorted.len() == 0 || le(sorted.last(), x) {
        assert forall|i: int, j: int| 0 <= i < j < r.len() implies {
            &&& le(#[trigger] r[i], #[trigger] r[j])
            &&& le(r[j], r[i]) ==> r[i] < r[j]
        } by {
            if j < sorted.len() {
                assert(r[i] == sorted[i] && r[j] == sorted[j]);
            } else {
                assert(r[i] == sorted[i]);
                if i < sorted.len() - 1 {
                    assert(le(sorted[i], sorted[sorted.len() - 1]));
                } else {
                    assert(le(sorted[i], x));
                }
            }
        }
    } else {
        let d = sorted.drop_last();
        assert forall|i: int, j: int| 0 <= i < j < d.len() implies {
            &&& le(#[trigger] d[i], #[trigger] d[j])
            &&& le(d[j], d[i]) ==> d[i] < d[j]
        } by {
            assert(d[i] == sorted[i] && d[j] == sorted[j]);
        }
        lemma_inserted_sorted(d, x, le);
        lemma_inserted(d, x, le);
        let rd = inserted(d, x, le);
        let last = sorted.last();
        assert forall|i: int, j: int| 0 <= i < j < r.len() implies {
            &&& le(#[trigger] r[i], #[trigger] r[j])
            &&& le(r[j], r[i]) ==> r[i] < r[j]
        } by {
            if j < rd.len() {
                assert(r[i] == rd[i] && r[j] == rd[j]);
            } else {
                assert(r[j] == last);
                assert(rd.contains(r[i])) by {
                    assert(rd[i] == r[i]);
                }
                if r[i] == x {
                    assert(le(x, last) || le(last, x));
                } else {
                    let k = choose|k: int| 0 <= k < d.len() && d[k] == r[i];
                    assert(sorted[k] == r[i]);
                    assert(sorted[sorted.len() - 1] == last);
                }
            }
        }
    }
}

/// The order holds each position once.
pub proof fn lemma_stable_order_positions(n: nat, le: spec_fn(int, int) -> bool)
    ensures
        stable_order(n, le).len() == n,
        forall|v: int| #[trigger] stable_order(n, le).contains(v) <==> 0 <= v < n,
        stable_order(n, le).no_duplicates(),
    decreases n,
{
    if n > 0 {
        let m = (n - 1) as nat;
        lemma_stable_order_positions(m, le);
        lemma_inserted(stable_order(m, le), n - 1, le);
        lemma_inserted_distinct(stable_order(m, le), n - 1, le);
    }
}

proof fn lemma_inserted_distinct(sorted: Seq<int>, x: int, le: spec_fn(int, int) -> bool)
    requires
        sorted.no_duplicates(),
        !sorted.contains(x),
    ensures
        inserted(sorted, x, le).no_duplicates(),
    decreases sorted.len(),
{
    let r = inserted(sorted, x, le);
    if sorted.len() == 0 || le(sorted.last(), x) {
        assert forall|i: int, j: int| 0 <= i < r.len() && 0 <= j < r.len() && i != j implies r[i]
            != r[j] by {
            if i < sorted.len() {
                assert(sorted.contains(sorted[i]));
            }
            if j < sorted.len() {
                assert(sorted.contains(sorted[j]));
            }
        }
    } else {
        let d = sorted.drop_last();
        assert(!d.contains(x)) by {
            if d.contains(x) {
                let k = choose|k: int| 0 <= k < d.len() && d[k] == x;
                assert(sorted[k] == x);
            }
        }
        lemma_inserted_distinct(d, x, le);
        lemma_inserted(d, x, le);
        let rd = inserted(d, x, le);
        assert(!rd.contains(sorted.last())) by {
            if d.contains(sorted.last()) {
                let k = choose|k: int| 0 <= k < d.len() && d[k] == sorted.last();
                assert(sorted[k] == sorted[sorted.len() - 1]);
            }
            assert(sorted.contains(sorted[sorted.len() - 1]));
        }
        assert forall|i: int, j: int| 0 <= i < r.len() && 0 <= j < r.len() && i != j implies r[i]
            != r[j] by {
            if i < rd.len() {
                assert(rd.contains(rd[i]));
            }
            if j < rd.len() {
                assert(rd.contains(rd[j]));
            }
        }
    }
}

/// The order is sorted, and stable, for any comparison that is total and
/// chains.
pub proof fn lemma_stable_order_sorted(n: nat, le: spec_fn(int, int) -> bool)
    requires
        total_preorder(le),
    ensures
        stably_sorted(stable_order(n, le), le),
    decreases n,
{
    if n > 0 {
        let m = (n - 1) as nat;
        lemma_stable_order_sorted(m, le);
        lemma_stable_order_positions(m, le);
        let s = stable_order(m, le);
        assert forall|i: int| 0 <= i < s.len() implies #[trigger] s[i] < n - 1 by {
            assert(s.contains(s[i]));
        }
        lemma_inserted_sorted(s, n - 1, le);
    }
}

/// Compares positions by their keys, smallest key first, or largest first when
/// `descending`.
pub open spec fn by_key(keys: Seq<i64>, descending: bool) -> spec_fn(int, int) -> bool {
    |a: int, b: int|
        if descending {
            keys[b] <= keys[a]
        } else {
            keys[a] <= keys[b]
        }
}

/// A sequence of indices as mathematical positions.
pub open spec fn positions(v: Seq<usize>) -> Seq<int> {
    v.map_values(|i: usize| i as int)
}

/// Inserting into `sorted` at `at`, when everything from `at` on may not stand
/// before `x` and the element before `at` may, is the stable insertion.
pub proof fn lemma_insert_at(sorted: Seq<int>, x: int, at: int, le: spec_fn(int, int) -> bool)
    requires
        0 <= at <= sorted.len(),
        at > 0 ==> le(sorted[at - 1], x),
        forall|k: int| at <= k < sorted.len() ==> !le(#[trigger] sorted[k], x),
    ensures
        inserted(sorted, x, le) == sorted.insert(at, x),
    decreases sorted.len(),
{
    if sorted.len() == 0 || le(sorted.last(), x) {
        if sorted.len() > 0 {
            assert(sorted[sorted.len() - 1] == sorted.last());
            assert(at == sorted.len());
        }
        assert(sorted.insert(at, x) =~= sorted.push(x));
    } else {
        let d = sorted.drop_last();
        assert(at < sorted.len());
        assert forall|k: int| at <= k < d.len() implies !le(#[trigger] d[k], x) by {
            assert(d[k] == sorted[k]);
        }
        lemma_insert_at(d, x, at, le);
        assert(d.insert(at, x).push(sorted.last()) =~= sorted.insert(at, x));
    }
}

fn may_precede(a: i64, b: i64, descending: bool) -> (r: bool)
    ensures
        r == if descending {
            b <= a
        } else {
            a <= b
        },
{
    if descending {
        b <= a
    } else {
        a <= b
    }
}

/// The positions of `keys` in key order, equal keys in their own order.
pub fn order_by_key(keys: &Vec<i64>, descending: bool) -> (r: Vec<usize>)
    ensures
        positions(r@) == stable_order(keys@.len(), by_key(keys@, descending)),
        r.len() == keys.len(),
        forall|i: int| 0 <= i < r.len() ==> (#[trigger] r@[i]) < keys.len(),
{
    let ghost le = by_key(keys@, descending);
    let mut out: Vec<usize> = Vec::new();
    let mut n: usize = 0;
    assert(positions(out@) =~= Seq::<int>::empty());
    while n < keys.len()
        invariant
            n <= keys.len(),
            out.len() == n,
            le == by_key(keys@, descending),
            positions(out@) == stable_order(n as nat, le),
            forall|i: int| 0 <= i < out.len() ==> (#[trigger] out@[i]) < n,
        decreases keys.len() - n,
    {
        let mut at: usize = out.len();
        while at > 0 && !may_precede(keys[out[at - 1]], keys[n], descending)
            invariant
                at <= out.len(),
                n < keys.len(),
                out.len() == n,
                le == by_key(keys@, descending),
                forall|i: int| 0 <= i < out.len() ==> (#[trigger] out@[i]) < n,
                forall|k: int|
                    at <= k < positions(out@).len() ==> !le(#[trigger] positions(out@)[k], n as int),
            decreases at,
        {
            at = at - 1;
        }
        proof {
            let p = positions(out@);
            if at > 0 {
                assert(p[at - 1] == out@[at - 1] as int);
            }
            lemma_insert_at(p, n as int, at as int, le);
            assert(positions(out@.insert(at as int, n)) =~= p.insert(at as int, n as int));
        }
        out.insert(at, n);
        n = n + 1;
    }
    out
}

/// Positions are the indices themselves.
pub proof fn law_positions_are_the_indices(v: Seq<usize>, i: int)
    ensures
        positions(v).len() == v.len(),
        0 <= i < v.len() ==> positions(v)[i] == v[i],
{
}

/// The order by a key holds each position once, smallest key first or largest first
/// as is asked for, and equal keys in their own order.
pub proof fn law_the_order_goes_by_the_key(keys: Seq<i64>, descending: bool, i: int, j: int)
    requires
        0 <= i < j < keys.len(),
    ensures
        ({
            let o = stable_order(keys.len(), by_key(keys, descending));
            &&& o.len() == keys.len()
            &&& o.no_duplicates()
            &&& 0 <= o[i] < keys.len()
            &&& 0 <= o[j] < keys.len()
            &&& descending ==> keys[o[i]] >= keys[o[j]]
            &&& !descending ==> keys[o[i]] <= keys[o[j]]
            &&& keys[o[i]] == keys[o[j]] ==> o[i] < o[j]
        }),
{
    let le = by_key(keys, descending);
    let o = stable_order(keys.len(), le);
    lemma_stable_order_positions(keys.len(), le);
    assert(total_preorder(le));
    lemma_stable_order_sorted(keys.len(), le);
    assert(o.contains(o[i]) && o.contains(o[j]));
    assert(le(o[i], o[j]));
    assert(le(o[j], o[i]) ==> o[i] < o[j]);
}

} // verus!
