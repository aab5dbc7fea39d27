//! Facts about sequences kept ordered by an integer rank, with unique keys,
//! and how filtering and ordered insertion interact.
use vstd::prelude::*;

verus! {

/// The elements of `v` in reverse order, so that popping the result hands
/// them out first to last.
pub fn reversed<T>(v: Vec<T>) -> (r: Vec<T>)
    ensures
        r@.len() == v@.len(),
        forall|i: int| 0 <= i < v@.len() ==> r@[i] == v@[v@.len() - 1 - i],
{
    let ghost s = v@;
    let mut src = v;
    let mut out: Vec<T> = Vec::new();
    while src.len() > 0
        invariant
            src@ == s.subrange(0, src@.len() as int),
            out@.len() + src@.len() == s.len(),
            forall|i: int| 0 <= i < out@.len() ==> out@[i] == s[s.len() - 1 - i],
        decreases src.len(),
    {
        let x = src.pop().unwrap();
        out.push(x);
    }
    out
}

/// Every element ranks no higher than the ones after it.
pub open spec fn sorted_by<A>(s: Seq<A>, rank: spec_fn(A) -> int) -> bool {
    forall|i: int, j: int| 0 <= i < j < s.len() ==> rank(s[i]) <= rank(s[j])
}

/// No two positions hold elements with the same key.
pub open spec fn unique_by<A, K>(s: Seq<A>, key: spec_fn(A) -> K) -> bool {
    forall|i: int, j: int| 0 <= i < s.len() && 0 <= j < s.len() && i != j ==> key(s[i]) != key(s[j])
}

/// `s` with `x` placed after every element whose rank is at most `x`'s.
pub open spec fn insert_ordered<A>(s: Seq<A>, x: A, rank: spec_fn(A) -> int) -> Seq<A>
    decreases s.len(),
{
    if s.len() == 0 {
        seq![x]
    } else if rank(s.last()) <= rank(x) {
        s.push(x)
    } else {
        insert_ordered(s.drop_last(), x, rank).push(s.last())
    }
}

/// Filtering one more element of `s` extends the filtered prefix by it
/// exactly when it passes.
pub proof fn lemma_take_push<A>(s: Seq<A>, k: int, pred: spec_fn(A) -> bool)
    requires
        0 <= k < s.len(),
    ensures
        s.take(k + 1).filter(pred) == if pred(s[k]) {
            s.take(k).filter(pred).push(s[k])
        } else {
            s.take(k).filter(pred)
        },
{
    reveal(Seq::filter);
    assert(s.take(k + 1).drop_last() =~= s.take(k));
}

/// Every element of a filtered sequence is an element of the unfiltered one
/// and passes the filter.
pub proof fn lemma_filter_elements<A>(s: Seq<A>, pred: spec_fn(A) -> bool)
    ensures
        forall|i: int| 0 <= i < s.filter(pred).len() ==> s.contains(#[trigger] s.filter(pred)[i]),
        forall|i: int| 0 <= i < s.filter(pred).len() ==> pred(#[trigger] s.filter(pred)[i]),
    decreases s.len(),
{
    reveal(Seq::filter);
    if s.len() > 0 {
        let d = s.drop_last();
        lemma_filter_elements(d, pred);
        assert forall|i: int| 0 <= i < s.filter(pred).len() implies s.contains(
            #[trigger] s.filter(pred)[i],
        ) && pred(s.filter(pred)[i]) by {
            if i < d.filter(pred).len() {
                let e = d.filter(pred)[i];
                assert(s.filter(pred)[i] == e);
                let k = choose|k: int| 0 <= k < d.len() && d[k] == e;
                assert(s[k] == e);
            } else {
                assert(s.filter(pred)[i] == s.last());
                assert(s[s.len() - 1] == s.last());
            }
        }
    }
}

/// Filtering keeps the order.
pub proof fn lemma_filter_sorted<A>(s: Seq<A>, pred: spec_fn(A) -> bool, rank: spec_fn(A) -> int)
    requires
        sorted_by(s, rank),
    ensures
        sorted_by(s.filter(pred), rank),
    decreases s.len(),
{
    reveal(Seq::filter);
    if s.len() > 0 {
        let d = s.drop_last();
        assert(sorted_by(d, rank));
        lemma_filter_sorted(d, pred, rank);
        lemma_filter_elements(d, pred);
        let f = s.filter(pred);
        let fd = d.filter(pred);
        assert forall|i: int, j: int| 0 <= i < j < f.len() implies rank(f[i]) <= rank(f[j]) by {
            if j < fd.len() {
                assert(f[i] == fd[i] && f[j] == fd[j]);
            } else {
                assert(d.contains(fd[i]));
                let k = choose|k: int| 0 <= k < d.len() && d[k] == fd[i];
                assert(s[k] == fd[i]);
                assert(f[i] == fd[i]);
                assert(f[j] == s[s.len() - 1]);
            }
        }
    }
}

/// Filtering keeps keys unique.
pub proof fn lemma_filter_unique<A, K>(s: Seq<A>, pred: spec_fn(A) -> bool, key: spec_fn(A) -> K)
    requires
        unique_by(s, key),
    ensures
        unique_by(s.filter(pred), key),
    decreases s.len(),
{
    reveal(Seq::filter);
    if s.len() > 0 {
        let d = s.drop_last();
        assert(unique_by(d, key));
        lemma_filter_unique(d, pred, key);
        lemma_filter_elements(d, pred);
        let f = s.filter(pred);
        let fd = d.filter(pred);
        assert forall|i: int, j: int|
            0 <= i < f.len() && 0 <= j < f.len() && i != j implies key(f[i]) != key(f[j]) by {
            if i < fd.len() && j < fd.len() {
                assert(f[i] == fd[i] && f[j] == fd[j]);
            } else if i < fd.len() {
                assert(d.contains(fd[i]));
                let k = choose|k: int| 0 <= k < d.len() && d[k] == fd[i];
                assert(s[k] == f[i]);
                assert(f[j] == s[s.len() - 1]);
            } else {
                assert(d.contains(fd[j]));
                let k = choose|k: int| 0 <= k < d.len() && d[k] == fd[j];
                assert(s[k] == f[j]);
                assert(f[i] == s[s.len() - 1]);
            }
        }
    }
}

/// Ordered insertion is insertion at the first position whose element ranks
/// above the new one.
pub proof fn lemma_insert_ordered_at<A>(s: Seq<A>, x: A, rank: spec_fn(A) -> int, i: int)
    requires
        0 <= i <= s.len(),
        forall|j: int| 0 <= j < i ==> rank(#[trigger] s[j]) <= rank(x),
        forall|j: int| i <= j < s.len() ==> rank(#[trigger] s[j]) > rank(x),
    ensures
        insert_ordered(s, x, rank) == s.insert(i, x),
    decreases s.len(),
{
    if s.len() == 0 {
        assert(s.insert(i, x) =~= seq![x]);
    } else if i == s.len() {
        assert(rank(s[s.len() - 1]) <= rank(x));
        assert(s.insert(i, x) =~= s.push(x));
    } else {
        let d = s.drop_last();
        assert(rank(s[s.len() - 1]) > rank(x));
        lemma_insert_ordered_at(d, x, rank, i);
        assert(d.insert(i, x).push(s.last()) =~= s.insert(i, x));
    }
}

/// Ordered insertion into a sequence all of whose elements rank at most `x` appends.
pub proof fn lemma_insert_ordered_last<A>(s: Seq<A>, x: A, rank: spec_fn(A) -> int)
    requires
        forall|j: int| 0 <= j < s.len() ==> rank(#[trigger] s[j]) <= rank(x),
    ensures
        insert_ordered(s, x, rank) == s.push(x),
{
    lemma_insert_ordered_at(s, x, rank, s.len() as int);
    assert(s.insert(s.len() as int, x) =~= s.push(x));
}

/// Filtering commutes with ordered insertion into an ordered sequence.
pub proof fn lemma_filter_insert_ordered<A>(
    s: Seq<A>,
    x: A,
    pred: spec_fn(A) -> bool,
    rank: spec_fn(A) -> int,
)
    requires
        sorted_by(s, rank),
    ensures
        pred(x) ==> insert_ordered(s, x, rank).filter(pred) == insert_ordered(s.filter(pred), x, rank),
        !pred(x) ==> insert_ordered(s, x, rank).filter(pred) == s.filter(pred),
    decreases s.len(),
{
    reveal(Seq::filter);
    if s.len() == 0 {
        assert(seq![x].drop_last() =~= Seq::<A>::empty());
        reveal_with_fuel(Seq::filter, 2);
    } else if rank(s.last()) <= rank(x) {
        assert(s.push(x).drop_last() =~= s);
        if pred(x) {
            lemma_filter_elements(s, pred);
            let f = s.filter(pred);
            assert forall|j: int| 0 <= j < f.len() implies rank(#[trigger] f[j]) <= rank(x) by {
                assert(s.contains(f[j]));
                let k = choose|k: int| 0 <= k < s.len() && s[k] == f[j];
                assert(rank(s[k]) <= rank(s[s.len() - 1]));
            }
            lemma_insert_ordered_last(f, x, rank);
        }
    } else {
        let d = s.drop_last();
        let l = s.last();
        assert(sorted_by(d, rank));
        lemma_filter_insert_ordered(d, x, pred, rank);
        let t = insert_ordered(d, x, rank);
        assert(t.push(l).drop_last() =~= t);
        if pred(x) && pred(l) {
            let fd = d.filter(pred);
            assert(fd.push(l).drop_last() =~= fd);
            assert(fd.push(l).last() == l);
        }
    }
}

/// Ordered insertion keeps the order, adds one element, and brings in
/// nothing but `x`.
pub proof fn lemma_insert_ordered_sorted<A>(s: Seq<A>, x: A, rank: spec_fn(A) -> int)
    requires
        sorted_by(s, rank),
    ensures
        sorted_by(insert_ordered(s, x, rank), rank),
        insert_ordered(s, x, rank).len() == s.len() + 1,
        forall|k: int|
            0 <= k < insert_ordered(s, x, rank).len() ==> #[trigger] insert_ordered(s, x, rank)[k] == x
                || s.contains(insert_ordered(s, x, rank)[k]),
    decreases s.len(),
{
    let t = insert_ordered(s, x, rank);
    if s.len() == 0 {
    } else if rank(s.last()) <= rank(x) {
        assert forall|k: int| 0 <= k < t.len() implies #[trigger] t[k] == x || s.contains(t[k]) by {
            if k < s.len() {
                assert(t[k] == s[k]);
            }
        }
        assert forall|i: int, j: int| 0 <= i < j < t.len() implies rank(t[i]) <= rank(t[j]) by {
            if j == s.len() {
                assert(rank(s[i]) <= rank(s[s.len() - 1]));
            }
        }
    } else {
        let d = s.drop_last();
        let l = s.last();
        assert(sorted_by(d, rank));
        lemma_insert_ordered_sorted(d, x, rank);
        let u = insert_ordered(d, x, rank);
        assert(t == u.push(l));
        assert forall|k: int| 0 <= k < t.len() implies #[trigger] t[k] == x || s.contains(t[k]) by {
            if k < u.len() {
                assert(t[k] == u[k]);
                if u[k] != x {
                    assert(d.contains(u[k]));
                    let m = choose|m: int| 0 <= m < d.len() && d[m] == u[k];
                    assert(s[m] == u[k]);
                }
            } else {
                assert(s[s.len() - 1] == l);
            }
        }
        assert forall|i: int, j: int| 0 <= i < j < t.len() implies rank(t[i]) <= rank(t[j]) by {
            if j < u.len() {
                assert(t[i] == u[i] && t[j] == u[j]);
            } else {
                assert(t[i] == u[i]);
                assert(t[j] == l);
                if u[i] != x {
                    assert(d.contains(u[i]));
                    let m = choose|m: int| 0 <= m < d.len() && d[m] == u[i];
                    assert(s[m] == u[i]);
                    assert(rank(s[m]) <= rank(s[s.len() - 1]));
                }
            }
        }
    }
}

/// A filter that every element passes changes nothing.
pub proof fn lemma_filter_all<A>(s: Seq<A>, pred: spec_fn(A) -> bool)
    requires
        forall|i: int| 0 <= i < s.len() ==> pred(#[trigger] s[i]),
    ensures
        s.filter(pred) == s,
    decreases s.len(),
{
    reveal(Seq::filter);
    if s.len() > 0 {
        let d = s.drop_last();
        assert forall|i: int| 0 <= i < d.len() implies pred(#[trigger] d[i]) by {
            assert(d[i] == s[i]);
        }
        lemma_filter_all(d, pred);
        assert(s[s.len() - 1] == s.last());
        assert(d.push(s.last()) =~= s);
    }
}

/// A filter that no element passes leaves nothing.
pub proof fn lemma_filter_none<A>(s: Seq<A>, pred: spec_fn(A) -> bool)
    requires
        forall|i: int| 0 <= i < s.len() ==> !pred(#[trigger] s[i]),
    ensures
        s.filter(pred) == Seq::<A>::empty(),
    decreases s.len(),
{
    reveal(Seq::filter);
    if s.len() > 0 {
        let d = s.drop_last();
        assert forall|i: int| 0 <= i < d.len() implies !pred(#[trigger] d[i]) by {
            assert(d[i] == s[i]);
        }
        lemma_filter_none(d, pred);
        assert(s[s.len() - 1] == s.last());
    }
}

/// Inserting `x` at the one position that keeps the order, with a key no
/// element of `s` has, keeps the sequence ordered and its keys unique.
pub proof fn lemma_insert_keeps_order<A, K>(s: Seq<A>, x: A, i: int, rank: spec_fn(A) -> int, key: spec_fn(A) -> K)
    requires
        sorted_by(s, rank),
        unique_by(s, key),
        0 <= i <= s.len(),
        forall|j: int| 0 <= j < i ==> rank(#[trigger] s[j]) <= rank(x),
        forall|j: int| i <= j < s.len() ==> rank(#[trigger] s[j]) > rank(x),
        forall|j: int| 0 <= j < s.len() ==> key(#[trigger] s[j]) != key(x),
    ensures
        sorted_by(s.insert(i, x), rank),
        unique_by(s.insert(i, x), key),
{
    let t = s.insert(i, x);
    assert forall|a: int, b: int| 0 <= a < b < t.len() implies rank(t[a]) <= rank(t[b]) by {
        if b < i {
        } else if a > i {
            assert(t[a] == s[a - 1] && t[b] == s[b - 1]);
        } else if a == i {
            assert(t[b] == s[b - 1]);
        } else if b == i {
        } else {
            assert(t[b] == s[b - 1]);
        }
    }
    assert forall|a: int, b: int|
        0 <= a < t.len() && 0 <= b < t.len() && a != b implies key(t[a]) != key(t[b]) by {
        if a != i && b != i {
            let a0 = if a < i { a } else { a - 1 };
            let b0 = if b < i { b } else { b - 1 };
            assert(t[a] == s[a0] && t[b] == s[b0]);
        } else if a == i {
            let b0 = if b < i { b } else { b - 1 };
            assert(t[b] == s[b0]);
        } else {
            let a0 = if a < i { a } else { a - 1 };
            assert(t[a] == s[a0]);
        }
    }
}

} // verus!
