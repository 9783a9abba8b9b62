//! Stable insertion sort as a specification, with its laws: the result is ordered
//! and holds the same elements.

use vstd::prelude::*;

verus! {

broadcast use vstd::seq_lib::to_multiset_insert, vstd::seq_lib::to_multiset_build;

/// `lt` is a strict weak order: irreflexive, transitive, and its incomparability
/// is transitive (stated as: `lt(a, c)` implies `lt(a, b)` or `lt(b, c)`).
pub open spec fn strict_weak_order<A>(lt: spec_fn(A, A) -> bool) -> bool {
    &&& forall|a: A| !#[trigger] lt(a, a)
    &&& forall|a: A, b: A, c: A| #[trigger] lt(a, b) && #[trigger] lt(b, c) ==> lt(a, c)
    &&& forall|a: A, b: A, c: A|
        #![trigger lt(a, c), lt(a, b)]
        #![trigger lt(a, c), lt(b, c)]
        lt(a, c) ==> lt(a, b) || lt(b, c)
}

/// No element is followed by one that orders strictly before it.
pub open spec fn sorted_by<A>(s: Seq<A>, lt: spec_fn(A, A) -> bool) -> bool {
    forall|i: int, j: int| 0 <= i < j < s.len() ==> !lt(#[trigger] s[j], #[trigger] s[i])
}

/// Where `x` goes when inserted into `s`: after every element it does not order before.
pub open spec fn insert_pos<A>(s: Seq<A>, x: A, lt: spec_fn(A, A) -> bool) -> nat
    decreases s.len(),
{
    if s.len() == 0 {
        0
    } else if lt(x, s.last()) {
        insert_pos(s.drop_last(), x, lt)
    } else {
        s.len()
    }
}

pub open spec fn insert_sorted<A>(s: Seq<A>, x: A, lt: spec_fn(A, A) -> bool) -> Seq<A> {
    s.insert(insert_pos(s, x, lt) as int, x)
}

/// Stable insertion sort: equal elements keep their original order.
pub open spec fn sort_by<A>(s: Seq<A>, lt: spec_fn(A, A) -> bool) -> Seq<A>
    decreases s.len(),
{
    if s.len() == 0 {
        s
    } else {
        insert_sorted(sort_by(s.drop_last(), lt), s.last(), lt)
    }
}

pub proof fn lemma_insert_pos<A>(s: Seq<A>, x: A, lt: spec_fn(A, A) -> bool)
    ensures
        insert_pos(s, x, lt) <= s.len(),
        forall|k: int| insert_pos(s, x, lt) <= k < s.len() ==> lt(x, #[trigger] s[k]),
        insert_pos(s, x, lt) > 0 ==> !lt(x, s[insert_pos(s, x, lt) - 1]),
    decreases s.len(),
{
    if s.len() > 0 && lt(x, s.last()) {
        lemma_insert_pos(s.drop_last(), x, lt);
        assert forall|k: int| insert_pos(s, x, lt) <= k < s.len() implies lt(x, #[trigger] s[k]) by {
            if k < s.len() - 1 {
                assert(s[k] == s.drop_last()[k]);
            }
        }
    }
}

pub proof fn lemma_insert_sorted<A>(s: Seq<A>, x: A, lt: spec_fn(A, A) -> bool)
    requires
        strict_weak_order(lt),
        sorted_by(s, lt),
    ensures
        sorted_by(insert_sorted(s, x, lt), lt),
        insert_sorted(s, x, lt).to_multiset() == s.to_multiset().insert(x),
        insert_sorted(s, x, lt).len() == s.len() + 1,
{
    lemma_insert_pos(s, x, lt);
    let p = insert_pos(s, x, lt) as int;
    let t = insert_sorted(s, x, lt);
    assert forall|i: int, j: int| 0 <= i < j < t.len() implies !lt(#[trigger] t[j], #[trigger] t[i]) by {
        if j < p {
            assert(t[i] == s[i] && t[j] == s[j]);
        } else if j == p {
            // t[j] == x, t[i] == s[i] with i < p.
            assert(t[i] == s[i]);
            assert(!lt(x, s[p - 1]));
            if lt(x, s[i]) {
                if i < p - 1 {
                    assert(!lt(s[p - 1], s[i]));
                }
            }
        } else if i == p {
            // t[i] == x, t[j] == s[j - 1] with j - 1 >= p.
            assert(t[j] == s[j - 1]);
            assert(lt(x, s[j - 1]));
        } else if i < p {
            assert(t[i] == s[i] && t[j] == s[j - 1]);
        } else {
            assert(t[i] == s[i - 1] && t[j] == s[j - 1]);
        }
    }
}

pub proof fn lemma_sort_by<A>(s: Seq<A>, lt: spec_fn(A, A) -> bool)
    requires
        strict_weak_order(lt),
    ensures
        sorted_by(sort_by(s, lt), lt),
        sort_by(s, lt).to_multiset() == s.to_multiset(),
        sort_by(s, lt).len() == s.len(),
    decreases s.len(),
{
    if s.len() > 0 {
        lemma_sort_by(s.drop_last(), lt);
        lemma_insert_sorted(sort_by(s.drop_last(), lt), s.last(), lt);
        assert(s.drop_last().push(s.last()) == s);
    }
}

/// In a sorted sequence, the elements that `x` orders before form a suffix.
pub proof fn lemma_before_is_suffix<A>(s: Seq<A>, x: A, lt: spec_fn(A, A) -> bool, i: int, j: int)
    requires
        strict_weak_order(lt),
        sorted_by(s, lt),
        0 <= i < j < s.len(),
        lt(x, s[i]),
    ensures
        lt(x, s[j]),
{
    assert(!lt(s[j], s[i]));
}

/// Where `x` goes in the first `k` elements of a sorted sequence: where it goes in the
/// whole sequence, or the end if that lies beyond them.
pub proof fn lemma_insert_pos_take<A>(s: Seq<A>, x: A, lt: spec_fn(A, A) -> bool, k: int)
    requires
        strict_weak_order(lt),
        sorted_by(s, lt),
        0 <= k <= s.len(),
    ensures
        insert_pos(s.take(k), x, lt) == (if insert_pos(s, x, lt) <= k {
            insert_pos(s, x, lt) as int
        } else {
            k
        }),
{
    let t = s.take(k);
    lemma_insert_pos(s, x, lt);
    lemma_insert_pos(t, x, lt);
    let p = insert_pos(s, x, lt) as int;
    let q = insert_pos(t, x, lt) as int;
    if p <= k {
        if q < p {
            // t[p - 1] == s[p - 1] is ordered after x, yet x was inserted after it in s.
            assert(lt(x, t[p - 1]));
            assert(t[p - 1] == s[p - 1]);
        } else if q > p {
            assert(t[q - 1] == s[q - 1]);
            assert(lt(x, s[q - 1]));
        }
    } else {
        if q < k {
            assert(lt(x, t[q]));
            assert(t[q] == s[q]);
            lemma_before_is_suffix(s, x, lt, q, p - 1);
        }
    }
}

/// Inserting into a sorted sequence and keeping the first `k` gives the same as
/// inserting into its first `k` and keeping the first `k`: the law behind a bounded
/// top-`k` list.
pub proof fn lemma_insert_sorted_take<A>(s: Seq<A>, x: A, lt: spec_fn(A, A) -> bool, k: int)
    requires
        strict_weak_order(lt),
        sorted_by(s, lt),
        0 <= k <= s.len(),
    ensures
        insert_sorted(s, x, lt).take(k) == insert_sorted(s.take(k), x, lt).take(k),
{
    lemma_insert_pos_take(s, x, lt, k);
    lemma_insert_pos(s, x, lt);
    let a = insert_sorted(s, x, lt);
    let b = insert_sorted(s.take(k), x, lt);
    assert(a.take(k) =~= b.take(k));
}

/// Removes every element that equals (under `eq`) the last element kept before it
/// (`Vec::dedup_by`).
pub open spec fn dedup_by<A>(s: Seq<A>, eq: spec_fn(A, A) -> bool) -> Seq<A>
    decreases s.len(),
{
    if s.len() == 0 {
        s
    } else {
        let kept = dedup_by(s.drop_last(), eq);
        if kept.len() > 0 && eq(kept.last(), s.last()) {
            kept
        } else {
            kept.push(s.last())
        }
    }
}

/// `dedup_by` keeps the first element, and everything after it comes from after the
/// first element of the input.
pub proof fn lemma_dedup_by_keeps_first<A>(s: Seq<A>, eq: spec_fn(A, A) -> bool)
    ensures
        s.len() > 0 ==> dedup_by(s, eq).len() > 0 && dedup_by(s, eq)[0] == s[0],
        forall|k: int|
            1 <= k < dedup_by(s, eq).len() ==> exists|j: int| 1 <= j < s.len() && #[trigger] dedup_by(s, eq)[k] == s[j],
    decreases s.len(),
{
    if s.len() > 0 {
        let rest = s.drop_last();
        lemma_dedup_by_keeps_first(rest, eq);
        let kept = dedup_by(rest, eq);
        let d = dedup_by(s, eq);
        assert forall|k: int| 1 <= k < d.len() implies exists|j: int| 1 <= j < s.len() && #[trigger] d[k] == s[j] by {
            if k < kept.len() {
                assert(d[k] == kept[k]);
                let j = choose|j: int| 1 <= j < rest.len() && kept[k] == rest[j];
                assert(s[j] == rest[j]);
            } else {
                assert(d[k] == s.last());
                assert(s[s.len() - 1] == s.last());
            }
        }
        if rest.len() > 0 {
            assert(s[0] == rest[0]);
        }
    }
}

/// Removing neighbouring equals from a sequence whose elements after the first are
/// sorted leaves the first element first and the others strictly ascending, each one
/// of the original elements after the first; here two elements are equal exactly when
/// neither orders before the other.
pub proof fn lemma_dedup_tail_ascending<A>(s: Seq<A>, lt: spec_fn(A, A) -> bool, eq: spec_fn(A, A) -> bool)
    requires
        strict_weak_order(lt),
        forall|a: A, b: A| #[trigger] eq(a, b) <==> (!lt(a, b) && !lt(b, a)),
        sorted_by(s.skip(1), lt),
    ensures
        s.len() > 0 ==> dedup_by(s, eq).len() > 0 && dedup_by(s, eq)[0] == s[0],
        forall|i: int|
            1 <= i < dedup_by(s, eq).len() ==> exists|k: int| 1 <= k < s.len() && #[trigger] dedup_by(s, eq)[i] == s[k],
        forall|i: int, j: int|
            1 <= i < j < dedup_by(s, eq).len() ==> lt(#[trigger] dedup_by(s, eq)[i], #[trigger] dedup_by(s, eq)[j]),
    decreases s.len(),
{
    if s.len() == 1 {
        assert(s.drop_last().len() == 0);
        assert(dedup_by(s.drop_last(), eq).len() == 0);
        assert(dedup_by(s, eq) == dedup_by(s.drop_last(), eq).push(s.last()));
        assert(dedup_by(s, eq) =~= seq![s[0]]);
    } else if s.len() > 1 {
        let t = s.drop_last();
        let n = s.len() as int;
        assert(t.skip(1) =~= s.skip(1).drop_last());
        assert(sorted_by(t.skip(1), lt)) by {
            assert forall|i: int, j: int| 0 <= i < j < t.skip(1).len() implies !lt(
                #[trigger] t.skip(1)[j],
                #[trigger] t.skip(1)[i],
            ) by {
                assert(t.skip(1)[j] == s.skip(1)[j] && t.skip(1)[i] == s.skip(1)[i]);
            }
        }
        lemma_dedup_tail_ascending(t, lt, eq);
        let kept = dedup_by(t, eq);
        let d = dedup_by(s, eq);
        let last = s.last();
        if kept.len() > 0 && eq(kept.last(), last) {
            assert(d == kept);
            assert forall|i: int| 1 <= i < d.len() implies exists|k: int| 1 <= k < s.len() && #[trigger] d[i]
                == s[k] by {
                let k = choose|k: int| 1 <= k < t.len() && #[trigger] kept[i] == t[k];
                assert(s[k] == t[k]);
            }
        } else {
            assert(d == kept.push(last));
            assert forall|i: int| 1 <= i < d.len() implies exists|k: int| 1 <= k < s.len() && #[trigger] d[i]
                == s[k] by {
                if i < kept.len() {
                    let k = choose|k: int| 1 <= k < t.len() && #[trigger] kept[i] == t[k];
                    assert(s[k] == t[k]);
                    assert(d[i] == kept[i]);
                } else {
                    assert(d[i] == s[n - 1]);
                }
            }
            assert forall|i: int, j: int| 1 <= i < j < d.len() implies lt(#[trigger] d[i], #[trigger] d[j]) by {
                assert(d[i] == kept[i]);
                if j < kept.len() {
                    assert(d[j] == kept[j]);
                } else {
                    let m = kept.len() - 1;
                    let k = choose|k: int| 1 <= k < t.len() && #[trigger] kept[m] == t[k];
                    assert(s.skip(1)[k - 1] == s[k] && s.skip(1)[n - 2] == s[n - 1]);
                    assert(!lt(s[n - 1], s[k]));
                    assert(!eq(kept[m], last));
                    assert(lt(kept[m], last));
                    if i < m {
                        assert(lt(kept[i], kept[m]));
                    }
                }
            }
        }
    }
}

} // verus!
