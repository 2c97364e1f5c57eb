//! First-match lookup over association vectors.
//!
//! Every component keeps its records in plain vectors, keyed by an owner
//! identity, a token type or a challenge id. `find_first` is the shared
//! mathematical description of the lookup loops: the index of the first
//! element satisfying a predicate, or `-1` when none does.

use vstd::prelude::*;

verus! {

/// Index of the first element of `s` satisfying `p`, or `-1` if none does.
pub open spec fn find_first<A>(s: Seq<A>, p: spec_fn(A) -> bool) -> int
    decreases s.len(),
{
    if s.len() == 0 {
        -1
    } else if p(s[0]) {
        0
    } else {
        let r = find_first(s.drop_first(), p);
        if r < 0 {
            -1
        } else {
            r + 1
        }
    }
}

/// `find_first` returns `-1` exactly when no element matches; otherwise it
/// returns the position of a match that nothing earlier satisfies.
pub proof fn lemma_find_first_properties<A>(s: Seq<A>, p: spec_fn(A) -> bool)
    ensures
        find_first(s, p) == -1 <==> (forall|j: int| 0 <= j < s.len() ==> !p(s[j])),
        find_first(s, p) != -1 ==> {
            let r = find_first(s, p);
            &&& 0 <= r < s.len()
            &&& p(s[r])
            &&& forall|j: int| 0 <= j < r ==> !p(s[j])
        },
    decreases s.len(),
{
    if s.len() == 0 {
    } else if p(s[0]) {
        assert(find_first(s, p) == 0);
        assert(p(s[0]));
    } else {
        let t = s.drop_first();
        lemma_find_first_properties(t, p);
        assert(forall|j: int| 1 <= j < s.len() ==> s[j] == t[j - 1]);
        let r = find_first(t, p);
        if r == -1 {
            assert(find_first(s, p) == -1);
            assert forall|j: int| 0 <= j < s.len() implies !p(s[j]) by {
                if j >= 1 {
                    assert(!p(t[j - 1]));
                }
            }
        } else {
            assert(find_first(s, p) == r + 1);
            assert(p(t[r]));
            assert(s[r + 1] == t[r]);
            assert forall|j: int| 0 <= j < r + 1 implies !p(s[j]) by {
                if j >= 1 {
                    assert(!p(t[j - 1]));
                }
            }
        }
    }
}

/// Replacing the element at a match-equivalent position leaves every
/// first-match index unchanged.
pub proof fn lemma_find_first_update<A>(s: Seq<A>, i: int, a: A, p: spec_fn(A) -> bool)
    requires
        0 <= i < s.len(),
        p(a) == p(s[i]),
    ensures
        find_first(s.update(i, a), p) == find_first(s, p),
    decreases s.len(),
{
    let u = s.update(i, a);
    assert(u.len() == s.len());
    if i == 0 {
        assert(u[0] == a);
        if p(s[0]) {
            assert(find_first(u, p) == 0);
        } else {
            assert(u.drop_first() =~= s.drop_first());
        }
    } else {
        assert(u[0] == s[0]);
        if !p(s[0]) {
            assert(u.drop_first() =~= s.drop_first().update(i - 1, a));
            assert(s.drop_first()[i - 1] == s[i]);
            lemma_find_first_update(s.drop_first(), i - 1, a, p);
        }
    }
}

/// Appending an element changes the first-match index only for predicates
/// that nothing in `s` satisfied.
pub proof fn lemma_find_first_push<A>(s: Seq<A>, a: A, p: spec_fn(A) -> bool)
    ensures
        find_first(s.push(a), p) == if find_first(s, p) != -1 {
            find_first(s, p)
        } else if p(a) {
            s.len() as int
        } else {
            -1
        },
    decreases s.len(),
{
    let u = s.push(a);
    assert(u.len() == s.len() + 1);
    if s.len() == 0 {
        assert(u[0] == a);
        if p(a) {
            assert(find_first(u, p) == 0);
        } else {
            assert(u.drop_first() =~= Seq::<A>::empty());
            assert(find_first(u.drop_first(), p) == -1);
            assert(find_first(u, p) == -1);
        }
    } else {
        assert(u[0] == s[0]);
        if !p(s[0]) {
            assert(u.drop_first() =~= s.drop_first().push(a));
            lemma_find_first_push(s.drop_first(), a, p);
        }
    }
}

/// Sum of a per-element weight over a sequence.
pub open spec fn sum_by<A>(s: Seq<A>, w: spec_fn(A) -> int) -> int
    decreases s.len(),
{
    if s.len() == 0 {
        0
    } else {
        sum_by(s.drop_last(), w) + w(s.last())
    }
}

/// A sum of nonnegative weights is nonnegative.
pub proof fn lemma_sum_by_nonneg<A>(s: Seq<A>, w: spec_fn(A) -> int)
    requires
        forall|x: A| #[trigger] w(x) >= 0,
    ensures
        sum_by(s, w) >= 0,
    decreases s.len(),
{
    if s.len() != 0 {
        lemma_sum_by_nonneg(s.drop_last(), w);
    }
}

/// A nonnegative value clamped into `u64`.
pub open spec fn clamp_u64(x: int) -> u64 {
    if x > u64::MAX {
        u64::MAX
    } else {
        x as u64
    }
}

/// Whether `s` is sorted (non-strictly) ascending under `key`.
pub open spec fn sorted_by_key<A>(s: Seq<A>, key: spec_fn(A) -> int) -> bool {
    forall|i: int, j: int| 0 <= i <= j < s.len() ==> key(s[i]) <= key(s[j])
}

/// Every element of a filtered sequence occurs in the original.
pub proof fn lemma_filter_members<A>(s: Seq<A>, p: spec_fn(A) -> bool)
    ensures
        forall|i: int| 0 <= i < s.filter(p).len() ==> s.contains(#[trigger] s.filter(p)[i]),
    decreases s.len(),
{
    reveal(Seq::filter);
    if s.len() != 0 {
        let t = s.drop_last();
        lemma_filter_members(t, p);
        assert(forall|n: int| 0 <= n < t.len() ==> t[n] == s[n]);
        let f = s.filter(p);
        assert forall|i: int| 0 <= i < f.len() implies s.contains(#[trigger] f[i]) by {
            if p(s.last()) && i == f.len() - 1 {
                assert(f[i] == s[s.len() - 1]);
            } else {
                assert(f[i] == t.filter(p)[i]);
                assert(t.contains(f[i]));
                let n = choose|n: int| 0 <= n < t.len() && t[n] == f[i];
                assert(s[n] == f[i]);
            }
        }
    }
}

/// Filtering keeps the relative order, so it keeps sortedness.
pub proof fn lemma_filter_sorted<A>(s: Seq<A>, p: spec_fn(A) -> bool, key: spec_fn(A) -> int)
    requires
        sorted_by_key(s, key),
    ensures
        sorted_by_key(s.filter(p), key),
    decreases s.len(),
{
    reveal(Seq::filter);
    if s.len() != 0 {
        let t = s.drop_last();
        assert(forall|i: int| 0 <= i < t.len() ==> t[i] == s[i]);
        assert(sorted_by_key(t, key));
        lemma_filter_sorted(t, p, key);
        if p(s.last()) {
            let f = s.filter(p);
            assert(f == t.filter(p).push(s.last()));
            lemma_filter_members(t, p);
            assert forall|i: int, j: int| 0 <= i <= j < f.len() implies key(f[i]) <= key(f[j]) by {
                if j < f.len() - 1 {
                    assert(f[i] == t.filter(p)[i]);
                    assert(f[j] == t.filter(p)[j]);
                } else if i < j {
                    assert(f[i] == t.filter(p)[i]);
                    assert(t.contains(f[i]));
                    let n = choose|n: int| 0 <= n < t.len() && t[n] == f[i];
                    assert(key(s[n]) <= key(s.last()));
                }
            }
        }
    }
}

/// The page of `s` read newest-first: reverse `s`, skip `offset`, take at
/// most `limit`.
pub open spec fn page_newest_first<A>(s: Seq<A>, offset: int, limit: int) -> Seq<A> {
    let r = s.reverse();
    if offset >= r.len() {
        Seq::empty()
    } else if offset + limit <= r.len() {
        r.subrange(offset, offset + limit)
    } else {
        r.subrange(offset, r.len() as int)
    }
}

} // verus!
