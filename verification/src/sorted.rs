//! Rising sequences of indices: where a value stands in one, and how one
//! takes a value in.

use vstd::prelude::*;

verus! {

/// The number of entries of `s` that lie below `x`.
pub open spec fn rank(s: Seq<usize>, x: usize) -> int
    decreases s.len(),
{
    if s.len() == 0 {
        0
    } else {
        rank(s.drop_last(), x) + if s.last() < x {
            1int
        } else {
            0int
        }
    }
}

/// Whether `s` rises strictly.
pub open spec fn rising(s: Seq<usize>) -> bool {
    forall|i: int, j: int| 0 <= i < j < s.len() ==> s[i] < s[j]
}

/// In a rising sequence the place that parts the entries below `x` from the
/// others is the rank of `x`.
pub proof fn lemma_rank_is_split(s: Seq<usize>, x: usize, p: int)
    requires
        0 <= p <= s.len(),
        forall|i: int| 0 <= i < p ==> s[i] < x,
        forall|i: int| p <= i < s.len() ==> s[i] >= x,
    ensures
        rank(s, x) == p,
    decreases s.len(),
{
    if s.len() > 0 {
        let front = s.drop_last();
        if p == s.len() {
            lemma_rank_is_split(front, x, p - 1);
        } else {
            lemma_rank_is_split(front, x, p);
        }
    }
}

/// The rank lies within the sequence; in a rising sequence what stands
/// before it is below `x` and what stands from it on is not.
pub proof fn lemma_rank_splits(s: Seq<usize>, x: usize)
    requires
        rising(s),
    ensures
        0 <= rank(s, x) <= s.len(),
        forall|i: int| 0 <= i < rank(s, x) ==> s[i] < x,
        forall|i: int| rank(s, x) <= i < s.len() ==> s[i] >= x,
    decreases s.len(),
{
    if s.len() > 0 {
        let front = s.drop_last();
        assert(rising(front)) by {
            assert forall|i: int, j: int| 0 <= i < j < front.len() implies front[i] < front[j] by {
                assert(s[i] < s[j]);
            }
        }
        lemma_rank_splits(front, x);
        if s.last() < x {
            assert forall|i: int| 0 <= i < front.len() implies front[i] < x by {
                assert(s[i] < s[s.len() - 1]);
            }
            lemma_rank_is_split(front, x, front.len() as int);
            assert forall|i: int| 0 <= i < rank(s, x) implies s[i] < x by {
                if i < front.len() {
                    assert(s[i] == front[i]);
                }
            }
        } else {
            assert forall|i: int| 0 <= i < rank(s, x) implies s[i] < x by {
                assert(s[i] == front[i]);
            }
            assert forall|i: int| rank(s, x) <= i < s.len() implies s[i] >= x by {
                if i < front.len() {
                    assert(s[i] == front[i]);
                }
            }
        }
    }
}

/// A rising sequence with `x` taken in at its place, or as it is where it
/// holds `x` already.
pub open spec fn with_value(s: Seq<usize>, x: usize) -> Seq<usize> {
    if s.contains(x) {
        s
    } else {
        s.insert(rank(s, x), x)
    }
}

/// Taking a value into a rising sequence leaves it rising, and holding
/// what it held and the value.
pub proof fn lemma_with_value(s: Seq<usize>, x: usize)
    requires
        rising(s),
    ensures
        rising(with_value(s, x)),
        forall|k: usize| with_value(s, x).contains(k) <==> s.contains(k) || k == x,
{
    lemma_rank_splits(s, x);
    let p = rank(s, x);
    let t = with_value(s, x);
    if !s.contains(x) {
        assert forall|i: int, j: int| 0 <= i < j < t.len() implies t[i] < t[j] by {
            let a = if i < p { i } else { i - 1 };
            let b = if j < p { j } else { j - 1 };
            if i != p && j != p {
                assert(s[a] < s[b]);
            } else if i == p {
                assert(s[b] >= x);
                assert(s[b] != x);
            }
        }
        assert forall|k: usize| t.contains(k) <==> s.contains(k) || k == x by {
            if t.contains(k) {
                let w = choose|w: int| 0 <= w < t.len() && t[w] == k;
                if w < p {
                    assert(s[w] == k);
                } else if w > p {
                    assert(s[w - 1] == k);
                }
            }
            if s.contains(k) {
                let w = choose|w: int| 0 <= w < s.len() && s[w] == k;
                if w < p {
                    assert(t[w] == k);
                } else {
                    assert(t[w + 1] == k);
                }
            }
            if k == x {
                assert(t[p] == k);
            }
        }
    }
}

/// The number of entries of the rising vector `v` that lie below `x`: the
/// place where `x` stands in it, or would stand.
pub fn lower_bound(v: &Vec<usize>, x: usize) -> (p: usize)
    requires
        rising(v@),
    ensures
        p == rank(v@, x),
        p <= v@.len(),
{
    let mut low: usize = 0;
    let mut high: usize = v.len();
    while low < high
        invariant
            low <= high <= v@.len(),
            rising(v@),
            forall|i: int| 0 <= i < low ==> v@[i] < x,
            forall|i: int| high <= i < v@.len() ==> v@[i] >= x,
        decreases high - low,
    {
        let middle = low + (high - low) / 2;
        if v[middle] < x {
            assert forall|i: int| 0 <= i < middle + 1 implies v@[i] < x by {
                if i < middle {
                    assert(v@[i] < v@[middle as int]);
                }
            }
            low = middle + 1;
        } else {
            assert forall|i: int| middle <= i < v@.len() implies v@[i] >= x by {
                if i > middle {
                    assert(v@[middle as int] < v@[i]);
                }
            }
            high = middle;
        }
    }
    proof {
        lemma_rank_is_split(v@, x, low as int);
    }
    low
}

/// Take `x` into the rising vector `v` at its place; one that holds `x`
/// already stays as it is.
pub fn insert_sorted(v: &mut Vec<usize>, x: usize)
    requires
        rising(old(v)@),
    ensures
        rising(final(v)@),
        final(v)@ == with_value(old(v)@, x),
{
    let p = lower_bound(v, x);
    proof {
        lemma_rank_splits(v@, x);
        lemma_with_value(v@, x);
    }
    if p < v.len() && v[p] == x {
        assert(v@[p as int] == x);
    } else {
        assert(!v@.contains(x)) by {
            if v@.contains(x) {
                let w = choose|w: int| 0 <= w < v@.len() && v@[w] == x;
                if w > p {
                    assert(v@[p as int] < v@[w]);
                }
            }
        }
        v.insert(p, x);
    }
}

} // verus!
