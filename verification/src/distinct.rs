use vstd::prelude::*;

verus! {

/// Index of the first occurrence of `x` in `s`; meaningful only when `s`
/// contains `x` (otherwise it is `s.len()`).
pub open spec fn first_index_of<T>(s: Seq<T>, x: T) -> int
    decreases s.len(),
{
    if s.len() == 0 {
        0
    } else if s[0] == x {
        0
    } else {
        1 + first_index_of(s.drop_first(), x)
    }
}

/// The distinct elements of `s`, each at its first occurrence, in the
/// order in which they first occur.
pub open spec fn first_occurrences<T>(s: Seq<T>) -> Seq<T>
    decreases s.len(),
{
    if s.len() == 0 {
        Seq::empty()
    } else {
        let p = first_occurrences(s.drop_last());
        if p.contains(s.last()) {
            p
        } else {
            p.push(s.last())
        }
    }
}

pub proof fn lemma_first_index_of_props<T>(s: Seq<T>, x: T)
    requires
        s.contains(x),
    ensures
        0 <= first_index_of(s, x) < s.len(),
        s[first_index_of(s, x)] == x,
        forall|k: int| 0 <= k < first_index_of(s, x) ==> s[k] != x,
    decreases s.len(),
{
    if s[0] == x {
    } else {
        assert(s.drop_first().contains(x)) by {
            let i = choose|i: int| 0 <= i < s.len() && s[i] == x;
            assert(s.drop_first()[i - 1] == x);
        }
        lemma_first_index_of_props(s.drop_first(), x);
        let j = first_index_of(s.drop_first(), x);
        assert(s[1 + j] == s.drop_first()[j]);
        assert(forall|k: int| 1 <= k < 1 + j ==> s[k] == s.drop_first()[k - 1]);
    }
}

/// The first index is determined by its characterization: if `x` sits at
/// `j` and nowhere earlier, then `j` is the first index of `x`.
pub proof fn lemma_first_index_of_unique<T>(s: Seq<T>, x: T, j: int)
    requires
        0 <= j < s.len(),
        s[j] == x,
        forall|k: int| 0 <= k < j ==> s[k] != x,
    ensures
        first_index_of(s, x) == j,
    decreases s.len(),
{
    if j == 0 {
    } else {
        assert(forall|k: int| 0 <= k < j - 1 ==> s.drop_first()[k] == s[k + 1]);
        lemma_first_index_of_unique(s.drop_first(), x, j - 1);
    }
}

/// Looking an element up in a prefix gives the same first index as in the
/// whole sequence, as long as the prefix already contains it.
pub proof fn lemma_first_index_of_prefix<T>(p: Seq<T>, s: Seq<T>, x: T)
    requires
        p.is_prefix_of(s),
        p.contains(x),
    ensures
        first_index_of(s, x) == first_index_of(p, x),
{
    lemma_first_index_of_props(p, x);
    let j = first_index_of(p, x);
    assert(s[j] == p[j]);
    assert(forall|k: int| 0 <= k < j ==> s[k] == p[k] && s[k] != x);
    lemma_first_index_of_unique(s, x, j);
}

pub proof fn lemma_first_occurrences_len<T>(s: Seq<T>)
    ensures
        first_occurrences(s).len() <= s.len(),
    decreases s.len(),
{
    if s.len() > 0 {
        lemma_first_occurrences_len(s.drop_last());
    }
}

pub proof fn lemma_first_occurrences_contains<T>(s: Seq<T>, x: T)
    ensures
        first_occurrences(s).contains(x) <==> s.contains(x),
    decreases s.len(),
{
    if s.len() == 0 {
    } else {
        lemma_first_occurrences_contains(s.drop_last(), x);
        let p = first_occurrences(s.drop_last());
        if s.contains(x) {
            let i = choose|i: int| 0 <= i < s.len() && s[i] == x;
            if i < s.len() - 1 {
                assert(s.drop_last()[i] == x);
            }
            if p.contains(s.last()) {
                assert(first_occurrences(s) == p);
            } else {
                assert(first_occurrences(s) == p.push(s.last()));
                if x == s.last() {
                    assert(first_occurrences(s)[p.len() as int] == x);
                } else {
                    assert(s.drop_last().contains(x));
                    let k = choose|k: int| 0 <= k < p.len() && p[k] == x;
                    assert(p.push(s.last())[k] == x);
                }
            }
        } else {
            assert(!s.drop_last().contains(x)) by {
                if s.drop_last().contains(x) {
                    let i = choose|i: int| 0 <= i < s.len() - 1 && s.drop_last()[i] == x;
                    assert(s[i] == x);
                }
            }
            if !p.contains(s.last()) && first_occurrences(s).contains(x) {
                let k = choose|k: int|
                    0 <= k < first_occurrences(s).len() && first_occurrences(s)[k] == x;
                assert(s.last() != x) by {
                    assert(s[s.len() - 1] == s.last());
                }
                assert(p[k] == x);
            }
        }
    }
}

pub proof fn lemma_first_occurrences_no_duplicates<T>(s: Seq<T>)
    ensures
        first_occurrences(s).no_duplicates(),
    decreases s.len(),
{
    if s.len() > 0 {
        lemma_first_occurrences_no_duplicates(s.drop_last());
        let p = first_occurrences(s.drop_last());
        if !p.contains(s.last()) {
            assert(forall|k: int| 0 <= k < p.len() ==> p.push(s.last())[k] == p[k]);
        }
    }
}

/// The distinct elements of a prefix are a prefix of the distinct
/// elements of the whole sequence.
pub proof fn lemma_first_occurrences_prefix<T>(s: Seq<T>, i: int)
    requires
        0 <= i <= s.len(),
    ensures
        first_occurrences(s.take(i)).is_prefix_of(first_occurrences(s)),
    decreases s.len(),
{
    if i == s.len() {
        assert(s.take(i) =~= s);
        assert(first_occurrences(s).is_prefix_of(first_occurrences(s)));
    } else {
        assert(s.take(i) =~= s.drop_last().take(i));
        lemma_first_occurrences_prefix(s.drop_last(), i);
        let p = first_occurrences(s.drop_last());
        let q = first_occurrences(s.take(i));
        if p.contains(s.last()) {
            assert(first_occurrences(s) == p);
        } else {
            assert(first_occurrences(s) == p.push(s.last()));
            assert(q.is_prefix_of(p.push(s.last()))) by {
                assert(forall|k: int| 0 <= k < q.len() ==> p.push(s.last())[k] == p[k]);
                assert(q =~= p.push(s.last()).subrange(0, q.len() as int));
            }
        }
    }
}

} // verus!
