use vstd::prelude::*;

verus! {

use crate::distinct::first_index_of;
use crate::distinct::first_occurrences;
use crate::distinct::lemma_first_index_of_prefix;
use crate::distinct::lemma_first_index_of_props;
use crate::distinct::lemma_first_index_of_unique;
use crate::distinct::lemma_first_occurrences_contains;
use crate::distinct::lemma_first_occurrences_len;
use crate::distinct::lemma_first_occurrences_no_duplicates;
use crate::distinct::lemma_first_occurrences_prefix;
use crate::vertex::Vertex;

/// The vertex buffer after the fetch pass: the distinct indices in
/// first-use order, each resolved to its vertex record.
pub open spec fn fetch_ordered_vertices(verts: Seq<Vertex>, idx: Seq<u32>) -> Seq<Vertex> {
    first_occurrences(idx).map_values(|g: u32| verts[g as int])
}

/// Position of the first occurrence of `x` in `vs`, if any.
pub(crate) fn find_index(vs: &Vec<u32>, x: u32) -> (r: Option<usize>)
    ensures
        match r {
            Some(j) => {
                &&& j < vs@.len()
                &&& vs@[j as int] == x
                &&& j == first_index_of(vs@, x)
            },
            None => !vs@.contains(x),
        },
{
    let mut i: usize = 0;
    while i < vs.len()
        invariant
            i <= vs@.len(),
            forall|k: int| 0 <= k < i ==> vs@[k] != x,
        decreases vs@.len() - i,
    {
        if vs[i] == x {
            proof {
                lemma_first_index_of_unique(vs@, x, i as int);
            }
            return Some(i);
        }
        i = i + 1;
    }
    None
}

/// Vertex-fetch optimization: renumber the indices in first-use order and
/// reorder the vertex buffer to match, so that the GPU's vertex-fetch
/// unit reads attribute memory as sequentially as possible. Index `i`
/// still names the same attribute record afterwards.
pub fn optimize_vertex_fetch(verts: &Vec<Vertex>, indices: &Vec<u32>) -> (r: (Vec<Vertex>, Vec<
    u32,
>))
    requires
        indices@.len() <= u32::MAX,
        forall|i: int| 0 <= i < indices@.len() ==> indices@[i] < verts@.len(),
    ensures
        r.0@ == fetch_ordered_vertices(verts@, indices@),
        r.0@.len() <= indices@.len(),
        r.1@.len() == indices@.len(),
        forall|i: int|
            0 <= i < indices@.len() ==> #[trigger] r.1@[i] == first_index_of(
                first_occurrences(indices@),
                indices@[i],
            ),
        forall|i: int| 0 <= i < indices@.len() ==> #[trigger] r.1@[i] < r.0@.len(),
        forall|i: int|
            0 <= i < indices@.len() ==> r.0@[#[trigger] r.1@[i] as int] == verts@[indices@[i] as int],
{
    let ghost full = first_occurrences(indices@);
    let mut uniq: Vec<u32> = Vec::new();
    let mut remap: Vec<u32> = Vec::new();
    let n = indices.len();
    let mut i: usize = 0;
    while i < n
        invariant
            i <= n,
            n == indices@.len(),
            n <= u32::MAX,
            full == first_occurrences(indices@),
            uniq@ == first_occurrences(indices@.take(i as int)),
            uniq@.len() <= i,
            remap@.len() == i,
            forall|k: int|
                0 <= k < i ==> #[trigger] remap@[k] == first_index_of(full, indices@[k]),
        decreases n - i,
    {
        let g = indices[i];
        proof {
            assert(indices@.take(i + 1).drop_last() =~= indices@.take(i as int));
            assert(indices@.take(i + 1).last() == indices@[i as int]);
        }
        match find_index(&uniq, g) {
            Some(j) => {
                proof {
                    lemma_first_occurrences_prefix(indices@, i as int);
                    lemma_first_index_of_prefix(uniq@, full, g);
                }
                remap.push(j as u32);
            },
            None => {
                let j = uniq.len();
                proof {
                    assert(first_occurrences(indices@.take(i + 1)) == uniq@.push(g));
                    lemma_first_occurrences_prefix(indices@, i + 1);
                    assert(uniq@.push(g)[uniq@.len() as int] == g);
                    assert(forall|k: int| 0 <= k < uniq@.len() ==> uniq@.push(g)[k] == uniq@[k]);
                    lemma_first_index_of_unique(uniq@.push(g), g, uniq@.len() as int);
                    assert(uniq@.push(g).contains(g));
                    lemma_first_index_of_prefix(uniq@.push(g), full, g);
                }
                uniq.push(g);
                remap.push(j as u32);
            },
        }
        i = i + 1;
    }
    proof {
        assert(indices@.take(n as int) =~= indices@);
        lemma_first_occurrences_len(indices@);
        lemma_first_occurrences_no_duplicates(indices@);
        assert forall|j: int| 0 <= j < uniq@.len() implies uniq@[j] < verts@.len() by {
            assert(uniq@.contains(uniq@[j]));
            lemma_first_occurrences_contains(indices@, uniq@[j]);
            let w = choose|w: int| 0 <= w < indices@.len() && indices@[w] == uniq@[j];
            assert(indices@[w] < verts@.len());
        }
    }
    let mut new_verts: Vec<Vertex> = Vec::new();
    let m = uniq.len();
    let mut j: usize = 0;
    while j < m
        invariant
            j <= m,
            m == uniq@.len(),
            uniq@ == full,
            forall|k: int| 0 <= k < uniq@.len() ==> #[trigger] uniq@[k] < verts@.len(),
            new_verts@ == uniq@.take(j as int).map_values(|g: u32| verts@[g as int]),
        decreases m - j,
    {
        let g = uniq[j];
        new_verts.push(verts[g as usize]);
        proof {
            assert(uniq@.take(j + 1).drop_last() =~= uniq@.take(j as int));
            assert(new_verts@ =~= uniq@.take(j + 1).map_values(|g: u32| verts@[g as int]));
        }
        j = j + 1;
    }
    proof {
        assert(uniq@.take(m as int) =~= uniq@);
        assert(new_verts@ == fetch_ordered_vertices(verts@, indices@));
        assert forall|i: int|
            0 <= i < indices@.len() implies #[trigger] remap@[i] < new_verts@.len()
            && new_verts@[remap@[i] as int] == verts@[indices@[i] as int] by {
            assert(indices@.contains(indices@[i]));
            lemma_first_occurrences_contains(indices@, indices@[i]);
            lemma_first_index_of_props(full, indices@[i]);
            assert(uniq@[remap@[i] as int] == indices@[i]);
        }
    }
    (new_verts, remap)
}

} // verus!
