use vstd::prelude::*;

verus! {

use crate::distinct::first_index_of;
use crate::distinct::first_occurrences;
use crate::distinct::lemma_first_index_of_prefix;
use crate::distinct::lemma_first_index_of_props;
use crate::distinct::lemma_first_index_of_unique;
use crate::distinct::lemma_first_occurrences_contains;
use crate::distinct::lemma_first_occurrences_len;
use crate::distinct::lemma_first_occurrences_no_duplicates;
use crate::distinct::lemma_first_occurrences_prefix;
use crate::vertex::Vertex;

/// Position of the first bit-exact match of `v` in `vs`, if any.
fn find_vertex(vs: &Vec<Vertex>, v: &Vertex) -> (r: Option<usize>)
    ensures
        match r {
            Some(j) => {
                &&& j < vs@.len()
                &&& vs@[j as int] == *v
                &&& j == first_index_of(vs@, *v)
            },
            None => !vs@.contains(*v),
        },
{
    let mut i: usize = 0;
    while i < vs.len()
        invariant
            i <= vs@.len(),
            forall|k: int| 0 <= k < i ==> vs@[k] != *v,
        decreases vs@.len() - i,
    {
        if vs[i] == *v {
            proof {
                lemma_first_index_of_unique(vs@, *v, i as int);
            }
            return Some(i);
        }
        i = i + 1;
    }
    None
}

/// Collapse structurally identical vertices of the raw per-corner stream.
///
/// The result is the deduplicated vertex buffer, holding each distinct
/// vertex once at its first occurrence and in first-occurrence order, and
/// a remap buffer of the same length as the input in which entry `i` is
/// the position of corner `i`'s vertex in the deduplicated buffer.
pub fn deduplicate(raw: &Vec<Vertex>) -> (r: (Vec<Vertex>, Vec<u32>))
    requires
        raw@.len() <= u32::MAX,
    ensures
        r.0@ == first_occurrences(raw@),
        r.0@.no_duplicates(),
        r.0@.len() <= raw@.len(),
        r.1@.len() == raw@.len(),
        forall|i: int|
            0 <= i < raw@.len() ==> #[trigger] r.1@[i] == first_index_of(
                first_occurrences(raw@),
                raw@[i],
            ),
        forall|i: int|
            0 <= i < raw@.len() ==> #[trigger] r.1@[i] < r.0@.len() && r.0@[r.1@[i] as int]
                == raw@[i],
{
    let ghost full = first_occurrences(raw@);
    let mut verts: Vec<Vertex> = Vec::new();
    let mut remap: Vec<u32> = Vec::new();
    let n = raw.len();
    let mut i: usize = 0;
    while i < n
        invariant
            i <= n,
            n == raw@.len(),
            n <= u32::MAX,
            full == first_occurrences(raw@),
            verts@ == first_occurrences(raw@.take(i as int)),
            verts@.len() <= i,
            remap@.len() == i,
            forall|k: int|
                0 <= k < i ==> #[trigger] remap@[k] == first_index_of(full, raw@[k]),
        decreases n - i,
    {
        let v = raw[i];
        proof {
            assert(raw@.take(i + 1).drop_last() =~= raw@.take(i as int));
            assert(raw@.take(i + 1).last() == raw@[i as int]);
        }
        match find_vertex(&verts, &v) {
            Some(j) => {
                proof {
                    lemma_first_occurrences_prefix(raw@, i as int);
                    lemma_first_index_of_prefix(verts@, full, v);
                }
                remap.push(j as u32);
            },
            None => {
                let j = verts.len();
                proof {
                    assert(first_occurrences(raw@.take(i + 1)) == verts@.push(v));
                    lemma_first_occurrences_prefix(raw@, i + 1);
                    assert(verts@.push(v)[verts@.len() as int] == v);
                    assert(forall|k: int|
                        0 <= k < verts@.len() ==> verts@.push(v)[k] == verts@[k]);
                    lemma_first_index_of_unique(verts@.push(v), v, verts@.len() as int);
                    assert(verts@.push(v).contains(v));
                    lemma_first_index_of_prefix(verts@.push(v), full, v);
                }
                verts.push(v);
                remap.push(j as u32);
            },
        }
        i = i + 1;
    }
    proof {
        assert(raw@.take(n as int) =~= raw@);
        lemma_first_occurrences_no_duplicates(raw@);
        lemma_first_occurrences_len(raw@);
        assert forall|k: int|
            0 <= k < raw@.len() implies #[trigger] remap@[k] < verts@.len() && verts@[remap@[k] as int]
            == raw@[k] by {
            assert(raw@.contains(raw@[k]));
            lemma_first_occurrences_contains(raw@, raw@[k]);
            lemma_first_index_of_props(full, raw@[k]);
        }
    }
    (verts, remap)
}

} // verus!
