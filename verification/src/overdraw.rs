use vstd::prelude::*;

verus! {

use crate::triangles::flatten_triangles;
use crate::triangles::lemma_flatten_of_triangle_list;
use crate::triangles::lemma_flatten_push;
use crate::triangles::lemma_triangle_list_of_flatten;
use crate::triangles::triangle_list;
use crate::vertex::Vertex;
use vstd::seq_lib::lemma_multiset_commutative;

/// Default overdraw-versus-cache tradeoff, in hundredths: 101 stands for
/// an acceptable cache-hit degradation factor of 1.01. At 100 or below no
/// cache degradation is acceptable and the pass keeps the input order.
pub const OVERDRAW_THRESHOLD_HUNDREDTHS: u32 = 101;

/// Number of spatial groups the pass may gather triangles into.
pub const OVERDRAW_BINS: u32 = 16;

/// A total order key for a stored 32-bit scalar pattern: patterns of
/// coordinates that are numerically close map to close keys (the sign bit
/// is folded so that negative coordinates sort below positive ones), so
/// grouping by high key bits groups spatially coherent geometry.
pub open spec fn scalar_order_key(bits: u32) -> u32 {
    if bits >= 0x8000_0000 {
        !bits
    } else {
        bits | 0x8000_0000
    }
}

/// The spatial group of a triangle: the top bits of the order key of its
/// first corner's first position coordinate.
pub open spec fn triangle_bin(verts: Seq<Vertex>, t: (u32, u32, u32)) -> u32 {
    scalar_order_key(verts[t.0 as int].position.x) >> 28
}

/// The triangles of `tris` whose spatial group is `b`, in input order.
pub open spec fn bin_selected(verts: Seq<Vertex>, tris: Seq<(u32, u32, u32)>, b: u32) -> Seq<
    (u32, u32, u32),
>
    decreases tris.len(),
{
    if tris.len() == 0 {
        Seq::empty()
    } else {
        let p = bin_selected(verts, tris.drop_last(), b);
        if triangle_bin(verts, tris.last()) == b {
            p.push(tris.last())
        } else {
            p
        }
    }
}

/// All triangles of groups `0, .., b - 1`, group by group, input order
/// kept inside each group.
pub open spec fn bins_before(verts: Seq<Vertex>, tris: Seq<(u32, u32, u32)>, b: int) -> Seq<
    (u32, u32, u32),
>
    decreases b,
{
    if b <= 0 {
        Seq::empty()
    } else {
        bins_before(verts, tris, b - 1) + bin_selected(verts, tris, (b - 1) as u32)
    }
}

/// What the overdraw pass returns: the input order when no cache
/// degradation is acceptable, otherwise the triangles grouped spatially.
pub open spec fn overdraw_ordered(
    verts: Seq<Vertex>,
    idx: Seq<u32>,
    threshold_hundredths: u32,
) -> Seq<u32> {
    if threshold_hundredths <= 100 {
        idx
    } else {
        flatten_triangles(bins_before(verts, triangle_list(idx), OVERDRAW_BINS as int))
    }
}

proof fn lemma_bin_lt_bins(k: u32)
    ensures
        k >> 28 < 16,
{
    assert(k >> 28 < 16) by (bit_vector);
}

/// Appending one triangle extends exactly one group, so it extends the
/// grouped list by exactly that triangle.
proof fn lemma_bins_before_push(
    verts: Seq<Vertex>,
    tris: Seq<(u32, u32, u32)>,
    t: (u32, u32, u32),
    b: int,
)
    requires
        0 <= b <= OVERDRAW_BINS,
    ensures
        bins_before(verts, tris.push(t), b).len() == bins_before(verts, tris, b).len() + if triangle_bin(
            verts,
            t,
        ) < b {
            1int
        } else {
            0int
        },
    decreases b,
{
    if b <= 0 {
    } else {
        lemma_bins_before_push(verts, tris, t, b - 1);
        assert(tris.push(t).drop_last() =~= tris);
        assert(tris.push(t).last() == t);
        let c = (b - 1) as u32;
        assert(bin_selected(verts, tris.push(t), c) == if triangle_bin(verts, t) == c {
            bin_selected(verts, tris, c).push(t)
        } else {
            bin_selected(verts, tris, c)
        });
        assert(bins_before(verts, tris.push(t), b) == bins_before(verts, tris.push(t), b - 1)
            + bin_selected(verts, tris.push(t), c));
        assert(bins_before(verts, tris, b) == bins_before(verts, tris, b - 1) + bin_selected(
            verts,
            tris,
            c,
        ));
        assert(bins_before(verts, tris.push(t), b - 1).len() == bins_before(verts, tris, b - 1).len()
            + if triangle_bin(verts, t) < b - 1 {
            1int
        } else {
            0int
        });
    }
}

/// Appending one triangle extends exactly one group, so the grouped
/// multiset gains exactly that triangle.
proof fn lemma_bins_before_push_multiset(
    verts: Seq<Vertex>,
    tris: Seq<(u32, u32, u32)>,
    t: (u32, u32, u32),
    b: int,
)
    requires
        0 <= b <= OVERDRAW_BINS,
    ensures
        bins_before(verts, tris.push(t), b).to_multiset() == if triangle_bin(verts, t) < b {
            bins_before(verts, tris, b).to_multiset().insert(t)
        } else {
            bins_before(verts, tris, b).to_multiset()
        },
    decreases b,
{
    if b <= 0 {
    } else {
        lemma_bins_before_push_multiset(verts, tris, t, b - 1);
        assert(tris.push(t).drop_last() =~= tris);
        assert(tris.push(t).last() == t);
        let c = (b - 1) as u32;
        assert(bin_selected(verts, tris.push(t), c) == if triangle_bin(verts, t) == c {
            bin_selected(verts, tris, c).push(t)
        } else {
            bin_selected(verts, tris, c)
        });
        lemma_multiset_commutative(
            bins_before(verts, tris.push(t), b - 1),
            bin_selected(verts, tris.push(t), c),
        );
        lemma_multiset_commutative(bins_before(verts, tris, b - 1), bin_selected(verts, tris, c));
        bin_selected(verts, tris, c).to_multiset_ensures();
        if triangle_bin(verts, t) == c {
            assert(bins_before(verts, tris.push(t), b).to_multiset() =~= bins_before(
                verts,
                tris,
                b,
            ).to_multiset().insert(t));
        } else if triangle_bin(verts, t) < b - 1 {
            assert(bins_before(verts, tris.push(t), b).to_multiset() =~= bins_before(
                verts,
                tris,
                b,
            ).to_multiset().insert(t));
        } else {
            assert(bins_before(verts, tris.push(t), b).to_multiset() =~= bins_before(
                verts,
                tris,
                b,
            ).to_multiset());
        }
    }
}

/// Grouping the triangles spatially neither drops nor invents one: the
/// grouped list holds exactly the input triangles.
pub proof fn lemma_bins_before_multiset(verts: Seq<Vertex>, tris: Seq<(u32, u32, u32)>)
    ensures
        bins_before(verts, tris, OVERDRAW_BINS as int).to_multiset() == tris.to_multiset(),
    decreases tris.len(),
{
    if tris.len() == 0 {
        lemma_bins_before_empty(verts, tris, OVERDRAW_BINS as int);
        bins_before(verts, tris, OVERDRAW_BINS as int).to_multiset_ensures();
        tris.to_multiset_ensures();
        assert(bins_before(verts, tris, OVERDRAW_BINS as int).to_multiset()
            =~= tris.to_multiset());
    } else {
        let pre = tris.drop_last();
        let t = tris.last();
        lemma_bins_before_multiset(verts, pre);
        lemma_bins_before_push_multiset(verts, pre, t, OVERDRAW_BINS as int);
        assert(pre.push(t) =~= tris);
        lemma_bin_lt_bins(scalar_order_key(verts[t.0 as int].position.x));
        pre.to_multiset_ensures();
        assert(tris.to_multiset() == pre.to_multiset().insert(t));
    }
}

/// Every triangle lands in exactly one group, so grouping preserves the
/// number of triangles.
pub proof fn lemma_bins_before_total_len(verts: Seq<Vertex>, tris: Seq<(u32, u32, u32)>)
    ensures
        bins_before(verts, tris, OVERDRAW_BINS as int).len() == tris.len(),
    decreases tris.len(),
{
    if tris.len() == 0 {
        assert(bins_before(verts, tris, 16) =~= Seq::empty()) by {
            lemma_bins_before_empty(verts, tris, 16);
        }
    } else {
        lemma_bins_before_total_len(verts, tris.drop_last());
        lemma_bins_before_push(verts, tris.drop_last(), tris.last(), OVERDRAW_BINS as int);
        assert(tris.drop_last().push(tris.last()) =~= tris);
        lemma_bin_lt_bins(scalar_order_key(verts[tris.last().0 as int].position.x));
    }
}

proof fn lemma_bins_before_empty(verts: Seq<Vertex>, tris: Seq<(u32, u32, u32)>, b: int)
    requires
        tris.len() == 0,
    ensures
        bins_before(verts, tris, b).len() == 0,
    decreases b,
{
    if b > 0 {
        lemma_bins_before_empty(verts, tris, b - 1);
    }
}

/// Copy of a flat index list.
fn copy_indices(indices: &Vec<u32>) -> (r: Vec<u32>)
    ensures
        r@ == indices@,
{
    let mut out: Vec<u32> = Vec::new();
    let mut i: usize = 0;
    while i < indices.len()
        invariant
            i <= indices@.len(),
            out@ == indices@.take(i as int),
        decreases indices@.len() - i,
    {
        out.push(indices[i]);
        proof {
            assert(out@ =~= indices@.take(i + 1));
        }
        i = i + 1;
    }
    proof {
        assert(indices@.take(indices@.len() as int) =~= indices@);
    }
    out
}

/// Reorder whole triangles so that spatially coherent ones stand
/// together, reducing rasterizer overdraw; inside each spatial group the
/// cache-optimized order is kept. `threshold_hundredths` is the
/// acceptable cache-degradation factor in hundredths: at 100 or below the
/// input order is returned unchanged.
pub fn optimize_overdraw(verts: &Vec<Vertex>, indices: &Vec<u32>, threshold_hundredths: u32) -> (r:
    Vec<u32>)
    requires
        indices@.len() % 3 == 0,
        forall|i: int| 0 <= i < indices@.len() ==> indices@[i] < verts@.len(),
    ensures
        r@ == overdraw_ordered(verts@, indices@, threshold_hundredths),
        r@.len() == indices@.len(),
        r@.len() % 3 == 0,
        triangle_list(r@).to_multiset() == triangle_list(indices@).to_multiset(),
        forall|i: int| 0 <= i < r@.len() ==> r@[i] < verts@.len(),
{
    if threshold_hundredths <= 100 {
        return copy_indices(indices);
    }
    let ghost tris = triangle_list(indices@);
    let tri_count = indices.len() / 3;
    let mut out: Vec<u32> = Vec::new();
    let mut b: u32 = 0;
    while b < OVERDRAW_BINS
        invariant
            b <= OVERDRAW_BINS,
            tris == triangle_list(indices@),
            indices@.len() <= usize::MAX,
            indices@.len() % 3 == 0,
            tri_count == indices@.len() / 3,
            forall|i: int| 0 <= i < indices@.len() ==> indices@[i] < verts@.len(),
            out@ == flatten_triangles(bins_before(verts@, tris, b as int)),
            forall|i: int| 0 <= i < out@.len() ==> out@[i] < verts@.len(),
        decreases OVERDRAW_BINS - b,
    {
        let mut i: usize = 0;
        while i < tri_count
            invariant
                i <= tri_count,
                b < OVERDRAW_BINS,
                tris == triangle_list(indices@),
                indices@.len() <= usize::MAX,
                indices@.len() % 3 == 0,
                tri_count == indices@.len() / 3,
                forall|k: int| 0 <= k < indices@.len() ==> indices@[k] < verts@.len(),
                out@ == flatten_triangles(
                    bins_before(verts@, tris, b as int) + bin_selected(
                        verts@,
                        tris.take(i as int),
                        b,
                    ),
                ),
                forall|k: int| 0 <= k < out@.len() ==> out@[k] < verts@.len(),
            decreases tri_count - i,
        {
            proof {
                assert(indices@.len() == 3 * tri_count) by {
                    assert(indices@.len() == 3 * (indices@.len() / 3) + indices@.len() % 3);
                }
                assert(3 * (i + 1) <= 3 * tri_count);
            }
            let base = 3 * i;
            let c0 = indices[base];
            let c1 = indices[base + 1];
            let c2 = indices[base + 2];
            proof {
                assert(tris[i as int] == (c0, c1, c2));
            }
            let key = scalar_key(verts[c0 as usize].position.x);
            proof {
                lemma_bin_lt_bins(key);
                assert(tris.take(i + 1).drop_last() =~= tris.take(i as int));
                assert(tris.take(i + 1).last() == tris[i as int]);
            }
            if key >> 28 == b {
                out.push(c0);
                out.push(c1);
                out.push(c2);
                proof {
                    let prev = bins_before(verts@, tris, b as int) + bin_selected(
                        verts@,
                        tris.take(i as int),
                        b,
                    );
                    lemma_flatten_push(prev, (c0, c1, c2));
                    assert(prev.push((c0, c1, c2)) =~= bins_before(verts@, tris, b as int)
                        + bin_selected(verts@, tris.take(i + 1), b));
                    assert(out@ =~= flatten_triangles(prev) + seq![c0, c1, c2]);
                }
            } else {
                proof {
                    assert(bin_selected(verts@, tris.take(i + 1), b) == bin_selected(
                        verts@,
                        tris.take(i as int),
                        b,
                    ));
                }
            }
            i = i + 1;
        }
        proof {
            assert(tris.take(tri_count as int) =~= tris);
        }
        b = b + 1;
    }
    proof {
        lemma_bins_before_total_len(verts@, tris);
        assert(out@.len() == 3 * tris.len());
        assert(3 * (indices@.len() / 3) == indices@.len());
        lemma_triangle_list_of_flatten(bins_before(verts@, tris, OVERDRAW_BINS as int));
        lemma_bins_before_multiset(verts@, tris);
    }
    out
}

/// The order key of one stored scalar pattern.
fn scalar_key(bits: u32) -> (r: u32)
    ensures
        r == scalar_order_key(bits),
{
    if bits >= 0x8000_0000 {
        !bits
    } else {
        bits | 0x8000_0000
    }
}

} // verus!
