use vstd::prelude::*;

verus! {

use crate::builder::GeomView;
use crate::builder::MeshletGeometry;
use crate::builder::built_meshlets;
use crate::builder::empty_geom;
use crate::builder::geom_bounded;
use crate::builder::geom_push_tri;
use crate::builder::geoms_view;
use crate::builder::singleton_geom;
use crate::builder::tri_fits;
use crate::builder::tri_verts;
use crate::builder::verts_with;
use crate::meshlet::Meshlet;

/// Corner `j` of a meshlet's corner list, or the zero filler beyond it.
pub open spec fn corner_or_zero(corners: Seq<u8>, j: int) -> u32 {
    if 0 <= j < corners.len() {
        corners[j] as u32
    } else {
        0
    }
}

/// Word `w` of a meshlet's packed triangle data: four 8-bit corner
/// indices, corner `4w` in bits 0-7, `4w + 1` in bits 8-15, `4w + 2` in
/// bits 16-23 and `4w + 3` in bits 24-31, with unused high bytes zero.
pub open spec fn packed_word(corners: Seq<u8>, w: int) -> u32 {
    corner_or_zero(corners, 4 * w) | (corner_or_zero(corners, 4 * w + 1) << 8) | (corner_or_zero(
        corners,
        4 * w + 2,
    ) << 16) | (corner_or_zero(corners, 4 * w + 3) << 24)
}

/// How many words the packed triangle data of a meshlet takes.
pub open spec fn word_count(corners: Seq<u8>) -> int {
    (corners.len() as int + 3) / 4
}

/// One meshlet's region of the shared data buffer: first its global
/// vertex indices, one word each, then its packed triangle words.
pub open spec fn geom_region(g: GeomView) -> Seq<u32> {
    g.vertices + Seq::new(word_count(g.corners) as nat, |w: int| packed_word(g.corners, w))
}

/// The shared data buffer: every meshlet's region, in meshlet order.
pub open spec fn packed_data(ms: Seq<GeomView>) -> Seq<u32>
    decreases ms.len(),
{
    if ms.len() == 0 {
        Seq::empty()
    } else {
        packed_data(ms.drop_last()) + geom_region(ms.last())
    }
}

/// The meshlet records: each points at the start of its own region, and
/// counts its vertices and triangles.
pub open spec fn meshlet_records(ms: Seq<GeomView>) -> Seq<Meshlet>
    decreases ms.len(),
{
    if ms.len() == 0 {
        Seq::empty()
    } else {
        meshlet_records(ms.drop_last()).push(
            Meshlet {
                data_offset: packed_data(ms.drop_last()).len() as u32,
                vertex_count: ms.last().vertices.len() as u32,
                triangle_count: (ms.last().corners.len() / 3) as u32,
            },
        )
    }
}

/// Record `k` spelled out: its offset is the length of the data packed
/// for the meshlets before it.
pub proof fn lemma_meshlet_records_index(ms: Seq<GeomView>, k: int)
    requires
        0 <= k < ms.len(),
    ensures
        meshlet_records(ms).len() == ms.len(),
        meshlet_records(ms)[k] == (Meshlet {
            data_offset: packed_data(ms.take(k)).len() as u32,
            vertex_count: ms[k].vertices.len() as u32,
            triangle_count: (ms[k].corners.len() / 3) as u32,
        }),
    decreases ms.len(),
{
    lemma_meshlet_records_len(ms);
    if k == ms.len() - 1 {
        assert(ms.take(k) =~= ms.drop_last());
    } else {
        lemma_meshlet_records_index(ms.drop_last(), k);
        assert(ms.drop_last().take(k) =~= ms.take(k));
        assert(ms.drop_last()[k] == ms[k]);
    }
}

pub proof fn lemma_meshlet_records_len(ms: Seq<GeomView>)
    ensures
        meshlet_records(ms).len() == ms.len(),
    decreases ms.len(),
{
    if ms.len() > 0 {
        lemma_meshlet_records_len(ms.drop_last());
    }
}

/// Packing a prefix never takes more room than packing the whole list.
pub proof fn lemma_packed_data_take_le(ms: Seq<GeomView>, k: int)
    requires
        0 <= k <= ms.len(),
    ensures
        packed_data(ms.take(k)).len() <= packed_data(ms).len(),
    decreases ms.len() - k,
{
    if k == ms.len() {
        assert(ms.take(k) =~= ms);
    } else {
        lemma_packed_data_take_le(ms, k + 1);
        assert(ms.take(k + 1).drop_last() =~= ms.take(k));
        assert(ms.take(k + 1).last() == ms[k]);
    }
}

/// Meshlet `k`'s region sits in the shared buffer right where its record
/// points, unchanged by the regions packed after it.
pub proof fn lemma_packed_data_region(ms: Seq<GeomView>, k: int)
    requires
        0 <= k < ms.len(),
    ensures
        packed_data(ms.take(k)).len() + geom_region(ms[k]).len() <= packed_data(ms).len(),
        forall|p: int|
            0 <= p < geom_region(ms[k]).len() ==> packed_data(ms)[packed_data(ms.take(k)).len()
                + p] == #[trigger] geom_region(ms[k])[p],
    decreases ms.len(),
{
    if k == ms.len() - 1 {
        assert(ms.take(k) =~= ms.drop_last());
    } else {
        lemma_packed_data_region(ms.drop_last(), k);
        assert(ms.drop_last().take(k) =~= ms.take(k));
        assert(ms.drop_last()[k] == ms[k]);
    }
}

proof fn lemma_word_bytes(b0: u32, b1: u32, b2: u32, b3: u32)
    by (bit_vector)
    requires
        b0 < 256,
        b1 < 256,
        b2 < 256,
        b3 < 256,
    ensures
        ((b0 | (b1 << 8) | (b2 << 16) | (b3 << 24)) >> 0u32) & 0xff == b0,
        ((b0 | (b1 << 8) | (b2 << 16) | (b3 << 24)) >> 8u32) & 0xff == b1,
        ((b0 | (b1 << 8) | (b2 << 16) | (b3 << 24)) >> 16u32) & 0xff == b2,
        ((b0 | (b1 << 8) | (b2 << 16) | (b3 << 24)) >> 24u32) & 0xff == b3,
{
}

/// Byte `j % 4` of packed word `j / 4` of a meshlet region whose vertex
/// part is `vc` words long: how a reader recovers local corner `j`.
pub open spec fn unpacked_corner(region: Seq<u32>, vc: int, j: int) -> u32 {
    (region[vc + j / 4] >> ((8 * (j % 4)) as u32)) & 0xff
}

/// One byte extracted from one packed word.
proof fn lemma_unpack_word(corners: Seq<u8>, w: int, r: int)
    requires
        0 <= r < 4,
    ensures
        (packed_word(corners, w) >> ((8 * r) as u32)) & 0xff == corner_or_zero(corners, 4 * w + r),
{
    let b0 = corner_or_zero(corners, 4 * w);
    let b1 = corner_or_zero(corners, 4 * w + 1);
    let b2 = corner_or_zero(corners, 4 * w + 2);
    let b3 = corner_or_zero(corners, 4 * w + 3);
    lemma_word_bytes(b0, b1, b2, b3);
    if r == 0 {
        assert((8 * r) as u32 == 0u32);
    } else if r == 1 {
        assert((8 * r) as u32 == 8u32);
    } else if r == 2 {
        assert((8 * r) as u32 == 16u32);
    } else {
        assert((8 * r) as u32 == 24u32);
    }
}

/// Reading back position `j` of the packed corner bytes of a region.
proof fn lemma_pack_corner_at(g: GeomView, j: int)
    requires
        0 <= j < 4 * word_count(g.corners),
    ensures
        unpacked_corner(geom_region(g), g.vertices.len() as int, j) == corner_or_zero(
            g.corners,
            j,
        ),
{
    let w = j / 4;
    let r = j % 4;
    assert((j + 4) / 4 == j / 4 + 1);
    assert(0 <= w < word_count(g.corners));
    assert(geom_region(g)[g.vertices.len() + w] == packed_word(g.corners, w));
    lemma_unpack_word(g.corners, w, r);
    assert(4 * w + r == j);
}

/// Unpacking a meshlet's region gives back exactly what was packed: word
/// `i` of the vertex part is vertex `i`, byte `j % 4` of triangle word
/// `j / 4` is corner `j`, and the filler bytes after the last corner are
/// zero.
pub proof fn lemma_pack_round_trip(g: GeomView)
    requires
        geom_bounded(g),
    ensures
        geom_region(g).len() == g.vertices.len() + word_count(g.corners),
        forall|i: int| 0 <= i < g.vertices.len() ==> #[trigger] geom_region(g)[i] == g.vertices[i],
        forall|j: int|
            0 <= j < g.corners.len() ==> #[trigger] unpacked_corner(
                geom_region(g),
                g.vertices.len() as int,
                j,
            ) == g.corners[j],
        forall|j: int|
            g.corners.len() <= j < 4 * word_count(g.corners) ==> #[trigger] unpacked_corner(
                geom_region(g),
                g.vertices.len() as int,
                j,
            ) == 0,
{
    assert forall|j: int| 0 <= j < g.corners.len() implies #[trigger] unpacked_corner(
        geom_region(g),
        g.vertices.len() as int,
        j,
    ) == g.corners[j] by {
        lemma_pack_corner_at(g, j);
        assert((j + 4) / 4 == j / 4 + 1);
    }
    assert forall|j: int| g.corners.len() <= j < 4 * word_count(g.corners) implies #[trigger] unpacked_corner(
        geom_region(g),
        g.vertices.len() as int,
        j,
    ) == 0 by {
        lemma_pack_corner_at(g, j);
    }
}

/// Taking in one triangle grows a meshlet's region by at most four
/// words: up to three vertices and at most one more packed word.
proof fn lemma_region_grows(g: GeomView, t: (u32, u32, u32))
    ensures
        geom_region(geom_push_tri(g, t)).len() <= geom_region(g).len() + 4,
{
    let gp = geom_push_tri(g, t);
    assert(verts_with(g.vertices, t.0).len() <= g.vertices.len() + 1);
    assert(verts_with(verts_with(g.vertices, t.0), t.1).len() <= g.vertices.len() + 2);
    assert(gp.vertices.len() <= g.vertices.len() + 3);
    assert(gp.corners.len() == g.corners.len() + 3);
    let c = g.corners.len() as int;
    assert((c + 6) / 4 <= (c + 3) / 4 + 1);
}

/// The shared buffer never takes more than five words per input
/// triangle.
pub proof fn lemma_packed_data_built_len(tris: Seq<(u32, u32, u32)>)
    ensures
        packed_data(built_meshlets(tris)).len() <= 5 * tris.len(),
    decreases tris.len(),
{
    if tris.len() == 0 {
    } else {
        let pre = tris.drop_last();
        let t = tris.last();
        lemma_packed_data_built_len(pre);
        let ms = built_meshlets(pre);
        lemma_region_grows(empty_geom(), t);
        assert(geom_region(empty_geom()) =~= Seq::<u32>::empty());
        if ms.len() == 0 {
            let one = seq![singleton_geom(t)];
            assert(one.drop_last() =~= Seq::<GeomView>::empty());
            assert(packed_data(one) =~= geom_region(singleton_geom(t)));
        } else if tri_fits(ms.last(), t) {
            let upd = ms.update(ms.len() - 1, geom_push_tri(ms.last(), t));
            lemma_region_grows(ms.last(), t);
            assert(upd.drop_last() =~= ms.drop_last());
            assert(upd.last() == geom_push_tri(ms.last(), t));
            assert(packed_data(upd) == packed_data(ms.drop_last()) + geom_region(upd.last()));
            assert(packed_data(ms) == packed_data(ms.drop_last()) + geom_region(ms.last()));
        } else {
            let ext = ms.push(singleton_geom(t));
            assert(ext.drop_last() =~= ms);
        }
    }
}

/// The filler byte of one packed word.
fn corner_byte(corners: &Vec<u8>, j: usize) -> (r: u32)
    requires
        corners@.len() <= usize::MAX - 4,
    ensures
        r == corner_or_zero(corners@, j as int),
{
    if j < corners.len() {
        corners[j] as u32
    } else {
        0
    }
}

/// Serialize the meshlets into the flat shared data buffer and the
/// per-meshlet records. For each meshlet, in builder order: record the
/// running cursor as its `data_offset`, append its global vertex
/// indices, then its triangles as packed corner words. Offsets are
/// indices into the shared buffer, not byte offsets, and grow strictly
/// meshlet by meshlet: each next offset is the previous one plus
/// `vertex_count` plus the previous meshlet's word count.
pub fn pack_meshlets(geoms: &Vec<MeshletGeometry>) -> (r: (Vec<Meshlet>, Vec<u32>))
    requires
        forall|k: int| 0 <= k < geoms@.len() ==> geom_bounded(#[trigger] geoms_view(geoms@)[k]),
        packed_data(geoms_view(geoms@)).len() <= u32::MAX,
    ensures
        r.0@ == meshlet_records(geoms_view(geoms@)),
        r.1@ == packed_data(geoms_view(geoms@)),
        r.0@.len() == geoms@.len(),
        forall|k: int|
            0 <= k && k + 1 < r.0@.len() ==> #[trigger] r.0@[k + 1].data_offset == r.0@[k].data_offset
                + r.0@[k].vertex_count + (3 * r.0@[k].triangle_count + 3) / 4,
        r.0@.len() > 0 ==> r.0@[0].data_offset == 0,
{
    let ghost gv = geoms_view(geoms@);
    let mut records: Vec<Meshlet> = Vec::new();
    let mut data: Vec<u32> = Vec::new();
    let n = geoms.len();
    let mut k: usize = 0;
    while k < n
        invariant
            k <= n,
            n == geoms@.len(),
            gv == geoms_view(geoms@),
            forall|j: int| 0 <= j < n ==> geom_bounded(#[trigger] gv[j]),
            packed_data(gv).len() <= u32::MAX,
            records@ == meshlet_records(gv.take(k as int)),
            data@ == packed_data(gv.take(k as int)),
        decreases n - k,
    {
        proof {
            assert(gv.take(k + 1).drop_last() =~= gv.take(k as int));
            assert(gv.take(k + 1).last() == gv[k as int]);
            lemma_packed_data_take_le(gv, k as int);
            lemma_packed_data_take_le(gv, k + 1);
            assert(gv[k as int] == geoms@[k as int]@);
        }
        let offset = data.len();
        let g = &geoms[k];
        let m = Meshlet::new(offset as u32, g.vertices.len() as u32, (g.corners.len() / 3) as u32);
        records.push(m);
        let ghost base = data@;
        let vc = g.vertices.len();
        let mut j: usize = 0;
        while j < vc
            invariant
                j <= vc,
                vc == g.vertices@.len(),
                data@ == base + g.vertices@.take(j as int),
            decreases vc - j,
        {
            data.push(g.vertices[j]);
            proof {
                assert(base + g.vertices@.take(j + 1) =~= (base + g.vertices@.take(j as int)).push(
                    g.vertices@[j as int],
                ));
            }
            j = j + 1;
        }
        proof {
            assert(g.vertices@.take(vc as int) =~= g.vertices@);
        }
        let wcount = (g.corners.len() + 3) / 4;
        let ghost base2 = data@;
        let mut w: usize = 0;
        while w < wcount
            invariant
                w <= wcount,
                wcount == word_count(g.corners@),
                g.corners@.len() <= 3 * 124,
                data@ == base2 + Seq::new(w as nat, |x: int| packed_word(g.corners@, x)),
            decreases wcount - w,
        {
            let b0 = corner_byte(&g.corners, 4 * w);
            let b1 = corner_byte(&g.corners, 4 * w + 1);
            let b2 = corner_byte(&g.corners, 4 * w + 2);
            let b3 = corner_byte(&g.corners, 4 * w + 3);
            let word = b0 | (b1 << 8u32) | (b2 << 16u32) | (b3 << 24u32);
            data.push(word);
            proof {
                assert(word == packed_word(g.corners@, w as int));
                assert(base2 + Seq::new(w as nat + 1, |x: int| packed_word(g.corners@, x)) =~= (
                base2 + Seq::new(w as nat, |x: int| packed_word(g.corners@, x))).push(word));
            }
            w = w + 1;
        }
        proof {
            assert(data@ =~= packed_data(gv.take(k as int)) + geom_region(gv[k as int]));
            assert(data@ == packed_data(gv.take(k + 1)));
            assert(records@ =~= meshlet_records(gv.take(k + 1)));
        }
        k = k + 1;
    }
    proof {
        assert(gv.take(n as int) =~= gv);
        lemma_meshlet_records_len(gv);
        assert forall|k: int| 0 <= k && k + 1 < records@.len() implies #[trigger] records@[k
            + 1].data_offset == records@[k].data_offset + records@[k].vertex_count + (3
            * records@[k].triangle_count + 3) / 4 by {
            lemma_meshlet_records_index(gv, k);
            lemma_meshlet_records_index(gv, k + 1);
            lemma_packed_data_take_le(gv, k + 1);
            assert(gv.take(k + 1).drop_last() =~= gv.take(k));
            assert(gv.take(k + 1).last() == gv[k]);
            lemma_packed_data_take_le(gv, k);
            assert(geom_bounded(gv[k]));
            assert(3 * (gv[k].corners.len() / 3) == gv[k].corners.len());
        }
        if records@.len() > 0 {
            lemma_meshlet_records_index(gv, 0);
            assert(gv.take(0) =~= Seq::<GeomView>::empty());
        }
    }
    (records, data)
}

} // verus!
