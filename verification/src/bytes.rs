use vstd::prelude::*;

verus! {

use crate::meshlet::Meshlet;
use crate::vertex::Vertex;

/// The four little-endian bytes of one 32-bit word.
pub open spec fn u32_le_bytes(w: u32) -> Seq<u8> {
    seq![
        (w & 0xff) as u8,
        ((w >> 8) & 0xff) as u8,
        ((w >> 16) & 0xff) as u8,
        ((w >> 24) & 0xff) as u8,
    ]
}

/// A word sequence serialized little-endian, word by word.
pub open spec fn words_le_bytes(ws: Seq<u32>) -> Seq<u8>
    decreases ws.len(),
{
    if ws.len() == 0 {
        Seq::empty()
    } else {
        words_le_bytes(ws.drop_last()) + u32_le_bytes(ws.last())
    }
}

/// The eight words of one interleaved vertex record, in the layout the
/// GPU reads: position, texture coordinate, normal.
pub open spec fn vertex_words(v: Vertex) -> Seq<u32> {
    seq![
        v.position.x,
        v.position.y,
        v.position.z,
        v.tex_coord.x,
        v.tex_coord.y,
        v.normal.x,
        v.normal.y,
        v.normal.z,
    ]
}

/// The word stream of a whole vertex buffer.
pub open spec fn vertices_words(vs: Seq<Vertex>) -> Seq<u32>
    decreases vs.len(),
{
    if vs.len() == 0 {
        Seq::empty()
    } else {
        vertices_words(vs.drop_last()) + vertex_words(vs.last())
    }
}

/// The three words of one meshlet record: offset, vertex count, triangle
/// count.
pub open spec fn meshlet_words(m: Meshlet) -> Seq<u32> {
    seq![m.data_offset, m.vertex_count, m.triangle_count]
}

/// The word stream of a whole meshlet buffer.
pub open spec fn meshlets_words(ms: Seq<Meshlet>) -> Seq<u32>
    decreases ms.len(),
{
    if ms.len() == 0 {
        Seq::empty()
    } else {
        meshlets_words(ms.drop_last()) + meshlet_words(ms.last())
    }
}

pub proof fn lemma_words_le_bytes_len(ws: Seq<u32>)
    ensures
        words_le_bytes(ws).len() == 4 * ws.len(),
    decreases ws.len(),
{
    if ws.len() > 0 {
        lemma_words_le_bytes_len(ws.drop_last());
    }
}

pub proof fn lemma_vertices_words_len(vs: Seq<Vertex>)
    ensures
        vertices_words(vs).len() == 8 * vs.len(),
    decreases vs.len(),
{
    if vs.len() > 0 {
        lemma_vertices_words_len(vs.drop_last());
    }
}

pub proof fn lemma_meshlets_words_len(ms: Seq<Meshlet>)
    ensures
        meshlets_words(ms).len() == 3 * ms.len(),
    decreases ms.len(),
{
    if ms.len() > 0 {
        lemma_meshlets_words_len(ms.drop_last());
    }
}

/// Append one word's little-endian bytes.
fn push_word_bytes(out: &mut Vec<u8>, w: u32)
    ensures
        final(out)@ == old(out)@ + u32_le_bytes(w),
{
    out.push((w & 0xff) as u8);
    out.push(((w >> 8u32) & 0xff) as u8);
    out.push(((w >> 16u32) & 0xff) as u8);
    out.push(((w >> 24u32) & 0xff) as u8);
    proof {
        assert(out@ =~= old(out)@ + u32_le_bytes(w));
    }
}

/// The shared meshlet data buffer as bytes, ready to copy verbatim into
/// device-visible memory: each word little-endian, four bytes per word.
pub fn meshlet_data_bytes(data: &Vec<u32>) -> (r: Vec<u8>)
    requires
        data@.len() * 4 <= usize::MAX,
    ensures
        r@ == words_le_bytes(data@),
        r@.len() == 4 * data@.len(),
{
    let mut out: Vec<u8> = Vec::new();
    let n = data.len();
    let mut i: usize = 0;
    while i < n
        invariant
            i <= n,
            n == data@.len(),
            out@ == words_le_bytes(data@.take(i as int)),
        decreases n - i,
    {
        proof {
            assert(data@.take(i + 1).drop_last() =~= data@.take(i as int));
            assert(data@.take(i + 1).last() == data@[i as int]);
        }
        push_word_bytes(&mut out, data[i]);
        i = i + 1;
    }
    proof {
        assert(data@.take(n as int) =~= data@);
        lemma_words_le_bytes_len(data@);
    }
    out
}

/// The vertex buffer as bytes: one 32-byte interleaved record per
/// vertex, each attribute word little-endian.
pub fn vertex_buffer_bytes(vs: &Vec<Vertex>) -> (r: Vec<u8>)
    requires
        vs@.len() * 32 <= usize::MAX,
    ensures
        r@ == words_le_bytes(vertices_words(vs@)),
        r@.len() == 32 * vs@.len(),
{
    let mut out: Vec<u8> = Vec::new();
    let n = vs.len();
    let mut i: usize = 0;
    while i < n
        invariant
            i <= n,
            n == vs@.len(),
            out@ == words_le_bytes(vertices_words(vs@.take(i as int))),
        decreases n - i,
    {
        proof {
            assert(vs@.take(i + 1).drop_last() =~= vs@.take(i as int));
            assert(vs@.take(i + 1).last() == vs@[i as int]);
        }
        let v = vs[i];
        let ghost mid = vertices_words(vs@.take(i as int));
        push_word_bytes(&mut out, v.position.x);
        push_word_bytes(&mut out, v.position.y);
        push_word_bytes(&mut out, v.position.z);
        push_word_bytes(&mut out, v.tex_coord.x);
        push_word_bytes(&mut out, v.tex_coord.y);
        push_word_bytes(&mut out, v.normal.x);
        push_word_bytes(&mut out, v.normal.y);
        push_word_bytes(&mut out, v.normal.z);
        proof {
            lemma_words_le_bytes_append(mid, vertex_words(vs@[i as int]));
            assert(words_le_bytes(vertex_words(vs@[i as int])) =~= u32_le_bytes(v.position.x)
                + u32_le_bytes(v.position.y) + u32_le_bytes(v.position.z) + u32_le_bytes(
                v.tex_coord.x,
            ) + u32_le_bytes(v.tex_coord.y) + u32_le_bytes(v.normal.x) + u32_le_bytes(v.normal.y)
                + u32_le_bytes(v.normal.z)) by {
                reveal_with_fuel(words_le_bytes, 9);
            }
            assert(out@ =~= words_le_bytes(mid + vertex_words(vs@[i as int])));
        }
        i = i + 1;
    }
    proof {
        assert(vs@.take(n as int) =~= vs@);
        lemma_words_le_bytes_len(vertices_words(vs@));
        lemma_vertices_words_len(vs@);
    }
    out
}

/// The meshlet buffer as bytes: one 12-byte record per meshlet.
pub fn meshlet_buffer_bytes(ms: &Vec<Meshlet>) -> (r: Vec<u8>)
    requires
        ms@.len() * 12 <= usize::MAX,
    ensures
        r@ == words_le_bytes(meshlets_words(ms@)),
        r@.len() == 12 * ms@.len(),
{
    let mut out: Vec<u8> = Vec::new();
    let n = ms.len();
    let mut i: usize = 0;
    while i < n
        invariant
            i <= n,
            n == ms@.len(),
            out@ == words_le_bytes(meshlets_words(ms@.take(i as int))),
        decreases n - i,
    {
        proof {
            assert(ms@.take(i + 1).drop_last() =~= ms@.take(i as int));
            assert(ms@.take(i + 1).last() == ms@[i as int]);
        }
        let m = ms[i];
        let ghost mid = meshlets_words(ms@.take(i as int));
        push_word_bytes(&mut out, m.data_offset);
        push_word_bytes(&mut out, m.vertex_count);
        push_word_bytes(&mut out, m.triangle_count);
        proof {
            lemma_words_le_bytes_append(mid, meshlet_words(ms@[i as int]));
            assert(words_le_bytes(meshlet_words(ms@[i as int])) =~= u32_le_bytes(m.data_offset)
                + u32_le_bytes(m.vertex_count) + u32_le_bytes(m.triangle_count)) by {
                reveal_with_fuel(words_le_bytes, 4);
            }
            assert(out@ =~= words_le_bytes(mid + meshlet_words(ms@[i as int])));
        }
        i = i + 1;
    }
    proof {
        assert(ms@.take(n as int) =~= ms@);
        lemma_words_le_bytes_len(meshlets_words(ms@));
        lemma_meshlets_words_len(ms@);
    }
    out
}

/// Serializing a concatenation serializes the parts one after the other.
pub proof fn lemma_words_le_bytes_append(a: Seq<u32>, b: Seq<u32>)
    ensures
        words_le_bytes(a + b) == words_le_bytes(a) + words_le_bytes(b),
    decreases b.len(),
{
    if b.len() == 0 {
        assert(a + b =~= a);
        assert(words_le_bytes(a) + words_le_bytes(b) =~= words_le_bytes(a));
    } else {
        lemma_words_le_bytes_append(a, b.drop_last());
        assert((a + b).drop_last() =~= a + b.drop_last());
        assert((a + b).last() == b.last());
        assert(words_le_bytes(a) + (words_le_bytes(b.drop_last()) + u32_le_bytes(b.last())) =~= (
        words_le_bytes(a) + words_le_bytes(b.drop_last())) + u32_le_bytes(b.last()));
    }
}

} // verus!
