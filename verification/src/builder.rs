use vstd::prelude::*;

verus! {

use crate::distinct::first_index_of;
use crate::distinct::lemma_first_index_of_prefix;
use crate::distinct::lemma_first_index_of_props;
use crate::distinct::lemma_first_index_of_unique;
use crate::fetch::find_index;
use crate::meshlet::MAX_MESHLET_TRIANGLES;
use crate::meshlet::MAX_MESHLET_VERTICES;
use crate::triangles::flatten_triangles;
use crate::triangles::lemma_flatten_push;
use crate::triangles::triangle_list;

/// One meshlet before packing: the global indices of the vertices it
/// references (each once, in first-use order) and its triangles, three
/// corner indices per triangle, each corner local to `vertices`.
#[derive(Debug)]
pub struct MeshletGeometry {
    pub vertices: Vec<u32>,
    pub corners: Vec<u8>,
}

/// The mathematical content of a `MeshletGeometry`.
#[verifier::ext_equal]
pub ghost struct GeomView {
    pub vertices: Seq<u32>,
    pub corners: Seq<u8>,
}

impl View for MeshletGeometry {
    type V = GeomView;

    open spec fn view(&self) -> GeomView {
        GeomView { vertices: self.vertices@, corners: self.corners@ }
    }
}

pub open spec fn geoms_view(ms: Seq<MeshletGeometry>) -> Seq<GeomView> {
    ms.map_values(|m: MeshletGeometry| m@)
}

/// A meshlet of well-bounded shape under the hard caps: it is nonempty,
/// references each of at most 64 distinct vertices once, and holds
/// between 1 and 124 whole triangles whose corners stay inside its own
/// vertex list.
pub open spec fn geom_bounded(g: GeomView) -> bool {
    &&& 1 <= g.vertices.len() <= MAX_MESHLET_VERTICES
    &&& g.vertices.no_duplicates()
    &&& g.corners.len() % 3 == 0
    &&& 3 <= g.corners.len() <= 3 * MAX_MESHLET_TRIANGLES
    &&& forall|i: int| 0 <= i < g.corners.len() ==> g.corners[i] < g.vertices.len()
}

/// A well-formed meshlet over a vertex buffer of `vcount` entries.
pub open spec fn geom_wf(g: GeomView, vcount: int) -> bool {
    &&& geom_bounded(g)
    &&& forall|i: int| 0 <= i < g.vertices.len() ==> g.vertices[i] < vcount
}

pub open spec fn meshlets_wf(ms: Seq<GeomView>, vcount: int) -> bool {
    forall|k: int| 0 <= k < ms.len() ==> geom_wf(#[trigger] ms[k], vcount)
}

/// `vs` with `g` appended if it is not yet there.
pub open spec fn verts_with(vs: Seq<u32>, g: u32) -> Seq<u32> {
    if vs.contains(g) {
        vs
    } else {
        vs.push(g)
    }
}

/// The vertex list of a meshlet after taking in triangle `t`.
pub open spec fn tri_verts(vs: Seq<u32>, t: (u32, u32, u32)) -> Seq<u32> {
    verts_with(verts_with(verts_with(vs, t.0), t.1), t.2)
}

/// Can triangle `t` join meshlet `g` without breaking either cap?
pub open spec fn tri_fits(g: GeomView, t: (u32, u32, u32)) -> bool {
    &&& tri_verts(g.vertices, t).len() <= MAX_MESHLET_VERTICES
    &&& g.corners.len() / 3 + 1 <= MAX_MESHLET_TRIANGLES
}

/// Meshlet `g` after taking in triangle `t`: new vertices appended in
/// corner order, and the triangle recorded through local corner indices.
pub open spec fn geom_push_tri(g: GeomView, t: (u32, u32, u32)) -> GeomView {
    let vs = tri_verts(g.vertices, t);
    GeomView {
        vertices: vs,
        corners: g.corners + seq![
            first_index_of(vs, t.0) as u8,
            first_index_of(vs, t.1) as u8,
            first_index_of(vs, t.2) as u8,
        ],
    }
}

pub open spec fn empty_geom() -> GeomView {
    GeomView { vertices: Seq::empty(), corners: Seq::empty() }
}

pub open spec fn singleton_geom(t: (u32, u32, u32)) -> GeomView {
    geom_push_tri(empty_geom(), t)
}

/// The greedy partition of a triangle list into meshlets: each triangle
/// joins the open (last) meshlet while both caps allow it, otherwise it
/// opens a new one.
pub open spec fn built_meshlets(tris: Seq<(u32, u32, u32)>) -> Seq<GeomView>
    decreases tris.len(),
{
    if tris.len() == 0 {
        Seq::empty()
    } else {
        let ms = built_meshlets(tris.drop_last());
        let t = tris.last();
        if ms.len() == 0 {
            seq![singleton_geom(t)]
        } else if tri_fits(ms.last(), t) {
            ms.update(ms.len() - 1, geom_push_tri(ms.last(), t))
        } else {
            ms.push(singleton_geom(t))
        }
    }
}

/// The triangles a meshlet holds, written back as global vertex indices.
pub open spec fn geom_globals(g: GeomView) -> Seq<u32> {
    g.corners.map_values(|c: u8| g.vertices[c as int])
}

/// All triangles of all meshlets, meshlet by meshlet, as global indices.
pub open spec fn meshlets_globals(ms: Seq<GeomView>) -> Seq<u32>
    decreases ms.len(),
{
    if ms.len() == 0 {
        Seq::empty()
    } else {
        meshlets_globals(ms.drop_last()) + geom_globals(ms.last())
    }
}

proof fn lemma_verts_with_prefix(vs: Seq<u32>, x: u32)
    ensures
        vs.is_prefix_of(verts_with(vs, x)),
        verts_with(vs, x).contains(x),
        vs.len() <= verts_with(vs, x).len(),
{
    if vs.contains(x) {
        assert(vs =~= verts_with(vs, x).subrange(0, vs.len() as int));
    } else {
        assert(vs =~= vs.push(x).subrange(0, vs.len() as int));
        assert(vs.push(x)[vs.len() as int] == x);
    }
}

proof fn lemma_verts_with_no_duplicates(vs: Seq<u32>, x: u32)
    requires
        vs.no_duplicates(),
    ensures
        verts_with(vs, x).no_duplicates(),
{
    if !vs.contains(x) {
        assert(forall|i: int| 0 <= i < vs.len() ==> vs.push(x)[i] == vs[i]);
    }
}

proof fn lemma_tri_verts_prefix(vs: Seq<u32>, t: (u32, u32, u32))
    ensures
        vs.is_prefix_of(tri_verts(vs, t)),
        tri_verts(vs, t).contains(t.0),
        tri_verts(vs, t).contains(t.1),
        tri_verts(vs, t).contains(t.2),
        vs.len() <= tri_verts(vs, t).len() <= vs.len() + 3,
{
    let vs1 = verts_with(vs, t.0);
    let vs2 = verts_with(vs1, t.1);
    let vs3 = verts_with(vs2, t.2);
    lemma_verts_with_prefix(vs, t.0);
    lemma_verts_with_prefix(vs1, t.1);
    lemma_verts_with_prefix(vs2, t.2);
    lemma_verts_with_contains(vs1, t.1, t.0);
    lemma_verts_with_contains(vs2, t.2, t.0);
    lemma_verts_with_contains(vs2, t.2, t.1);
    assert(vs =~= vs3.subrange(0, vs.len() as int));
}

/// A triangle taken into a well-formed (or still empty) meshlet under
/// the caps keeps it well-formed.
proof fn lemma_geom_push_tri_wf(g: GeomView, t: (u32, u32, u32), vcount: int)
    requires
        g == empty_geom() || geom_wf(g, vcount),
        tri_fits(g, t),
        t.0 < vcount,
        t.1 < vcount,
        t.2 < vcount,
    ensures
        geom_wf(geom_push_tri(g, t), vcount),
{
    let vs = g.vertices;
    let vs1 = verts_with(vs, t.0);
    let vs2 = verts_with(vs1, t.1);
    let vs3 = verts_with(vs2, t.2);
    lemma_verts_with_no_duplicates(vs, t.0);
    lemma_verts_with_no_duplicates(vs1, t.1);
    lemma_verts_with_no_duplicates(vs2, t.2);
    lemma_tri_verts_prefix(vs, t);
    assert(forall|i: int| vs.len() <= i < vs3.len() ==> vs3[i] == t.0 || vs3[i] == t.1 || vs3[i]
        == t.2) by {
        assert(forall|i: int| 0 <= i < vs1.len() && i >= vs.len() ==> vs1[i] == t.0);
        assert(forall|i: int| 0 <= i < vs2.len() && i >= vs1.len() ==> vs2[i] == t.1);
        assert(forall|i: int| 0 <= i < vs2.len() ==> vs3[i] == vs2[i]);
        assert(forall|i: int| 0 <= i < vs1.len() ==> vs2[i] == vs1[i]);
        assert(forall|i: int| 0 <= i < vs3.len() && i >= vs2.len() ==> vs3[i] == t.2);
    }
    let gp = geom_push_tri(g, t);
    lemma_first_index_of_props(vs3, t.0);
    lemma_first_index_of_props(vs3, t.1);
    lemma_first_index_of_props(vs3, t.2);
    assert(forall|i: int| 0 <= i < g.corners.len() ==> gp.corners[i] == g.corners[i]);
    assert(gp.corners[g.corners.len() as int] == first_index_of(vs3, t.0) as u8);
    assert(gp.corners[g.corners.len() as int + 1] == first_index_of(vs3, t.1) as u8);
    assert(gp.corners[g.corners.len() as int + 2] == first_index_of(vs3, t.2) as u8);
    if g == empty_geom() {
    } else {
        assert(g.corners.len() / 3 + 1 <= MAX_MESHLET_TRIANGLES);
        assert(g.corners.len() == 3 * (g.corners.len() / 3));
        assert(gp.corners.len() <= 3 * MAX_MESHLET_TRIANGLES);
    }
}

/// Taking in a triangle appends exactly its three global indices to the
/// triangles a meshlet holds.
proof fn lemma_geom_push_tri_globals(g: GeomView, t: (u32, u32, u32))
    requires
        forall|i: int| 0 <= i < g.corners.len() ==> g.corners[i] < g.vertices.len(),
        tri_verts(g.vertices, t).len() <= MAX_MESHLET_VERTICES,
    ensures
        geom_globals(geom_push_tri(g, t)) == geom_globals(g) + seq![t.0, t.1, t.2],
{
    let vs3 = tri_verts(g.vertices, t);
    let gp = geom_push_tri(g, t);
    lemma_tri_verts_prefix(g.vertices, t);
    lemma_first_index_of_props(vs3, t.0);
    lemma_first_index_of_props(vs3, t.1);
    lemma_first_index_of_props(vs3, t.2);
    assert forall|i: int| 0 <= i < gp.corners.len() implies #[trigger] geom_globals(gp)[i]
        == (geom_globals(g) + seq![t.0, t.1, t.2])[i] by {
        if i < g.corners.len() {
            assert(gp.corners[i] == g.corners[i]);
            assert(g.vertices =~= vs3.subrange(0, g.vertices.len() as int));
            assert(vs3[g.corners[i] as int] == g.vertices[g.corners[i] as int]);
        } else if i == g.corners.len() {
            assert(gp.corners[i] == first_index_of(vs3, t.0) as u8);
        } else if i == g.corners.len() + 1 {
            assert(gp.corners[i] == first_index_of(vs3, t.1) as u8);
        } else {
            assert(gp.corners[i] == first_index_of(vs3, t.2) as u8);
        }
    }
    assert(geom_globals(gp) =~= geom_globals(g) + seq![t.0, t.1, t.2]);
}

/// The greedy partition of any triangle list whose corners stay below
/// `vcount` yields only well-formed meshlets, and those meshlets hold
/// exactly the input triangles, in order.
pub proof fn lemma_built_meshlets_props(tris: Seq<(u32, u32, u32)>, vcount: int)
    requires
        forall|k: int|
            0 <= k < tris.len() ==> (#[trigger] tris[k]).0 < vcount && tris[k].1 < vcount
                && tris[k].2 < vcount,
    ensures
        meshlets_wf(built_meshlets(tris), vcount),
        meshlets_globals(built_meshlets(tris)) == flatten_triangles(tris),
        built_meshlets(tris).len() <= tris.len(),
        tris.len() > 0 ==> built_meshlets(tris).len() >= 1,
    decreases tris.len(),
{
    if tris.len() == 0 {
        assert(meshlets_globals(built_meshlets(tris)) =~= flatten_triangles(tris));
    } else {
        let pre = tris.drop_last();
        let t = tris.last();
        lemma_built_meshlets_props(pre, vcount);
        let ms = built_meshlets(pre);
        lemma_flatten_push(pre, t);
        assert(pre.push(t) =~= tris);
        if ms.len() == 0 {
            lemma_tri_verts_prefix(empty_geom().vertices, t);
            lemma_geom_push_tri_wf(empty_geom(), t, vcount);
            lemma_geom_push_tri_globals(empty_geom(), t);
            let one = seq![singleton_geom(t)];
            assert(one.drop_last() =~= Seq::<GeomView>::empty());
            assert(meshlets_globals(one) =~= geom_globals(singleton_geom(t)));
            assert(meshlets_globals(ms) =~= Seq::<u32>::empty());
            assert(geom_globals(empty_geom()) =~= Seq::<u32>::empty());
            assert(meshlets_globals(one) =~= flatten_triangles(tris));
        } else if tri_fits(ms.last(), t) {
            let upd = ms.update(ms.len() - 1, geom_push_tri(ms.last(), t));
            assert(geom_wf(ms.last(), vcount));
            lemma_geom_push_tri_wf(ms.last(), t, vcount);
            lemma_geom_push_tri_globals(ms.last(), t);
            assert(upd.drop_last() =~= ms.drop_last());
            assert(upd.last() == geom_push_tri(ms.last(), t));
            assert(meshlets_globals(upd) == meshlets_globals(ms.drop_last()) + geom_globals(
                upd.last(),
            ));
            assert(meshlets_globals(ms) == meshlets_globals(ms.drop_last()) + geom_globals(
                ms.last(),
            ));
            assert(meshlets_globals(upd) =~= meshlets_globals(ms) + seq![t.0, t.1, t.2]);
            assert(forall|k: int| 0 <= k < upd.len() - 1 ==> upd[k] == ms[k]);
        } else {
            lemma_tri_verts_prefix(empty_geom().vertices, t);
            lemma_geom_push_tri_wf(empty_geom(), t, vcount);
            lemma_geom_push_tri_globals(empty_geom(), t);
            let ext = ms.push(singleton_geom(t));
            assert(ext.drop_last() =~= ms);
            assert(geom_globals(empty_geom()) =~= Seq::<u32>::empty());
            assert(meshlets_globals(ext) =~= meshlets_globals(ms) + seq![t.0, t.1, t.2]);
            assert(forall|k: int| 0 <= k < ms.len() ==> ext[k] == ms[k]);
        }
    }
}

pub proof fn lemma_verts_with_contains(vs: Seq<u32>, x: u32, y: u32)
    ensures
        verts_with(vs, x).contains(y) <==> (vs.contains(y) || x == y),
{
    if vs.contains(x) {
    } else {
        if vs.contains(y) {
            let i = choose|i: int| 0 <= i < vs.len() && vs[i] == y;
            assert(vs.push(x)[i] == y);
        }
        if x == y {
            assert(vs.push(x)[vs.len() as int] == y);
        }
        if verts_with(vs, x).contains(y) {
            let i = choose|i: int| 0 <= i < vs.push(x).len() && vs.push(x)[i] == y;
            if i < vs.len() {
                assert(vs[i] == y);
            }
        }
    }
}

/// Record one more global vertex index in a meshlet's vertex list,
/// reusing an existing entry when the index is already there. Returns the
/// local index of `x` in the updated list.
fn insert_vertex(vs: &mut Vec<u32>, x: u32) -> (r: usize)
    requires
        old(vs)@.len() < usize::MAX,
    ensures
        final(vs)@ == verts_with(old(vs)@, x),
        r == first_index_of(final(vs)@, x),
        r < final(vs)@.len(),
        final(vs)@[r as int] == x,
{
    match find_index(vs, x) {
        Some(j) => {
            proof {
                assert(vs@ == verts_with(vs@, x));
            }
            j
        },
        None => {
            let j = vs.len();
            proof {
                assert(old(vs)@.push(x)[old(vs)@.len() as int] == x);
                assert(forall|k: int|
                    0 <= k < old(vs)@.len() ==> old(vs)@.push(x)[k] == old(vs)@[k]);
                lemma_first_index_of_unique(old(vs)@.push(x), x, old(vs)@.len() as int);
            }
            vs.push(x);
            j
        },
    }
}

/// Place triangle `(a, b, c)` into meshlet `g`, which must have room for
/// it under both caps.
fn add_triangle(g: &mut MeshletGeometry, a: u32, b: u32, c: u32)
    requires
        old(g)@ == empty_geom() || geom_wf(old(g)@, u32::MAX as int + 1),
        tri_fits(old(g)@, (a, b, c)),
    ensures
        final(g)@ == geom_push_tri(old(g)@, (a, b, c)),
{
    let ghost t = (a, b, c);
    let ghost vs0 = g@.vertices;
    let ghost vs1 = verts_with(vs0, a);
    let ghost vs2 = verts_with(vs1, b);
    let ghost vs3 = verts_with(vs2, c);
    proof {
        lemma_tri_verts_prefix(vs0, t);
        lemma_verts_with_prefix(vs0, a);
        lemma_verts_with_prefix(vs1, b);
        lemma_verts_with_prefix(vs2, c);
        lemma_verts_with_contains(vs1, b, a);
        lemma_verts_with_contains(vs2, c, a);
        lemma_verts_with_contains(vs2, c, b);
    }
    let la = insert_vertex(&mut g.vertices, a);
    let lb = insert_vertex(&mut g.vertices, b);
    let lc = insert_vertex(&mut g.vertices, c);
    proof {
        assert(g@.vertices == vs3);
        assert(vs1.is_prefix_of(vs3)) by {
            assert(vs1 =~= vs3.subrange(0, vs1.len() as int));
        }
        assert(vs2.is_prefix_of(vs3)) by {
            assert(vs2 =~= vs3.subrange(0, vs2.len() as int));
        }
        lemma_first_index_of_prefix(vs1, vs3, a);
        lemma_first_index_of_prefix(vs2, vs3, b);
        lemma_first_index_of_props(vs3, a);
        lemma_first_index_of_props(vs3, b);
        lemma_first_index_of_props(vs3, c);
        assert(vs3.len() <= MAX_MESHLET_VERTICES);
    }
    let ghost cs0 = g@.corners;
    g.corners.push(la as u8);
    g.corners.push(lb as u8);
    g.corners.push(lc as u8);
    proof {
        assert(g@.corners =~= cs0 + seq![
            first_index_of(vs3, a) as u8,
            first_index_of(vs3, b) as u8,
            first_index_of(vs3, c) as u8,
        ]);
    }
}

/// Does triangle `(a, b, c)` fit into meshlet `g` under both caps?
fn triangle_fits(g: &MeshletGeometry, a: u32, b: u32, c: u32) -> (r: bool)
    requires
        g@.vertices.len() <= MAX_MESHLET_VERTICES,
    ensures
        r == tri_fits(g@, (a, b, c)),
{
    let ghost t = (a, b, c);
    let ghost vs = g@.vertices;
    let na: usize = if find_index(&g.vertices, a).is_none() {
        1
    } else {
        0
    };
    let nb: usize = if b != a && find_index(&g.vertices, b).is_none() {
        1
    } else {
        0
    };
    let nc: usize = if c != a && c != b && find_index(&g.vertices, c).is_none() {
        1
    } else {
        0
    };
    proof {
        lemma_verts_with_contains(vs, a, b);
        lemma_verts_with_contains(vs, a, c);
        lemma_verts_with_contains(verts_with(vs, a), b, c);
        assert(tri_verts(vs, t).len() == vs.len() + na + nb + nc);
    }
    let vertex_room = g.vertices.len() + na + nb + nc <= MAX_MESHLET_VERTICES as usize;
    let triangle_room = g.corners.len() / 3 + 1 <= MAX_MESHLET_TRIANGLES as usize;
    vertex_room && triangle_room
}

/// Start a fresh meshlet holding the single triangle `(a, b, c)`.
fn new_geometry(a: u32, b: u32, c: u32) -> (g: MeshletGeometry)
    ensures
        g@ == singleton_geom((a, b, c)),
{
    let mut g = MeshletGeometry { vertices: Vec::new(), corners: Vec::new() };
    proof {
        assert(g@ =~= empty_geom());
        lemma_tri_verts_prefix(empty_geom().vertices, (a, b, c));
    }
    add_triangle(&mut g, a, b, c);
    g
}

/// Partition the triangle list greedily into meshlets: walk the
/// cache-and-overdraw-optimized triangles in order (so consecutive,
/// spatially coherent triangles share meshlets) and place each into the
/// open meshlet while the 64-vertex and 124-triangle caps allow it,
/// otherwise seal it and open a new one. Every triangle lands in exactly
/// one meshlet, in its input position. The cone-culling weight of the
/// current scope is zero — disabled — so nothing besides the optimized
/// order and the two caps drives the clustering.
pub fn build_meshlets(indices: &Vec<u32>, vertex_count: usize) -> (r: Vec<MeshletGeometry>)
    requires
        indices@.len() % 3 == 0,
        forall|i: int| 0 <= i < indices@.len() ==> indices@[i] < vertex_count,
    ensures
        geoms_view(r@) == built_meshlets(triangle_list(indices@)),
        meshlets_wf(geoms_view(r@), vertex_count as int),
        meshlets_globals(geoms_view(r@)) == indices@,
        r@.len() <= indices@.len() / 3,
        indices@.len() > 0 ==> r@.len() >= 1,
{
    let ghost tris = triangle_list(indices@);
    let tri_count = indices.len() / 3;
    let mut done: Vec<MeshletGeometry> = Vec::new();
    let mut cur = MeshletGeometry { vertices: Vec::new(), corners: Vec::new() };
    let mut i: usize = 0;
    proof {
        assert forall|k: int|
            0 <= k < tris.len() implies (#[trigger] tris[k]).0 < vertex_count && tris[k].1
            < vertex_count && tris[k].2 < vertex_count by {
            assert(tris[k] == (indices@[3 * k], indices@[3 * k + 1], indices@[3 * k + 2]));
        }
    }
    while i < tri_count
        invariant
            i <= tri_count,
            tris == triangle_list(indices@),
            indices@.len() <= usize::MAX,
            indices@.len() % 3 == 0,
            tri_count == indices@.len() / 3,
            forall|k: int| 0 <= k < indices@.len() ==> indices@[k] < vertex_count,
            forall|k: int|
                0 <= k < tris.len() ==> (#[trigger] tris[k]).0 < vertex_count && tris[k].1
                    < vertex_count && tris[k].2 < vertex_count,
            i == 0 ==> done@.len() == 0,
            i > 0 ==> built_meshlets(tris.take(i as int)) == geoms_view(done@).push(cur@),
        decreases tri_count - i,
    {
        proof {
            assert(indices@.len() == 3 * tri_count) by {
                assert(indices@.len() == 3 * (indices@.len() / 3) + indices@.len() % 3);
            }
            assert(3 * (i + 1) <= 3 * tri_count);
        }
        let base = 3 * i;
        let a = indices[base];
        let b = indices[base + 1];
        let c = indices[base + 2];
        proof {
            assert(tris[i as int] == (a, b, c));
            assert(tris.take(i + 1).drop_last() =~= tris.take(i as int));
            assert(tris.take(i + 1).last() == tris[i as int]);
            lemma_built_meshlets_props(tris.take(i as int), vertex_count as int);
            if i > 0 {
                assert(built_meshlets(tris.take(i as int)).last() == cur@);
                assert(geom_wf(cur@, vertex_count as int));
                assert forall|k: int|
                    0 <= k < cur@.vertices.len() implies cur@.vertices[k] < u32::MAX as int
                    + 1 by {
                    assert(cur@.vertices[k] <= u32::MAX);
                }
                assert(geom_wf(cur@, u32::MAX as int + 1));
            }
        }
        if i == 0 {
            cur = new_geometry(a, b, c);
            proof {
                assert(geoms_view(done@) =~= Seq::<GeomView>::empty());
                assert(built_meshlets(tris.take(1)) =~= geoms_view(done@).push(cur@));
            }
        } else if triangle_fits(&cur, a, b, c) {
            let ghost before = built_meshlets(tris.take(i as int));
            add_triangle(&mut cur, a, b, c);
            proof {
                assert(built_meshlets(tris.take(i + 1)) == before.update(
                    before.len() - 1,
                    geom_push_tri(before.last(), (a, b, c)),
                ));
                assert(before.update(before.len() - 1, geom_push_tri(before.last(), (a, b, c)))
                    =~= geoms_view(done@).push(cur@));
            }
        } else {
            let ghost before = built_meshlets(tris.take(i as int));
            let ghost done0 = done@;
            done.push(cur);
            cur = new_geometry(a, b, c);
            proof {
                lemma_tri_verts_prefix(empty_geom().vertices, (a, b, c));
                assert(geoms_view(done@) =~= geoms_view(done0).push(before.last()));
                assert(built_meshlets(tris.take(i + 1)) == before.push(singleton_geom((a, b, c))));
                assert(before.push(singleton_geom((a, b, c))) =~= geoms_view(done@).push(cur@));
            }
        }
        i = i + 1;
    }
    proof {
        assert(tris.take(tri_count as int) =~= tris);
        lemma_built_meshlets_props(tris, vertex_count as int);
    }
    if tri_count > 0 {
        done.push(cur);
        proof {
            assert(geoms_view(done@) =~= built_meshlets(tris));
        }
    } else {
        proof {
            assert(indices@.len() == 0);
            assert(geoms_view(done@) =~= built_meshlets(tris));
        }
    }
    proof {
        crate::triangles::lemma_flatten_of_triangle_list(indices@);
    }
    done
}

} // verus!
