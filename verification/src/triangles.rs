use vstd::prelude::*;

verus! {

/// Corner `k` (0, 1 or 2) of triangle `t`.
pub open spec fn tri_corner(t: (u32, u32, u32), k: int) -> u32 {
    if k == 0 {
        t.0
    } else if k == 1 {
        t.1
    } else {
        t.2
    }
}

/// The triangles of a flat index list, three consecutive indices each.
pub open spec fn triangle_list(s: Seq<u32>) -> Seq<(u32, u32, u32)> {
    Seq::new(s.len() / 3, |i: int| (s[3 * i], s[3 * i + 1], s[3 * i + 2]))
}

/// A triangle list written back as a flat index list.
pub open spec fn flatten_triangles(ts: Seq<(u32, u32, u32)>) -> Seq<u32> {
    Seq::new(3 * ts.len(), |i: int| tri_corner(ts[i / 3], i % 3))
}

pub proof fn lemma_triangle_list_of_flatten(ts: Seq<(u32, u32, u32)>)
    ensures
        triangle_list(flatten_triangles(ts)) == ts,
{
    let f = flatten_triangles(ts);
    assert(f.len() == 3 * ts.len());
    assert(f.len() / 3 == ts.len());
    assert forall|i: int| 0 <= i < ts.len() implies #[trigger] triangle_list(f)[i] == ts[i] by {
        assert(f[3 * i] == tri_corner(ts[3 * i / 3], (3 * i) % 3));
        assert(3 * i / 3 == i && (3 * i) % 3 == 0);
        assert((3 * i + 1) / 3 == i && (3 * i + 1) % 3 == 1);
        assert((3 * i + 2) / 3 == i && (3 * i + 2) % 3 == 2);
    }
    assert(triangle_list(f) =~= ts);
}

pub proof fn lemma_flatten_of_triangle_list(s: Seq<u32>)
    requires
        s.len() % 3 == 0,
    ensures
        flatten_triangles(triangle_list(s)) == s,
{
    let ts = triangle_list(s);
    assert(3 * (s.len() / 3) == s.len());
    assert forall|i: int| 0 <= i < s.len() implies #[trigger] flatten_triangles(ts)[i] == s[i] by {
        assert(flatten_triangles(ts)[i] == tri_corner(ts[i / 3], i % 3));
        assert(0 <= i / 3 < ts.len());
        assert(ts[i / 3] == (s[3 * (i / 3)], s[3 * (i / 3) + 1], s[3 * (i / 3) + 2]));
        assert(3 * (i / 3) + i % 3 == i);
    }
    assert(flatten_triangles(ts) =~= s);
}

/// Mapping a function over two sequences that hold the same elements,
/// with multiplicity, yields sequences that hold the same mapped
/// elements.
pub proof fn lemma_map_values_multiset<A, B>(s1: Seq<A>, s2: Seq<A>, f: spec_fn(A) -> B)
    requires
        s1.to_multiset() == s2.to_multiset(),
    ensures
        s1.map_values(f).to_multiset() == s2.map_values(f).to_multiset(),
    decreases s1.len(),
{
    s1.to_multiset_ensures();
    s2.to_multiset_ensures();
    if s1.len() == 0 {
        assert(s2.len() == 0);
        assert(s1 =~= s2);
    } else {
        let t = s1.last();
        assert(s1[s1.len() - 1] == t);
        assert(s1.contains(t));
        assert(s1.to_multiset().count(t) > 0);
        assert(s2.to_multiset().count(t) > 0);
        assert(s2.contains(t));
        let j = choose|j: int| 0 <= j < s2.len() && s2[j] == t;
        assert(s1.remove(s1.len() - 1) =~= s1.drop_last());
        assert(s1.drop_last().to_multiset() == s1.to_multiset().remove(t));
        assert(s2.remove(j).to_multiset() == s2.to_multiset().remove(t));
        lemma_map_values_multiset(s1.drop_last(), s2.remove(j), f);
        assert(s1.map_values(f) =~= s1.drop_last().map_values(f).push(f(t)));
        assert(s2.remove(j).map_values(f) =~= s2.map_values(f).remove(j));
        s1.drop_last().map_values(f).to_multiset_ensures();
        assert(s1.map_values(f).to_multiset() == s1.drop_last().map_values(f).to_multiset().insert(
            f(t),
        ));
        s2.map_values(f).to_multiset_ensures();
        assert(s2.map_values(f)[j] == f(t));
        assert(s2.map_values(f).remove(j).to_multiset() == s2.map_values(f).to_multiset().remove(
            f(t),
        ));
        assert(s2.map_values(f).contains(f(t)));
        assert(s1.map_values(f).to_multiset() =~= s2.map_values(f).to_multiset());
    }
}

pub proof fn lemma_flatten_push(ts: Seq<(u32, u32, u32)>, t: (u32, u32, u32))
    ensures
        flatten_triangles(ts.push(t)) == flatten_triangles(ts) + seq![t.0, t.1, t.2],
{
    let lhs = flatten_triangles(ts.push(t));
    let rhs = flatten_triangles(ts) + seq![t.0, t.1, t.2];
    assert(lhs.len() == rhs.len());
    assert forall|i: int| 0 <= i < lhs.len() implies lhs[i] == rhs[i] by {
        if i < 3 * ts.len() {
            assert(0 <= i / 3 < ts.len());
            assert(ts.push(t)[i / 3] == ts[i / 3]);
        } else {
            assert(i / 3 == ts.len() && i % 3 == i - 3 * ts.len());
            assert(ts.push(t)[i / 3] == t);
        }
    }
    assert(lhs =~= rhs);
}

} // verus!
