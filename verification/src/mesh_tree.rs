//! Connectivity of the active cell set: which face-adjacent active cells
//! form an edge, and which cells with two of their face neighbors form a
//! triangle of the surface net.
//!
//! The functions here work on the set of active cell keys alone; the caller
//! keeps whatever per-cell data (boxes, vertices) it derives from them.

use crate::key::collect_neighbor_keys;
use crate::key::component_neighbor_descriptors;
use crate::key::lemma_collect_neighbor_keys_contains;
use crate::key::spec_neighbor_key;
use crate::key::Key;
use crate::key::MortonKey;
use crate::key::Neighbor;
use vstd::prelude::*;

verus! {

/// Every key of the sequence is a well formed cell address.
pub open spec fn all_wf(s: Seq<MortonKey>) -> bool {
    forall|i: int| 0 <= i < s.len() ==> #[trigger] s[i].wf()
}

/// One of the six axis-aligned relations leads from `a` to `b`.
pub open spec fn face_adjacent(a: MortonKey, b: MortonKey) -> bool {
    exists|i: int|
        0 <= i < component_neighbor_descriptors().len() && spec_neighbor_key(
            a,
            component_neighbor_descriptors()[i],
        ) == Some(b)
}

/// No element of the sequence appears twice.
pub open spec fn distinct_seq<A>(s: Seq<A>) -> bool {
    forall|i: int, j: int| 0 <= i < j < s.len() ==> s[i] != s[j]
}

/// Appending to a sequence adds exactly the new element to its members.
proof fn lemma_push_contains<A>(s: Seq<A>, x: A, y: A)
    ensures
        s.push(x).contains(y) <==> s.contains(y) || y == x,
{
    if s.push(x).contains(y) {
        let i = choose|i: int| 0 <= i < s.push(x).len() && s.push(x)[i] == y;
        if i < s.len() {
            assert(s[i] == y);
        }
    }
    if s.contains(y) {
        let i = choose|i: int| 0 <= i < s.len() && s[i] == y;
        assert(s.push(x)[i] == y);
    }
    assert(s.push(x)[s.len() as int] == x);
}

/// Whether the active set holds this key.
fn contains_key(keys: &Vec<MortonKey>, k: MortonKey) -> (r: bool)
    ensures
        r == keys@.contains(k),
{
    let mut i: usize = 0;
    while i < keys.len()
        invariant
            i <= keys@.len(),
            forall|j: int| 0 <= j < i ==> keys@[j] != k,
        decreases keys@.len() - i,
    {
        if keys[i] == k {
            return true;
        }
        i = i + 1;
    }
    false
}

/// Whether the edge list holds this pair.
fn contains_edge(edges: &Vec<(MortonKey, MortonKey)>, e: (MortonKey, MortonKey)) -> (r: bool)
    ensures
        r == edges@.contains(e),
{
    let mut i: usize = 0;
    while i < edges.len()
        invariant
            i <= edges@.len(),
            forall|j: int| 0 <= j < i ==> edges@[j] != e,
        decreases edges@.len() - i,
    {
        if edges[i].0 == e.0 && edges[i].1 == e.1 {
            return true;
        }
        i = i + 1;
    }
    false
}

/// The edges of the surface net over the active cells: one pair for every
/// two face-adjacent active cells, held once, with the smaller key first.
pub fn generate_edge_set(keys: &Vec<MortonKey>) -> (edges: Vec<(MortonKey, MortonKey)>)
    requires
        all_wf(keys@),
    ensures
        forall|e: (MortonKey, MortonKey)| #[trigger]
            edges@.contains(e) ==> keys@.contains(e.0) && keys@.contains(e.1) && e.0.0 < e.1.0
                && face_adjacent(e.0, e.1),
        forall|a: MortonKey, b: MortonKey|
            keys@.contains(a) && keys@.contains(b) && face_adjacent(a, b) && a.0 < b.0
                ==> edges@.contains((a, b)),
        distinct_seq(edges@),
{
    let mut edges: Vec<(MortonKey, MortonKey)> = Vec::new();
    let mut i: usize = 0;
    while i < keys.len()
        invariant
            all_wf(keys@),
            i <= keys@.len(),
            forall|e: (MortonKey, MortonKey)| #[trigger]
                edges@.contains(e) ==> keys@.contains(e.0) && keys@.contains(e.1) && e.0.0 < e.1.0
                    && face_adjacent(e.0, e.1),
            forall|ia: int, b: MortonKey|
                0 <= ia < i && keys@.contains(b) && #[trigger] face_adjacent(keys@[ia], b)
                    && keys@[ia].0 < b.0 ==> edges@.contains((keys@[ia], b)),
            distinct_seq(edges@),
        decreases keys@.len() - i,
    {
        let key = keys[i];
        let neighbor_keys = key.component_neighbors();
        let ghost ds = component_neighbor_descriptors();
        let mut j: usize = 0;
        while j < neighbor_keys.len()
            invariant
                all_wf(keys@),
                i < keys@.len(),
                key == keys@[i as int],
                key.wf(),
                neighbor_keys@ == collect_neighbor_keys(key, ds),
                ds == component_neighbor_descriptors(),
                j <= neighbor_keys@.len(),
                forall|e: (MortonKey, MortonKey)| #[trigger]
                    edges@.contains(e) ==> keys@.contains(e.0) && keys@.contains(e.1) && e.0.0
                        < e.1.0 && face_adjacent(e.0, e.1),
                forall|ia: int, b: MortonKey|
                    0 <= ia < i && keys@.contains(b) && #[trigger] face_adjacent(keys@[ia], b)
                        && keys@[ia].0 < b.0 ==> edges@.contains((keys@[ia], b)),
                forall|jb: int|
                    0 <= jb < j && keys@.contains(#[trigger] neighbor_keys@[jb]) && key.0
                        < neighbor_keys@[jb].0 ==> edges@.contains((key, neighbor_keys@[jb])),
                distinct_seq(edges@),
            decreases neighbor_keys@.len() - j,
        {
            let n_k = neighbor_keys[j];
            if n_k.0 > key.0 && contains_key(keys, n_k) {
                proof {
                    assert(neighbor_keys@.contains(n_k));
                    lemma_collect_neighbor_keys_contains(key, ds, n_k);
                    assert(face_adjacent(key, n_k));
                    assert(keys@[i as int] == key);
                    assert(keys@.contains(key));
                }
                let e = (key, n_k);
                let ghost prior = edges@;
                if !contains_edge(&edges, e) {
                    edges.push(e);
                    proof {
                        assert forall|e2: (MortonKey, MortonKey)| #[trigger]
                            edges@.contains(e2) implies prior.contains(e2) || e2 == e by {
                            lemma_push_contains(prior, e, e2);
                        };
                        assert forall|e2: (MortonKey, MortonKey)|
                            prior.contains(e2) implies #[trigger] edges@.contains(e2) by {
                            lemma_push_contains(prior, e, e2);
                        };
                        assert forall|p: int, q: int|
                            0 <= p < q < edges@.len() implies edges@[p] != edges@[q] by {
                            if q == edges@.len() - 1 {
                                assert(edges@[p] == prior[p]);
                                assert(prior.contains(prior[p]));
                                assert(!prior.contains(e));
                            } else {
                                assert(edges@[p] == prior[p]);
                                assert(edges@[q] == prior[q]);
                            }
                        };
                    }
                }
                proof {
                    if !prior.contains(e) {
                        assert(edges@[edges@.len() - 1] == e);
                    }
                    assert(edges@.contains(e));
                }
            }
            j = j + 1;
        }
        proof {
            // every face-adjacent greater active partner of `key` was seen as
            // one of its collected neighbor keys
            assert forall|b: MortonKey|
                keys@.contains(b) && face_adjacent(key, b) && key.0 < b.0 implies edges@.contains(
                (key, b),
            ) by {
                lemma_collect_neighbor_keys_contains(key, ds, b);
                assert(neighbor_keys@.contains(b));
                let jb = choose|jb: int|
                    0 <= jb < neighbor_keys@.len() && neighbor_keys@[jb] == b;
                assert(keys@.contains(neighbor_keys@[jb]));
            };
        }
        i = i + 1;
    }
    edges
}

/// The face neighbor of `k` in direction `i` (one of the six axis-aligned
/// relations), provided that cell exists and is active.
pub open spec fn spec_face_key(keys: Seq<MortonKey>, k: MortonKey, i: int) -> Option<MortonKey> {
    match spec_neighbor_key(k, component_neighbor_descriptors()[i]) {
        Some(n) => if keys.contains(n) {
            Some(n)
        } else {
            None
        },
        None => None,
    }
}

/// Three keys in ascending order of their values.
pub open spec fn sort3_keys(a: MortonKey, b: MortonKey, c: MortonKey) -> (
    MortonKey,
    MortonKey,
    MortonKey,
) {
    let x = if a.0 <= b.0 {
        a
    } else {
        b
    };
    let y = if a.0 <= b.0 {
        b
    } else {
        a
    };
    let y2 = if y.0 <= c.0 {
        y
    } else {
        c
    };
    let z2 = if y.0 <= c.0 {
        c
    } else {
        y
    };
    let x3 = if x.0 <= y2.0 {
        x
    } else {
        y2
    };
    let y3 = if x.0 <= y2.0 {
        y2
    } else {
        x
    };
    (x3, y3, z2)
}

/// The pairs of face-neighbor directions that form a triangle with the cell
/// itself; a fixed policy table, kept as the mesh's triangulation rule.
pub open spec fn triangle_pair_table() -> Seq<(int, int)> {
    seq![(0, 1), (0, 3), (0, 5), (1, 3), (1, 5), (2, 4), (3, 4), (4, 5)]
}

/// The canonical triangle that directions `i` and `j` form at `k`, where
/// both face neighbors exist and are active: the three keys in ascending
/// order.
pub open spec fn spec_triangle(keys: Seq<MortonKey>, k: MortonKey, i: int, j: int) -> Option<
    (MortonKey, MortonKey, MortonKey),
> {
    if spec_face_key(keys, k, i) is Some && spec_face_key(keys, k, j) is Some {
        Some(sort3_keys(k, spec_face_key(keys, k, i)->0, spec_face_key(keys, k, j)->0))
    } else {
        None
    }
}

/// Whether `t` is a triangle of the surface net over the active cells: some
/// active cell and one of the table's direction pairs produce it.
pub open spec fn spec_triangle_of(keys: Seq<MortonKey>, t: (MortonKey, MortonKey, MortonKey)) -> bool {
    exists|ik: int, p: int|
        0 <= ik < keys.len() && 0 <= p < triangle_pair_table().len() && spec_triangle(
            keys,
            keys[ik],
            triangle_pair_table()[p].0,
            triangle_pair_table()[p].1,
        ) == Some(t)
}

/// Whether the triangle list holds this triple.
fn contains_triangle(
    triangle_set: &Vec<(MortonKey, MortonKey, MortonKey)>,
    t: (MortonKey, MortonKey, MortonKey),
) -> (r: bool)
    ensures
        r == triangle_set@.contains(t),
{
    let mut i: usize = 0;
    while i < triangle_set.len()
        invariant
            i <= triangle_set@.len(),
            forall|j: int| 0 <= j < i ==> triangle_set@[j] != t,
        decreases triangle_set@.len() - i,
    {
        if triangle_set[i].0 == t.0 && triangle_set[i].1 == t.1 && triangle_set[i].2 == t.2 {
            return true;
        }
        i = i + 1;
    }
    false
}

/// Sort three keys in ascending order of their values.
fn sort_triangle(a: MortonKey, b: MortonKey, c: MortonKey) -> (r: (
    MortonKey,
    MortonKey,
    MortonKey,
))
    ensures
        r == sort3_keys(a, b, c),
        r.0.0 <= r.1.0 && r.1.0 <= r.2.0,
{
    let (x, y) = if a.0 <= b.0 {
        (a, b)
    } else {
        (b, a)
    };
    let (y2, z2) = if y.0 <= c.0 {
        (y, c)
    } else {
        (c, y)
    };
    let (x3, y3) = if x.0 <= y2.0 {
        (x, y2)
    } else {
        (y2, x)
    };
    (x3, y3, z2)
}

/// Add the triangle of one table pair at `vertex_key`, if both face
/// neighbors are present and the triangle is not already held.
fn add_pair_triangle(
    maybe_neighbors: &Vec<Option<MortonKey>>,
    vertex_key: MortonKey,
    ia: usize,
    ib: usize,
    triangle_set: &mut Vec<(MortonKey, MortonKey, MortonKey)>,
    Ghost(keys): Ghost<Seq<MortonKey>>,
)
    requires
        ia < 6,
        ib < 6,
        maybe_neighbors@.len() == 6,
        forall|q: int| 0 <= q < 6 ==> maybe_neighbors@[q] == spec_face_key(keys, vertex_key, q),
        distinct_seq(old(triangle_set)@),
    ensures
        forall|t: (MortonKey, MortonKey, MortonKey)| #[trigger]
            final(triangle_set)@.contains(t) <==> old(triangle_set)@.contains(t) || spec_triangle(
                keys,
                vertex_key,
                ia as int,
                ib as int,
            ) == Some(t),
        distinct_seq(final(triangle_set)@),
{
    match (maybe_neighbors[ia], maybe_neighbors[ib]) {
        (Some(key_1), Some(key_2)) => {
            let t = sort_triangle(vertex_key, key_1, key_2);
            let ghost prior = triangle_set@;
            if !contains_triangle(triangle_set, t) {
                triangle_set.push(t);
                proof {
                    assert forall|t2: (MortonKey, MortonKey, MortonKey)| #[trigger]
                        triangle_set@.contains(t2) <==> prior.contains(t2) || t2 == t by {
                        lemma_push_contains(prior, t, t2);
                    };
                    assert forall|p: int, q: int|
                        0 <= p < q < triangle_set@.len() implies triangle_set@[p]
                        != triangle_set@[q] by {
                        if q == triangle_set@.len() - 1 {
                            assert(triangle_set@[p] == prior[p]);
                            assert(prior.contains(prior[p]));
                        } else {
                            assert(triangle_set@[p] == prior[p]);
                            assert(triangle_set@[q] == prior[q]);
                        }
                    };
                }
            }
            proof {
                assert(spec_triangle(keys, vertex_key, ia as int, ib as int) == Some(t));
                if !prior.contains(t) {
                    assert(triangle_set@[triangle_set@.len() - 1] == t);
                }
                assert(triangle_set@.contains(t));
            }
        },
        _ => {
            proof {
                assert(spec_triangle(keys, vertex_key, ia as int, ib as int) is None);
            }
        },
    }
}

/// Add every triangle that the pair table forms at `vertex_key` from its
/// present face neighbors; triangles already held are not added again.
pub fn add_vertex_triangles(
    keys: &Vec<MortonKey>,
    vertex_key: MortonKey,
    triangle_set: &mut Vec<(MortonKey, MortonKey, MortonKey)>,
)
    requires
        all_wf(keys@),
        vertex_key.wf(),
        distinct_seq(old(triangle_set)@),
    ensures
        forall|t: (MortonKey, MortonKey, MortonKey)| #[trigger]
            final(triangle_set)@.contains(t) <==> old(triangle_set)@.contains(t) || exists|p: int|
                0 <= p < triangle_pair_table().len() && spec_triangle(
                    keys@,
                    vertex_key,
                    triangle_pair_table()[p].0,
                    triangle_pair_table()[p].1,
                ) == Some(t),
        distinct_seq(final(triangle_set)@),
{
    let ds = Neighbor::component_neighbors();
    let mut maybe_neighbors: Vec<Option<MortonKey>> = Vec::new();
    let mut j: usize = 0;
    while j < ds.len()
        invariant
            all_wf(keys@),
            vertex_key.wf(),
            ds@ == component_neighbor_descriptors(),
            j <= 6,
            maybe_neighbors@.len() == j,
            forall|q: int|
                0 <= q < j ==> maybe_neighbors@[q] == spec_face_key(keys@, vertex_key, q),
        decreases ds@.len() - j,
    {
        let mn: Option<MortonKey> = match vertex_key.neighbor_key(ds[j]) {
            Some(neighbor_key) => {
                if contains_key(keys, neighbor_key) {
                    Some(neighbor_key)
                } else {
                    None
                }
            },
            None => None,
        };
        maybe_neighbors.push(mn);
        j = j + 1;
    }

    let ghost table = triangle_pair_table();
    let ghost before = triangle_set@;
    add_pair_triangle(&maybe_neighbors, vertex_key, 0, 1, triangle_set, Ghost(keys@));
    add_pair_triangle(&maybe_neighbors, vertex_key, 0, 3, triangle_set, Ghost(keys@));
    add_pair_triangle(&maybe_neighbors, vertex_key, 0, 5, triangle_set, Ghost(keys@));
    add_pair_triangle(&maybe_neighbors, vertex_key, 1, 3, triangle_set, Ghost(keys@));
    add_pair_triangle(&maybe_neighbors, vertex_key, 1, 5, triangle_set, Ghost(keys@));
    add_pair_triangle(&maybe_neighbors, vertex_key, 2, 4, triangle_set, Ghost(keys@));
    add_pair_triangle(&maybe_neighbors, vertex_key, 3, 4, triangle_set, Ghost(keys@));
    add_pair_triangle(&maybe_neighbors, vertex_key, 4, 5, triangle_set, Ghost(keys@));

    proof {
        assert(table[0] == (0int, 1int));
        assert(table[1] == (0int, 3int));
        assert(table[2] == (0int, 5int));
        assert(table[3] == (1int, 3int));
        assert(table[4] == (1int, 5int));
        assert(table[5] == (2int, 4int));
        assert(table[6] == (3int, 4int));
        assert(table[7] == (4int, 5int));
        assert forall|t: (MortonKey, MortonKey, MortonKey)| #[trigger]
            triangle_set@.contains(t) implies before.contains(t) || exists|p: int|
            0 <= p < table.len() && spec_triangle(keys@, vertex_key, table[p].0, table[p].1)
                == Some(t) by {
            if !before.contains(t) {
                if spec_triangle(keys@, vertex_key, 0, 1) == Some(t) {
                    assert(spec_triangle(keys@, vertex_key, table[0].0, table[0].1) == Some(t));
                } else if spec_triangle(keys@, vertex_key, 0, 3) == Some(t) {
                    assert(spec_triangle(keys@, vertex_key, table[1].0, table[1].1) == Some(t));
                } else if spec_triangle(keys@, vertex_key, 0, 5) == Some(t) {
                    assert(spec_triangle(keys@, vertex_key, table[2].0, table[2].1) == Some(t));
                } else if spec_triangle(keys@, vertex_key, 1, 3) == Some(t) {
                    assert(spec_triangle(keys@, vertex_key, table[3].0, table[3].1) == Some(t));
                } else if spec_triangle(keys@, vertex_key, 1, 5) == Some(t) {
                    assert(spec_triangle(keys@, vertex_key, table[4].0, table[4].1) == Some(t));
                } else if spec_triangle(keys@, vertex_key, 2, 4) == Some(t) {
                    assert(spec_triangle(keys@, vertex_key, table[5].0, table[5].1) == Some(t));
                } else if spec_triangle(keys@, vertex_key, 3, 4) == Some(t) {
                    assert(spec_triangle(keys@, vertex_key, table[6].0, table[6].1) == Some(t));
                } else {
                    assert(spec_triangle(keys@, vertex_key, 4, 5) == Some(t));
                    assert(spec_triangle(keys@, vertex_key, table[7].0, table[7].1) == Some(t));
                }
            }
        };
        assert forall|t: (MortonKey, MortonKey, MortonKey)|
            before.contains(t) || exists|p: int|
                0 <= p < table.len() && spec_triangle(keys@, vertex_key, table[p].0, table[p].1)
                    == Some(t) implies #[trigger] triangle_set@.contains(t) by {
            if !before.contains(t) {
                let p = choose|p: int|
                    0 <= p < table.len() && spec_triangle(
                        keys@,
                        vertex_key,
                        table[p].0,
                        table[p].1,
                    ) == Some(t);
                if p == 0 {
                    assert(spec_triangle(keys@, vertex_key, 0, 1) == Some(t));
                } else if p == 1 {
                    assert(spec_triangle(keys@, vertex_key, 0, 3) == Some(t));
                } else if p == 2 {
                    assert(spec_triangle(keys@, vertex_key, 0, 5) == Some(t));
                } else if p == 3 {
                    assert(spec_triangle(keys@, vertex_key, 1, 3) == Some(t));
                } else if p == 4 {
                    assert(spec_triangle(keys@, vertex_key, 1, 5) == Some(t));
                } else if p == 5 {
                    assert(spec_triangle(keys@, vertex_key, 2, 4) == Some(t));
                } else if p == 6 {
                    assert(spec_triangle(keys@, vertex_key, 3, 4) == Some(t));
                } else {
                    assert(spec_triangle(keys@, vertex_key, 4, 5) == Some(t));
                }
            }
        };
    }
}

/// The triangles of the surface net over the active cells: for every active
/// cell, each triangle the pair table forms from its present face neighbors,
/// canonicalized by sorting and held once.
pub fn generate_triangle_set(keys: &Vec<MortonKey>) -> (triangle_set: Vec<
    (MortonKey, MortonKey, MortonKey),
>)
    requires
        all_wf(keys@),
    ensures
        forall|t: (MortonKey, MortonKey, MortonKey)| #[trigger]
            triangle_set@.contains(t) <==> spec_triangle_of(keys@, t),
        forall|t: (MortonKey, MortonKey, MortonKey)| #[trigger]
            triangle_set@.contains(t) ==> keys@.contains(t.0) && keys@.contains(t.1)
                && keys@.contains(t.2) && t.0.0 <= t.1.0 && t.1.0 <= t.2.0,
        distinct_seq(triangle_set@),
{
    let mut triangle_set: Vec<(MortonKey, MortonKey, MortonKey)> = Vec::new();
    let mut i: usize = 0;
    while i < keys.len()
        invariant
            all_wf(keys@),
            i <= keys@.len(),
            forall|t: (MortonKey, MortonKey, MortonKey)| #[trigger]
                triangle_set@.contains(t) <==> exists|ik: int, p: int|
                    0 <= ik < i && 0 <= p < triangle_pair_table().len() && spec_triangle(
                        keys@,
                        keys@[ik],
                        triangle_pair_table()[p].0,
                        triangle_pair_table()[p].1,
                    ) == Some(t),
            distinct_seq(triangle_set@),
        decreases keys@.len() - i,
    {
        let key = keys[i];
        let ghost prior = triangle_set@;
        add_vertex_triangles(keys, key, &mut triangle_set);
        proof {
            assert forall|t: (MortonKey, MortonKey, MortonKey)| #[trigger]
                triangle_set@.contains(t) implies exists|ik: int, p: int|
                0 <= ik < i + 1 && 0 <= p < triangle_pair_table().len() && spec_triangle(
                    keys@,
                    keys@[ik],
                    triangle_pair_table()[p].0,
                    triangle_pair_table()[p].1,
                ) == Some(t) by {
                if !prior.contains(t) {
                    assert(keys@[i as int] == key);
                }
            };
            assert forall|t: (MortonKey, MortonKey, MortonKey)|
                (exists|ik: int, p: int|
                    0 <= ik < i + 1 && 0 <= p < triangle_pair_table().len() && spec_triangle(
                        keys@,
                        keys@[ik],
                        triangle_pair_table()[p].0,
                        triangle_pair_table()[p].1,
                    ) == Some(t)) implies #[trigger] triangle_set@.contains(t) by {
                let (ik, p) = choose|ik: int, p: int|
                    0 <= ik < i + 1 && 0 <= p < triangle_pair_table().len() && spec_triangle(
                        keys@,
                        keys@[ik],
                        triangle_pair_table()[p].0,
                        triangle_pair_table()[p].1,
                    ) == Some(t);
                if ik < i {
                    assert(prior.contains(t));
                } else {
                    assert(keys@[ik] == key);
                }
            };
        }
        i = i + 1;
    }
    proof {
        assert forall|t: (MortonKey, MortonKey, MortonKey)| #[trigger]
            triangle_set@.contains(t) implies keys@.contains(t.0) && keys@.contains(t.1)
            && keys@.contains(t.2) && t.0.0 <= t.1.0 && t.1.0 <= t.2.0 by {
            let (ik, p) = choose|ik: int, p: int|
                0 <= ik < keys@.len() && 0 <= p < triangle_pair_table().len() && spec_triangle(
                    keys@,
                    keys@[ik],
                    triangle_pair_table()[p].0,
                    triangle_pair_table()[p].1,
                ) == Some(t);
            let k = keys@[ik];
            assert(keys@.contains(k));
        };
    }
    triangle_set
}

} // verus!
