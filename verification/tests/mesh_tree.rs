use implicit_mesh::key::Key;
use implicit_mesh::key::MortonKey;
use implicit_mesh::mesh_tree::generate_edge_set;
use implicit_mesh::mesh_tree::generate_triangle_set;

#[test]
fn edge_set_of_two_face_adjacent_cells() {
    // depth-1 cells (0,0,0) and (1,0,0): one edge, smaller key first
    let a = MortonKey::from_components(0, 0, 0, 1);
    let b = MortonKey::from_components(1, 0, 0, 1);
    assert_eq!(a.0, 0b1000);
    assert_eq!(b.0, 0b1100);
    let edges = generate_edge_set(&vec![b, a]);
    assert_eq!(edges, vec![(a, b)]);
}

#[test]
fn edge_set_skips_non_adjacent_cells() {
    // depth-2 cells (0,0,0) and (2,0,0) share no face
    let a = MortonKey::from_components(0, 0, 0, 2);
    let b = MortonKey::from_components(2, 0, 0, 2);
    let edges = generate_edge_set(&vec![a, b]);
    assert!(edges.is_empty());
}

#[test]
fn edge_set_ignores_diagonal_neighbors() {
    // depth-1 cells (0,0,0) and (1,1,0) touch only along an edge, not a face
    let a = MortonKey::from_components(0, 0, 0, 1);
    let b = MortonKey::from_components(1, 1, 0, 1);
    let edges = generate_edge_set(&vec![a, b]);
    assert!(edges.is_empty());
}

#[test]
fn edge_set_references_only_active_keys() {
    let keys = vec![
        MortonKey::from_components(1, 1, 1, 2),
        MortonKey::from_components(1, 1, 0, 2),
        MortonKey::from_components(1, 0, 1, 2),
        MortonKey::from_components(2, 1, 1, 2),
    ];
    let edges = generate_edge_set(&keys);
    assert_eq!(edges.len(), 3);
    for (a, b) in &edges {
        assert!(keys.contains(a));
        assert!(keys.contains(b));
        assert!(a.0 < b.0);
    }
}

#[test]
fn triangle_set_of_opposite_z_pair() {
    // the pair table joins the z-down and z-up neighbors of a cell into one
    // triangle, canonicalized in ascending key order
    let center = MortonKey::from_components(1, 1, 1, 2);
    let below = MortonKey::from_components(1, 1, 0, 2);
    let above = MortonKey::from_components(1, 1, 2, 2);
    assert_eq!(below.0, 70);
    assert_eq!(center.0, 71);
    assert_eq!(above.0, 78);
    let triangles = generate_triangle_set(&vec![center, below, above]);
    assert_eq!(triangles, vec![(below, center, above)]);
}

#[test]
fn triangle_set_references_only_active_keys() {
    let keys = vec![
        MortonKey::from_components(1, 1, 1, 2),
        MortonKey::from_components(1, 1, 0, 2),
        MortonKey::from_components(1, 2, 1, 2),
        MortonKey::from_components(0, 1, 1, 2),
    ];
    let triangles = generate_triangle_set(&keys);
    assert!(!triangles.is_empty());
    for t in &triangles {
        assert!(keys.contains(&t.0));
        assert!(keys.contains(&t.1));
        assert!(keys.contains(&t.2));
        assert!(t.0 .0 <= t.1 .0 && t.1 .0 <= t.2 .0);
    }
    // discovered once even though several cells could produce it
    for i in 0..triangles.len() {
        for j in 0..i {
            assert_ne!(triangles[i], triangles[j]);
        }
    }
}

#[test]
fn triangle_set_empty_without_neighbor_pairs() {
    // a single active cell has no face neighbors, so no triangles
    let keys = vec![MortonKey::root_key()];
    let triangles = generate_triangle_set(&keys);
    assert!(triangles.is_empty());
}
