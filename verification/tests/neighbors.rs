use implicit_mesh::cell_keys::neighbors::Neighbor;
use implicit_mesh::cell_keys::neighbors::NeighborRelation;

#[test]
fn neighbors_neighbors_and_order() {
    let mut neighbors: Vec<Neighbor> = Neighbor::component_neighbors();
    neighbors.sort();
    assert_eq!(
        neighbors,
        vec![
            Neighbor {
                x: NeighborRelation::Less,
                y: NeighborRelation::Same,
                z: NeighborRelation::Same,
            },
            Neighbor {
                x: NeighborRelation::Same,
                y: NeighborRelation::Less,
                z: NeighborRelation::Same,
            },
            Neighbor {
                x: NeighborRelation::Same,
                y: NeighborRelation::Same,
                z: NeighborRelation::Less,
            },
            Neighbor {
                x: NeighborRelation::Same,
                y: NeighborRelation::Same,
                z: NeighborRelation::More,
            },
            Neighbor {
                x: NeighborRelation::Same,
                y: NeighborRelation::More,
                z: NeighborRelation::Same,
            },
            Neighbor {
                x: NeighborRelation::More,
                y: NeighborRelation::Same,
                z: NeighborRelation::Same,
            },
        ]
    );

    let mut neighbors: Vec<Neighbor> = Neighbor::all_neighbors();
    neighbors.sort();

    let mut expected = Vec::new();
    for x in [
        NeighborRelation::Less,
        NeighborRelation::Same,
        NeighborRelation::More,
    ] {
        for y in [
            NeighborRelation::Less,
            NeighborRelation::Same,
            NeighborRelation::More,
        ] {
            for z in [
                NeighborRelation::Less,
                NeighborRelation::Same,
                NeighborRelation::More,
            ] {
                if !(x == NeighborRelation::Same
                    && y == NeighborRelation::Same
                    && z == NeighborRelation::Same)
                {
                    expected.push(Neighbor { x, y, z });
                }
            }
        }
    }
    assert_eq!(neighbors, expected);
    assert_eq!(neighbors.len(), 26);
}

#[test]
fn from_components_builds_the_relation() {
    let n = Neighbor::from_components(
        NeighborRelation::Less,
        NeighborRelation::Same,
        NeighborRelation::More,
    );
    assert_eq!(n.x, NeighborRelation::Less);
    assert_eq!(n.y, NeighborRelation::Same);
    assert_eq!(n.z, NeighborRelation::More);
}
