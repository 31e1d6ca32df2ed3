use implicit_mesh::key::Key;
use implicit_mesh::key::MortonKey;
use implicit_mesh::key::Neighbor;
use implicit_mesh::key::NeighborRelation;
use implicit_mesh::key::COMPONENT_BIT_COUNT;

#[test]
fn level() {
    let mut k = MortonKey::root_key();
    assert_eq!(k.level(), 0);
    for i in 0..16 {
        k = k.child_key(4);
        assert_eq!(k.level(), i + 1);
    }

    let mut k = MortonKey::root_key();
    assert_eq!(k.level(), 0);
    for i in 0..16 {
        k = k.child_key(i % 8);
        assert_eq!(k.level(), (i + 1) as u32);
    }
}

#[test]
fn get_x() {
    let mut k = MortonKey::root_key();
    for _i in 0..5 {
        k = k.child_key(4);
    }
    let x = k.get_component(0);
    assert_eq!(x, (2u32.pow(5) - 1) as u32);

    k = MortonKey::root_key();
    for _i in 0..COMPONENT_BIT_COUNT {
        k = k.child_key(4);
    }
    let x = k.get_component(0);
    assert_eq!(x, (2u32.pow(COMPONENT_BIT_COUNT) - 1) as u32);
}

#[test]
fn get_y() {
    let mut k = MortonKey::root_key();
    for _i in 0..5 {
        k = k.child_key(2);
    }
    let y = k.get_component(1);
    assert_eq!(y, (2u32.pow(5) - 1) as u32);

    k = MortonKey::root_key();
    for _i in 0..COMPONENT_BIT_COUNT {
        k = k.child_key(2);
    }
    let y = k.get_component(1);
    assert_eq!(y, (2u32.pow(COMPONENT_BIT_COUNT) - 1) as u32);
}

#[test]
fn get_z() {
    let mut k = MortonKey::root_key();
    for _i in 0..5 {
        k = k.child_key(1);
    }
    let z = k.get_component(2);
    assert_eq!(z, (2u32.pow(5) - 1) as u32);

    k = MortonKey::root_key();
    for _i in 0..COMPONENT_BIT_COUNT {
        k = k.child_key(1);
    }
    let z = k.get_component(2);
    assert_eq!(z, (2u32.pow(COMPONENT_BIT_COUNT) - 1) as u32);
}

#[test]
fn get_all() {
    let mut k = MortonKey::root_key();
    for _i in 0..7 {
        k = k.child_key(7);
    }
    let x = k.get_component(0);
    let y = k.get_component(1);
    let z = k.get_component(2);
    assert_eq!(x, (2u32.pow(7) - 1) as u32);
    assert_eq!(y, (2u32.pow(7) - 1) as u32);
    assert_eq!(z, (2u32.pow(7) - 1) as u32);

    k = MortonKey::root_key();
    for _i in 0..16 {
        k = k.child_key(7);
    }
    let x = k.get_component(0);
    let y = k.get_component(1);
    let z = k.get_component(2);
    assert_eq!(x, (2u32.pow(16) - 1) as u32);
    assert_eq!(y, (2u32.pow(16) - 1) as u32);
    assert_eq!(z, (2u32.pow(16) - 1) as u32);
}

#[test]
fn get_mix() {
    let mut k = MortonKey::root_key();
    for i in 0..16 {
        k = k.child_key(i % 8)
    }
    let x = k.get_component(0);
    let y = k.get_component(1);
    let z = k.get_component(2);
    assert_eq!(x, 0b0000111100001111);
    assert_eq!(y, 0b0011001100110011);
    assert_eq!(z, 0b0101010101010101);

    let mut k = MortonKey::root_key();
    for i in 0..16 {
        k = k.child_key((i % 4) + 3)
    }
    let x = k.get_component(0);
    let y = k.get_component(1);
    let z = k.get_component(2);
    assert_eq!(x, 0b0111011101110111);
    assert_eq!(y, 0b1001100110011001);
    assert_eq!(z, 0b1010101010101010);
}

#[test]
fn dilate_ones() {
    let mut component = 0;
    let mut expected_dilated_component = 0;

    let mut dilated_component = MortonKey::dilate_component(component);
    assert_eq!(
        dilated_component, expected_dilated_component,
        "Failed at component << 0"
    );
    for i in 0..COMPONENT_BIT_COUNT {
        component = 1 | component << 1;
        expected_dilated_component = 1 | expected_dilated_component << 3;

        dilated_component = MortonKey::dilate_component(component);
        assert_eq!(
            dilated_component,
            expected_dilated_component,
            "Failed at component << {}",
            i + 1
        );
    }
}

#[test]
fn from_components() {
    let x = 0;
    let y = 0;
    let z = 0;
    let level = 0;

    let key = MortonKey::from_components(x, y, z, level);
    assert_eq!(key, MortonKey::root_key());

    let x = 0b1101010;
    let y = 0b0011010;
    let z = 0b0101011;
    let level = 7;

    let key = MortonKey::from_components(x, y, z, level);
    assert_eq!(key.0, 0b1100101010111000111001);
}

#[test]
fn get_root_neighbors() {
    let key = MortonKey::root_key();

    // All same returns self
    assert_eq!(
        key.neighbor_key(Neighbor {
            x: NeighborRelation::Same,
            y: NeighborRelation::Same,
            z: NeighborRelation::Same
        }),
        Some(MortonKey::root_key())
    );

    // Root overflows for x
    assert_eq!(
        key.neighbor_key(Neighbor {
            x: NeighborRelation::Less,
            y: NeighborRelation::Same,
            z: NeighborRelation::Same
        }),
        None
    );
    assert_eq!(
        key.neighbor_key(Neighbor {
            x: NeighborRelation::More,
            y: NeighborRelation::Same,
            z: NeighborRelation::Same
        }),
        None
    );
    // Root overflows for y
    assert_eq!(
        key.neighbor_key(Neighbor {
            x: NeighborRelation::Same,
            y: NeighborRelation::Less,
            z: NeighborRelation::Same
        }),
        None
    );
    assert_eq!(
        key.neighbor_key(Neighbor {
            x: NeighborRelation::Same,
            y: NeighborRelation::More,
            z: NeighborRelation::Same
        }),
        None
    );
    // Root overflows for z
    assert_eq!(
        key.neighbor_key(Neighbor {
            x: NeighborRelation::Same,
            y: NeighborRelation::Same,
            z: NeighborRelation::Less
        }),
        None
    );
    assert_eq!(
        key.neighbor_key(Neighbor {
            x: NeighborRelation::Same,
            y: NeighborRelation::Same,
            z: NeighborRelation::More
        }),
        None
    );

    // Misc
    assert_eq!(
        key.neighbor_key(Neighbor {
            x: NeighborRelation::Less,
            y: NeighborRelation::More,
            z: NeighborRelation::Less
        }),
        None
    );
    assert_eq!(
        key.neighbor_key(Neighbor {
            x: NeighborRelation::More,
            y: NeighborRelation::More,
            z: NeighborRelation::More
        }),
        None
    );
}

#[test]
fn get_neighbors() {
    let root = MortonKey::root_key();

    let mut child = root.child_key(0);
    assert_eq!(child.0, 0b1000);
    assert_eq!(
        child.neighbor_key(Neighbor {
            x: NeighborRelation::Same,
            y: NeighborRelation::Same,
            z: NeighborRelation::Same
        }),
        Some(MortonKey(0b1000))
    );
    assert_eq!(
        child.neighbor_key(Neighbor {
            x: NeighborRelation::More,
            y: NeighborRelation::More,
            z: NeighborRelation::Same
        }),
        Some(MortonKey(0b1110))
    );
    assert_eq!(
        child.neighbor_key(Neighbor {
            x: NeighborRelation::Less,
            y: NeighborRelation::More,
            z: NeighborRelation::Same
        }),
        None
    );

    child = root.child_key(7);
    assert_eq!(child.0, 0b1111);
    assert_eq!(
        child.neighbor_key(Neighbor {
            x: NeighborRelation::Same,
            y: NeighborRelation::Same,
            z: NeighborRelation::Same
        }),
        Some(MortonKey(0b1111))
    );
    assert_eq!(
        child.neighbor_key(Neighbor {
            x: NeighborRelation::More,
            y: NeighborRelation::More,
            z: NeighborRelation::Same
        }),
        None
    );
    assert_eq!(
        child.neighbor_key(Neighbor {
            x: NeighborRelation::Less,
            y: NeighborRelation::More,
            z: NeighborRelation::Same
        }),
        None
    );
    assert_eq!(
        child.neighbor_key(Neighbor {
            x: NeighborRelation::Same,
            y: NeighborRelation::Same,
            z: NeighborRelation::Less
        }),
        Some(MortonKey(0b1110))
    );

    child = MortonKey(0b1111000111000111000111000);
    assert_eq!(
        child.neighbor_key(Neighbor {
            x: NeighborRelation::Less,
            y: NeighborRelation::Less,
            z: NeighborRelation::Less
        }),
        Some(MortonKey(0b1111000111000111000000111))
    );
    assert_eq!(
        child.neighbor_key(Neighbor {
            x: NeighborRelation::More,
            y: NeighborRelation::More,
            z: NeighborRelation::More
        }),
        Some(MortonKey(0b1111000111000111000111111))
    );
}

#[test]
fn key_neighbors_and_order() {
    let mut neighbors: Vec<Neighbor> = Neighbor::component_neighbors();
    neighbors.sort();

    assert_eq!(
        neighbors,
        vec![
            Neighbor {
                x: NeighborRelation::Less,
                y: NeighborRelation::Same,
                z: NeighborRelation::Same,
            },
            Neighbor {
                x: NeighborRelation::Same,
                y: NeighborRelation::Less,
                z: NeighborRelation::Same,
            },
            Neighbor {
                x: NeighborRelation::Same,
                y: NeighborRelation::Same,
                z: NeighborRelation::Less,
            },
            Neighbor {
                x: NeighborRelation::Same,
                y: NeighborRelation::Same,
                z: NeighborRelation::More,
            },
            Neighbor {
                x: NeighborRelation::Same,
                y: NeighborRelation::More,
                z: NeighborRelation::Same,
            },
            Neighbor {
                x: NeighborRelation::More,
                y: NeighborRelation::Same,
                z: NeighborRelation::Same,
            },
        ]
    );

    let mut neighbors: Vec<Neighbor> = Neighbor::all_neighbors();
    neighbors.sort();

    let mut expected = Vec::new();
    for x in [
        NeighborRelation::Less,
        NeighborRelation::Same,
        NeighborRelation::More,
    ] {
        for y in [
            NeighborRelation::Less,
            NeighborRelation::Same,
            NeighborRelation::More,
        ] {
            for z in [
                NeighborRelation::Less,
                NeighborRelation::Same,
                NeighborRelation::More,
            ] {
                if !(x == NeighborRelation::Same
                    && y == NeighborRelation::Same
                    && z == NeighborRelation::Same)
                {
                    expected.push(Neighbor { x, y, z });
                }
            }
        }
    }
    assert_eq!(neighbors, expected);
}

#[test]
fn interior_cell_has_26_neighbors() {
    // a cell two levels deep, strictly inside the index range of its depth:
    // all 26 neighbor relations resolve to distinct valid keys
    let key = MortonKey::from_components(1, 1, 1, 2);
    let neighbors = key.neighbors();
    assert_eq!(neighbors.len(), 26);
    for n in &neighbors {
        assert_eq!(n.level(), 2);
        assert_ne!(*n, key);
    }
    for i in 0..neighbors.len() {
        for j in 0..i {
            assert_ne!(neighbors[i], neighbors[j]);
        }
    }
}

#[test]
fn component_roundtrip_mixed_values() {
    let key = MortonKey::from_components(0b101, 0b011, 0b110, 3);
    assert_eq!(key.get_component(0), 0b101);
    assert_eq!(key.get_component(1), 0b011);
    assert_eq!(key.get_component(2), 0b110);
    assert_eq!(key.level(), 3);

    let max = 2u32.pow(COMPONENT_BIT_COUNT) - 1;
    let key = MortonKey::from_components(max, 0, max, COMPONENT_BIT_COUNT);
    assert_eq!(key.get_component(0), max);
    assert_eq!(key.get_component(1), 0);
    assert_eq!(key.get_component(2), max);
}

#[test]
fn child_key_octant_components() {
    let root = MortonKey::root_key();
    // octant selector: bit two extends x, bit one y, bit zero z
    let child = root.child_key(0b110);
    assert_eq!(child.get_component(0), 1);
    assert_eq!(child.get_component(1), 1);
    assert_eq!(child.get_component(2), 0);
    assert_eq!(child.level(), 1);
}

#[test]
fn root_cell_has_no_neighbors_at_all() {
    assert!(MortonKey::root_key().neighbors().is_empty());
    assert!(MortonKey::root_key().component_neighbors().is_empty());
}

#[test]
fn corner_cell_has_seven_neighbors() {
    // at the (0,0,0) corner every axis can only step up, so of the 26
    // relations exactly 2*2*2 - 1 resolve
    let key = MortonKey::from_components(0, 0, 0, 2);
    let neighbors = key.neighbors();
    assert_eq!(neighbors.len(), 7);
    let faces = key.component_neighbors();
    assert_eq!(faces.len(), 3);
}
