//! Spatial relations between octree cells of one depth, kept apart from the
//! key encoding so that other key types can share them.

use vstd::prelude::*;

verus! {

/// One step along an axis.
#[derive(Hash, Debug, Copy, Clone, PartialOrd, Ord, PartialEq, Eq, Structural)]
pub enum NeighborRelation {
    Less,
    Same,
    More,
}

/// A spatial relation between two cells of one depth: an independent
/// `NeighborRelation` per axis.
#[derive(Hash, Debug, Copy, Clone, PartialOrd, Ord, PartialEq, Eq, Structural)]
pub struct Neighbor {
    pub x: NeighborRelation,
    pub y: NeighborRelation,
    pub z: NeighborRelation,
}

/// The 26 spatial relations that are not the identity, ordered as the
/// cartesian product of the per-axis relations with the identity removed.
pub open spec fn all_neighbor_descriptors() -> Seq<Neighbor> {
    seq![
        Neighbor { x: NeighborRelation::Same, y: NeighborRelation::Same, z: NeighborRelation::Less },
        Neighbor { x: NeighborRelation::Same, y: NeighborRelation::Same, z: NeighborRelation::More },
        Neighbor { x: NeighborRelation::Same, y: NeighborRelation::Less, z: NeighborRelation::Same },
        Neighbor { x: NeighborRelation::Same, y: NeighborRelation::Less, z: NeighborRelation::Less },
        Neighbor { x: NeighborRelation::Same, y: NeighborRelation::Less, z: NeighborRelation::More },
        Neighbor { x: NeighborRelation::Same, y: NeighborRelation::More, z: NeighborRelation::Same },
        Neighbor { x: NeighborRelation::Same, y: NeighborRelation::More, z: NeighborRelation::Less },
        Neighbor { x: NeighborRelation::Same, y: NeighborRelation::More, z: NeighborRelation::More },
        Neighbor { x: NeighborRelation::Less, y: NeighborRelation::Same, z: NeighborRelation::Same },
        Neighbor { x: NeighborRelation::Less, y: NeighborRelation::Same, z: NeighborRelation::Less },
        Neighbor { x: NeighborRelation::Less, y: NeighborRelation::Same, z: NeighborRelation::More },
        Neighbor { x: NeighborRelation::Less, y: NeighborRelation::Less, z: NeighborRelation::Same },
        Neighbor { x: NeighborRelation::Less, y: NeighborRelation::Less, z: NeighborRelation::Less },
        Neighbor { x: NeighborRelation::Less, y: NeighborRelation::Less, z: NeighborRelation::More },
        Neighbor { x: NeighborRelation::Less, y: NeighborRelation::More, z: NeighborRelation::Same },
        Neighbor { x: NeighborRelation::Less, y: NeighborRelation::More, z: NeighborRelation::Less },
        Neighbor { x: NeighborRelation::Less, y: NeighborRelation::More, z: NeighborRelation::More },
        Neighbor { x: NeighborRelation::More, y: NeighborRelation::Same, z: NeighborRelation::Same },
        Neighbor { x: NeighborRelation::More, y: NeighborRelation::Same, z: NeighborRelation::Less },
        Neighbor { x: NeighborRelation::More, y: NeighborRelation::Same, z: NeighborRelation::More },
        Neighbor { x: NeighborRelation::More, y: NeighborRelation::Less, z: NeighborRelation::Same },
        Neighbor { x: NeighborRelation::More, y: NeighborRelation::Less, z: NeighborRelation::Less },
        Neighbor { x: NeighborRelation::More, y: NeighborRelation::Less, z: NeighborRelation::More },
        Neighbor { x: NeighborRelation::More, y: NeighborRelation::More, z: NeighborRelation::Same },
        Neighbor { x: NeighborRelation::More, y: NeighborRelation::More, z: NeighborRelation::Less },
        Neighbor { x: NeighborRelation::More, y: NeighborRelation::More, z: NeighborRelation::More },
    ]
}

/// The six axis-aligned relations, one face of a cell each: z down, z up,
/// y down, y up, x down, x up.
pub open spec fn component_neighbor_descriptors() -> Seq<Neighbor> {
    seq![
        Neighbor { x: NeighborRelation::Same, y: NeighborRelation::Same, z: NeighborRelation::Less },
        Neighbor { x: NeighborRelation::Same, y: NeighborRelation::Same, z: NeighborRelation::More },
        Neighbor { x: NeighborRelation::Same, y: NeighborRelation::Less, z: NeighborRelation::Same },
        Neighbor { x: NeighborRelation::Same, y: NeighborRelation::More, z: NeighborRelation::Same },
        Neighbor { x: NeighborRelation::Less, y: NeighborRelation::Same, z: NeighborRelation::Same },
        Neighbor { x: NeighborRelation::More, y: NeighborRelation::Same, z: NeighborRelation::Same },
    ]
}

impl Neighbor {
    pub fn from_components(x: NeighborRelation, y: NeighborRelation, z: NeighborRelation) -> (r:
        Neighbor)
        ensures
            r == (Neighbor { x, y, z }),
    {
        Neighbor { x, y, z }
    }

    /// All 26 non-identity relations.
    pub fn all_neighbors() -> (r: Vec<Neighbor>)
        ensures
            r@ == all_neighbor_descriptors(),
    {
        let r: Vec<Neighbor> = vec![
            Neighbor { x: NeighborRelation::Same, y: NeighborRelation::Same, z: NeighborRelation::Less },
            Neighbor { x: NeighborRelation::Same, y: NeighborRelation::Same, z: NeighborRelation::More },
            Neighbor { x: NeighborRelation::Same, y: NeighborRelation::Less, z: NeighborRelation::Same },
            Neighbor { x: NeighborRelation::Same, y: NeighborRelation::Less, z: NeighborRelation::Less },
            Neighbor { x: NeighborRelation::Same, y: NeighborRelation::Less, z: NeighborRelation::More },
            Neighbor { x: NeighborRelation::Same, y: NeighborRelation::More, z: NeighborRelation::Same },
            Neighbor { x: NeighborRelation::Same, y: NeighborRelation::More, z: NeighborRelation::Less },
            Neighbor { x: NeighborRelation::Same, y: NeighborRelation::More, z: NeighborRelation::More },
            Neighbor { x: NeighborRelation::Less, y: NeighborRelation::Same, z: NeighborRelation::Same },
            Neighbor { x: NeighborRelation::Less, y: NeighborRelation::Same, z: NeighborRelation::Less },
            Neighbor { x: NeighborRelation::Less, y: NeighborRelation::Same, z: NeighborRelation::More },
            Neighbor { x: NeighborRelation::Less, y: NeighborRelation::Less, z: NeighborRelation::Same },
            Neighbor { x: NeighborRelation::Less, y: NeighborRelation::Less, z: NeighborRelation::Less },
            Neighbor { x: NeighborRelation::Less, y: NeighborRelation::Less, z: NeighborRelation::More },
            Neighbor { x: NeighborRelation::Less, y: NeighborRelation::More, z: NeighborRelation::Same },
            Neighbor { x: NeighborRelation::Less, y: NeighborRelation::More, z: NeighborRelation::Less },
            Neighbor { x: NeighborRelation::Less, y: NeighborRelation::More, z: NeighborRelation::More },
            Neighbor { x: NeighborRelation::More, y: NeighborRelation::Same, z: NeighborRelation::Same },
            Neighbor { x: NeighborRelation::More, y: NeighborRelation::Same, z: NeighborRelation::Less },
            Neighbor { x: NeighborRelation::More, y: NeighborRelation::Same, z: NeighborRelation::More },
            Neighbor { x: NeighborRelation::More, y: NeighborRelation::Less, z: NeighborRelation::Same },
            Neighbor { x: NeighborRelation::More, y: NeighborRelation::Less, z: NeighborRelation::Less },
            Neighbor { x: NeighborRelation::More, y: NeighborRelation::Less, z: NeighborRelation::More },
            Neighbor { x: NeighborRelation::More, y: NeighborRelation::More, z: NeighborRelation::Same },
            Neighbor { x: NeighborRelation::More, y: NeighborRelation::More, z: NeighborRelation::Less },
            Neighbor { x: NeighborRelation::More, y: NeighborRelation::More, z: NeighborRelation::More },
        ];
        proof {
            assert(r@ =~= all_neighbor_descriptors());
        }
        r
    }

    /// The six axis-aligned relations.
    pub fn component_neighbors() -> (r: Vec<Neighbor>)
        ensures
            r@ == component_neighbor_descriptors(),
    {
        let r: Vec<Neighbor> = vec![
            Neighbor { x: NeighborRelation::Same, y: NeighborRelation::Same, z: NeighborRelation::Less },
            Neighbor { x: NeighborRelation::Same, y: NeighborRelation::Same, z: NeighborRelation::More },
            Neighbor { x: NeighborRelation::Same, y: NeighborRelation::Less, z: NeighborRelation::Same },
            Neighbor { x: NeighborRelation::Same, y: NeighborRelation::More, z: NeighborRelation::Same },
            Neighbor { x: NeighborRelation::Less, y: NeighborRelation::Same, z: NeighborRelation::Same },
            Neighbor { x: NeighborRelation::More, y: NeighborRelation::Same, z: NeighborRelation::Same },
        ];
        proof {
            assert(r@ =~= component_neighbor_descriptors());
        }
        r
    }
}

} // verus!
