//! The six face directions of a voxel, with the coordinate frame the greedy
//! sweep uses for each: a normal axis (the sweep layer) and two in-plane
//! axes `(u, v)`. Modelling the direction as a closed variant with one
//! lookup lets the sweep be written once instead of six times.

use vstd::prelude::*;
use crate::chunk::grid_is_air;
use crate::chunk::Block;
use crate::chunk::Chunk;
use crate::chunk::CS;

verus! {

/// One of the six axis-aligned face directions.
#[derive(PartialEq, Eq, Structural, Clone, Copy, Debug)]
pub enum Direction {
    Top,
    Bottom,
    Right,
    Left,
    Front,
    Back,
}

impl Direction {
    /// The face-direction id used in packed quads and draw commands.
    pub open spec fn face_index(self) -> int {
        match self {
            Direction::Top => 0,
            Direction::Bottom => 1,
            Direction::Right => 2,
            Direction::Left => 3,
            Direction::Front => 4,
            Direction::Back => 5,
        }
    }

    /// Outward normal of this face direction, as a coordinate offset.
    pub open spec fn normal(self) -> (int, int, int) {
        match self {
            Direction::Top => (0, 1, 0),
            Direction::Bottom => (0, -1, 0),
            Direction::Right => (1, 0, 0),
            Direction::Left => (-1, 0, 0),
            Direction::Front => (0, 0, -1),
            Direction::Back => (0, 0, 1),
        }
    }

    /// Voxel coordinate of plane cell `(u, v)` on sweep layer `layer`.
    /// Vertical faces sweep along `y` with the plane spanned by `x` and `z`;
    /// side faces sweep along their normal axis with `u` running along the
    /// remaining horizontal axis and `v` running along `y`.
    pub open spec fn cell_voxel(self, layer: int, u: int, v: int) -> (int, int, int) {
        match self {
            Direction::Top => (u, layer, v),
            Direction::Bottom => (u, layer, v),
            Direction::Right => (layer, v, u),
            Direction::Left => (layer, v, u),
            Direction::Front => (u, v, layer),
            Direction::Back => (u, v, layer),
        }
    }

    /// The one sweep layer of a fully solid chunk that still has visible
    /// faces: the boundary layer this direction's normal points out of.
    pub open spec fn boundary_layer(self) -> int {
        match self {
            Direction::Top => CS - 1,
            Direction::Bottom => 0,
            Direction::Right => CS - 1,
            Direction::Left => 0,
            Direction::Front => 0,
            Direction::Back => CS - 1,
        }
    }

    /// The face-direction id, for packing.
    pub fn face_id(self) -> (r: u8)
        ensures
            r == self.face_index(),
    {
        match self {
            Direction::Top => 0,
            Direction::Bottom => 1,
            Direction::Right => 2,
            Direction::Left => 3,
            Direction::Front => 4,
            Direction::Back => 5,
        }
    }

    /// Voxel coordinate of plane cell `(u, v)` on sweep layer `layer`.
    pub fn cell_coords(self, layer: usize, u: usize, v: usize) -> (r: (usize, usize, usize))
        requires
            layer < CS,
            u < CS,
            v < CS,
        ensures
            (r.0 as int, r.1 as int, r.2 as int) == self.cell_voxel(layer as int, u as int, v as int),
    {
        match self {
            Direction::Top => (u, layer, v),
            Direction::Bottom => (u, layer, v),
            Direction::Right => (layer, v, u),
            Direction::Left => (layer, v, u),
            Direction::Front => (u, v, layer),
            Direction::Back => (u, v, layer),
        }
    }
}

/// A face of direction `d` is visible at plane cell `(u, v)` of sweep layer
/// `layer` when the voxel there is solid and its neighbor one step along
/// the outward normal reads as air (out-of-range counts as air).
pub open spec fn face_visible(blocks: Seq<Block>, d: Direction, layer: int, u: int, v: int) -> bool {
    let (x, y, z) = d.cell_voxel(layer, u, v);
    let (nx, ny, nz) = d.normal();
    &&& !grid_is_air(blocks, x, y, z)
    &&& grid_is_air(blocks, x + nx, y + ny, z + nz)
}

/// Decide visibility of one face of the chunk's grid.
pub fn face_visible_at(c: &Chunk, d: Direction, layer: usize, u: usize, v: usize) -> (r: bool)
    requires
        c.wf(),
        layer < CS,
        u < CS,
        v < CS,
    ensures
        r == face_visible(c.blocks@, d, layer as int, u as int, v as int),
{
    match d {
        Direction::Top => !c.is_air(u, layer, v) && c.is_air(u, layer + 1, v),
        Direction::Bottom => !c.is_air(u, layer, v) && (layer == 0 || c.is_air(u, layer - 1, v)),
        Direction::Right => !c.is_air(layer, v, u) && c.is_air(layer + 1, v, u),
        Direction::Left => !c.is_air(layer, v, u) && (layer == 0 || c.is_air(layer - 1, v, u)),
        Direction::Front => !c.is_air(u, v, layer) && (layer == 0 || c.is_air(u, v, layer - 1)),
        Direction::Back => !c.is_air(u, v, layer) && c.is_air(u, v, layer + 1),
    }
}

} // verus!
