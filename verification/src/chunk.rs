//! Chunk-local voxel storage: a dense cubic grid of blocks addressed by
//! `(x, y, z)` with out-of-range coordinates deliberately treated as air,
//! so meshing never needs to consult a neighboring chunk.

use vstd::prelude::*;
use crate::renderer::DrawElementsIndirectCommand;

verus! {

/// Edge length of a cubic chunk, in voxels.
pub const CS: usize = 32;

/// The closed set of block kinds a voxel can hold.
#[allow(non_camel_case_types)]
#[derive(PartialEq, Eq, Structural, Clone, Copy, Debug)]
pub enum BlockType {
    AIR,
    DIRT,
    COBBLESTONE,
}

/// One voxel: nothing beyond its kind tag.
#[derive(PartialEq, Eq, Structural, Clone, Copy, Debug)]
pub struct Block {
    pub block_type: BlockType,
}

/// Block kind stored at `(x, y, z)` of a linearized grid, with every
/// out-of-range coordinate reading as air.
pub open spec fn grid_block(blocks: Seq<Block>, x: int, y: int, z: int) -> BlockType {
    if 0 <= x < CS && 0 <= y < CS && 0 <= z < CS {
        blocks[x + y * CS + z * CS * CS].block_type
    } else {
        BlockType::AIR
    }
}

/// Whether the grid reads as air at `(x, y, z)` (always true out of range).
pub open spec fn grid_is_air(blocks: Seq<Block>, x: int, y: int, z: int) -> bool {
    grid_block(blocks, x, y, z) == BlockType::AIR
}

/// `x` coordinate of flat grid index `i` under row-major linearization.
pub open spec fn vox_x(i: int) -> int {
    i % (CS as int)
}

/// `y` coordinate of flat grid index `i`.
pub open spec fn vox_y(i: int) -> int {
    (i / (CS as int)) % (CS as int)
}

/// `z` coordinate of flat grid index `i`.
pub open spec fn vox_z(i: int) -> int {
    (i / (CS as int)) / (CS as int)
}

/// Row-major linearization and its coordinate decomposition invert each
/// other for in-range coordinates.
pub proof fn lemma_vox_roundtrip(x: int, y: int, z: int)
    requires
        0 <= x < CS,
        0 <= y < CS,
        0 <= z < CS,
    ensures
        0 <= x + y * CS + z * CS * CS < CS * CS * CS,
        vox_x(x + y * CS + z * CS * CS) == x,
        vox_y(x + y * CS + z * CS * CS) == y,
        vox_z(x + y * CS + z * CS * CS) == z,
{
    let q = y + z * (CS as int);
    let i = x + y * CS + z * CS * CS;
    assert(i == x + q * (CS as int)) by (nonlinear_arith)
        requires
            q == y + z * (CS as int),
            i == x + y * CS + z * CS * CS,
            CS == 32,
    ;
    assert(i % (CS as int) == x && i / (CS as int) == q) by (nonlinear_arith)
        requires
            0 <= x < CS as int,
            0 <= q,
            i == x + q * (CS as int),
            CS == 32,
    ;
    assert(q % (CS as int) == y && q / (CS as int) == z) by (nonlinear_arith)
        requires
            0 <= y < CS as int,
            0 <= z,
            q == y + z * (CS as int),
            CS == 32,
    ;
}

/// A flat grid index decomposes into in-range coordinates that linearize
/// back to it.
pub proof fn lemma_vox_decompose(i: int)
    requires
        0 <= i < CS * CS * CS,
    ensures
        0 <= vox_x(i) < CS,
        0 <= vox_y(i) < CS,
        0 <= vox_z(i) < CS,
        i == vox_x(i) + vox_y(i) * CS + vox_z(i) * CS * CS,
{
    assert(0 <= i % (CS as int) < CS as int && 0 <= (i / (CS as int)) % (CS as int) < CS as int
        && 0 <= (i / (CS as int)) / (CS as int) < CS as int && i == i % (CS as int) + ((i / (
    CS as int)) % (CS as int)) * (CS as int) + ((i / (CS as int)) / (CS as int)) * (CS as int) * (
    CS as int)) by (nonlinear_arith)
        requires
            0 <= i < (CS as int) * (CS as int) * (CS as int),
            CS == 32,
    ;
}

/// Texture-array layer assigned to a solid block kind.
pub open spec fn spec_texture_id(block_type: BlockType) -> u32 {
    match block_type {
        BlockType::AIR => 0,
        BlockType::DIRT => 0,
        BlockType::COBBLESTONE => 1,
    }
}

/// One chunk: a dense cubic voxel grid plus the draw commands recorded for
/// it at mesh-upload time, at most one per face direction.
pub struct Chunk {
    pub blocks: Vec<Block>,
    pub draw_commands: Vec<DrawElementsIndirectCommand>,
}

impl Chunk {
    /// The grid holds exactly one block per cell and the command list never
    /// outgrows the six face directions.
    pub open spec fn wf(&self) -> bool {
        &&& self.blocks.len() == CS * CS * CS
        &&& self.draw_commands.len() <= 6
    }

    /// Block kind at `(x, y, z)`, air when out of range.
    pub open spec fn spec_block_at(&self, x: int, y: int, z: int) -> BlockType {
        grid_block(self.blocks@, x, y, z)
    }

    /// Whether this chunk reads as air at `(x, y, z)`.
    pub open spec fn spec_is_air(&self, x: int, y: int, z: int) -> bool {
        grid_is_air(self.blocks@, x, y, z)
    }

    pub fn create(blocks: Vec<Block>) -> (c: Chunk)
        requires
            blocks.len() == CS * CS * CS,
        ensures
            c.wf(),
            c.blocks@ == blocks@,
            c.draw_commands@ =~= Seq::<DrawElementsIndirectCommand>::empty(),
    {
        Chunk { blocks, draw_commands: Vec::new() }
    }

    /// Record one more draw command for this chunk; capacity six, one per
    /// face direction, is the caller's invariant.
    pub fn add_draw_command(&mut self, draw_command: DrawElementsIndirectCommand)
        requires
            old(self).draw_commands.len() < 6,
        ensures
            final(self).blocks@ == old(self).blocks@,
            final(self).draw_commands@ == old(self).draw_commands@.push(draw_command),
    {
        self.draw_commands.push(draw_command)
    }

    /// In-range lookup of the block at `(x, y, z)`; out-of-range coordinates
    /// yield nothing rather than failing.
    pub fn get_block_at(&self, x: usize, y: usize, z: usize) -> (r: Option<&Block>)
        requires
            self.wf(),
        ensures
            (match r {
                Some(b) => x < CS && y < CS && z < CS && b.block_type == self.spec_block_at(
                    x as int,
                    y as int,
                    z as int,
                ),
                None => !(x < CS && y < CS && z < CS),
            }),
    {
        if x >= CS || y >= CS || z >= CS {
            return None;
        }
        let index = x + y * CS + z * CS * CS;
        Some(&self.blocks[index])
    }

    /// Occupancy query with the boundary policy: any out-of-range coordinate
    /// reads as air, so faces on chunk boundaries are always exposed.
    pub fn is_air(&self, x: usize, y: usize, z: usize) -> (r: bool)
        requires
            self.wf(),
        ensures
            r == self.spec_is_air(x as int, y as int, z as int),
    {
        if x > CS - 1 || y > CS - 1 || z > CS - 1 {
            return true;
        }
        match self.get_block_at(x, y, z) {
            None => true,
            Some(block) => block.block_type == BlockType::AIR,
        }
    }
}

/// Integer grid coordinate identifying one chunk; the chunk's world-space
/// origin is this coordinate scaled by the chunk edge length.
#[derive(Hash, PartialEq, Eq, Structural, Clone, Copy, Debug)]
pub struct ChunkPosition {
    pub x: i32,
    pub y: i32,
    pub z: i32,
}

/// Texture-array layer for a solid block kind; air has no texture and is
/// excluded by precondition (the mesher only asks about visible, solid
/// voxels).
pub fn get_texture_id(block_type: BlockType) -> (r: u32)
    requires
        block_type != BlockType::AIR,
    ensures
        r == spec_texture_id(block_type),
{
    match block_type {
        BlockType::AIR => 0,
        BlockType::DIRT => 0,
        BlockType::COBBLESTONE => 1,
    }
}

} // verus!
