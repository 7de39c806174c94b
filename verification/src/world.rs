//! The voxel world: chunks keyed by grid position (keys unique, order
//! immaterial), and chunk generation from per-column terrain heights. How
//! a height map is produced — noise, a file, a constant for a flat world —
//! is a collaborator's concern; the core turns heights into voxels.

use vstd::prelude::*;
use crate::chunk::grid_block;
use crate::chunk::lemma_vox_decompose;
use crate::chunk::lemma_vox_roundtrip;
use crate::chunk::vox_x;
use crate::chunk::vox_y;
use crate::chunk::vox_z;
use crate::chunk::Block;
use crate::chunk::BlockType;
use crate::chunk::Chunk;
use crate::chunk::ChunkPosition;
use crate::chunk::CS;

verus! {

/// All chunks of the world, keyed by their grid position.
pub struct World {
    pub chunks: Vec<(ChunkPosition, Chunk)>,
}

impl World {
    /// Chunk positions are unique keys.
    pub open spec fn wf(&self) -> bool {
        forall|i: int, j: int|
            0 <= i < j < self.chunks.len() ==> (#[trigger] self.chunks@[i]).0 != (
            #[trigger] self.chunks@[j]).0
    }

    /// Whether some chunk is stored at `p`.
    pub open spec fn spec_has_chunk_at(&self, p: ChunkPosition) -> bool {
        exists|i: int| 0 <= i < self.chunks.len() && (#[trigger] self.chunks@[i]).0 == p
    }

    pub fn new() -> (w: World)
        ensures
            w.wf(),
            w.chunks@.len() == 0,
    {
        World { chunks: Vec::new() }
    }

    /// Insert the chunk at `chunk_position`, replacing any chunk already
    /// stored there; every other entry is untouched and keys stay unique.
    pub fn add_chunk(&mut self, chunk_position: ChunkPosition, chunk: Chunk)
        requires
            old(self).wf(),
        ensures
            final(self).wf(),
            final(self).spec_has_chunk_at(chunk_position),
            (exists|i: int|
                0 <= i < old(self).chunks@.len() && (#[trigger] old(self).chunks@[i]).0
                    == chunk_position && final(self).chunks@ == old(self).chunks@.update(
                    i,
                    (chunk_position, chunk),
                )) || (!old(self).spec_has_chunk_at(chunk_position) && final(self).chunks@ == old(
                self,
            ).chunks@.push((chunk_position, chunk))),
    {
        let n = self.chunks.len();
        let mut i: usize = 0;
        while i < n
            invariant
                old(self).wf(),
                self.chunks@ == old(self).chunks@,
                n == self.chunks@.len(),
                i <= n,
                forall|j: int| 0 <= j < i ==> (#[trigger] self.chunks@[j]).0 != chunk_position,
            decreases n - i,
        {
            if self.chunks[i].0 == chunk_position {
                let ghost idx = i as int;
                self.chunks[i] = (chunk_position, chunk);
                proof {
                    assert(final(self).chunks@ == old(self).chunks@.update(
                        idx,
                        (chunk_position, chunk),
                    ));
                    assert forall|a: int, b: int|
                        0 <= a < b < self.chunks@.len() implies (#[trigger] self.chunks@[a]).0 != (
                    #[trigger] self.chunks@[b]).0 by {
                        assert(old(self).chunks@[a].0 != old(self).chunks@[b].0);
                        assert(old(self).chunks@[idx].0 == chunk_position);
                    }
                }
                return ;
            }
            i = i + 1;
        }
        self.chunks.push((chunk_position, chunk));
        proof {
            let m = old(self).chunks@.len() as int;
            assert(self.chunks@[m].0 == chunk_position);
            assert forall|a: int, b: int|
                0 <= a < b < self.chunks@.len() implies (#[trigger] self.chunks@[a]).0 != (
            #[trigger] self.chunks@[b]).0 by {
                if b < m {
                    assert(old(self).chunks@[a].0 != old(self).chunks@[b].0);
                } else {
                    assert(self.chunks@[a] == old(self).chunks@[a]);
                }
            }
        }
    }
}

/// Build one chunk from a per-column height map: column `(x, z)` is solid
/// ground up to (excluding) its height, air above. This is the whole of
/// terrain shaping the core owns; the heights themselves come from a
/// collaborator.
pub fn generate_chunk_from_heights(heights: &Vec<usize>) -> (c: Chunk)
    requires
        heights@.len() == CS * CS,
        forall|i: int| 0 <= i < heights@.len() ==> #[trigger] heights@[i] <= CS,
    ensures
        c.wf(),
        c.draw_commands@.len() == 0,
        forall|x: int, y: int, z: int|
            0 <= x < CS && 0 <= y < CS && 0 <= z < CS ==> grid_block(c.blocks@, x, y, z) == (if y
                < heights@[x + z * CS] {
                BlockType::DIRT
            } else {
                BlockType::AIR
            }),
{
    let mut blocks: Vec<Block> = Vec::new();
    let mut i: usize = 0;
    while i < CS * CS * CS
        invariant
            heights@.len() == CS * CS,
            forall|k: int| 0 <= k < heights@.len() ==> #[trigger] heights@[k] <= CS,
            i <= CS * CS * CS,
            blocks@.len() == i,
            forall|k: int|
                0 <= k < i ==> (#[trigger] blocks@[k]).block_type == (if vox_y(k) < heights@[vox_x(
                    k,
                ) + vox_z(k) * CS] {
                    BlockType::DIRT
                } else {
                    BlockType::AIR
                }),
        decreases CS * CS * CS - i,
    {
        let x = i % CS;
        let y = (i / CS) % CS;
        let z = (i / CS) / CS;
        proof {
            lemma_vox_decompose(i as int);
        }
        let h = heights[x + z * CS];
        let block_type = if y < h {
            BlockType::DIRT
        } else {
            BlockType::AIR
        };
        blocks.push(Block { block_type });
        i = i + 1;
    }
    let c = Chunk::create(blocks);
    proof {
        assert forall|x: int, y: int, z: int|
            0 <= x < CS && 0 <= y < CS && 0 <= z < CS implies grid_block(c.blocks@, x, y, z) == (
        if y < heights@[x + z * CS] {
            BlockType::DIRT
        } else {
            BlockType::AIR
        }) by {
            lemma_vox_roundtrip(x, y, z);
        }
    }
    c
}

} // verus!
