//! Indirect draw-command encoding and the render-facing state that ties the
//! geometry allocator to the per-chunk command lists.
//!
//! A draw command's `base_quad` carries the slot's position in quad units
//! (pre-shifted by two so the GPU can derive corner ids), and its
//! `base_instance` packs the chunk's grid coordinate together with the face
//! direction so the shading stage can reconstruct world position without a
//! per-draw uniform.

use vstd::prelude::*;
use crate::allocator::AllocationExhausted;
use crate::allocator::BufferSlot;
use crate::allocator::GeometryAllocator;
use crate::allocator::BUFFER_SIZE;
use crate::allocator::QUAD_SIZE_BYTES;
use crate::chunk::Chunk;
use crate::chunk::ChunkPosition;
use crate::chunk::CS;
use crate::frustum::Frustum;
use crate::world::World;

verus! {

/// One record of the GPU's indirect multi-draw buffer.
#[derive(PartialEq, Eq, Structural, Clone, Copy, Debug)]
pub struct DrawElementsIndirectCommand {
    pub index_count: u32,
    pub instance_count: u32,
    pub first_index: u32,
    pub base_quad: u32,
    pub base_instance: u32,
}

/// Handle of a linked shader program.
#[derive(PartialEq, Eq, Structural, Clone, Copy, Debug)]
pub struct Shader {
    pub id: u32,
}

/// Handle and layer count of a texture array.
#[derive(PartialEq, Eq, Structural, Clone, Copy, Debug)]
pub struct TextureArray {
    pub id: u32,
    pub layers: usize,
}

/// Chunk grid coordinate and face direction packed into a draw command's
/// base-instance word: `x` in bits 21..32, `y` in bits 14..21, `z` in bits
/// 3..14, and the face-direction index in bits 0..3.
pub open spec fn spec_base_instance(x: i32, y: i32, z: i32, dir: u32) -> u32 {
    (((x as u32) & 0x7FF) << 21) | (((y as u32) & 0x7F) << 14) | (((z as u32) & 0x7FF) << 3) | dir
}

/// The face-direction index carried in a command's base-instance word.
pub open spec fn spec_command_direction(cmd: DrawElementsIndirectCommand) -> u32 {
    cmd.base_instance & 7
}

/// Pack a chunk position and face-direction index into a base-instance word.
pub fn encode_base_instance(pos: &ChunkPosition, direction_index: u32) -> (r: u32)
    requires
        direction_index < 8,
    ensures
        r == spec_base_instance(pos.x, pos.y, pos.z, direction_index),
        r & 7 == direction_index,
{
    let r = (((pos.x as u32) & 0x7FF) << 21) | (((pos.y as u32) & 0x7F) << 14) | (((pos.z as u32)
        & 0x7FF) << 3) | direction_index;
    proof {
        lemma_base_instance_fields(pos.x, pos.y, pos.z, direction_index);
    }
    r
}

/// Every field of a base-instance word is recoverable by shifting and
/// masking, as the GPU-side reconstruction does.
pub proof fn lemma_base_instance_fields(x: i32, y: i32, z: i32, dir: u32)
    requires
        dir < 8,
    ensures
        spec_base_instance(x, y, z, dir) & 7 == dir,
        (spec_base_instance(x, y, z, dir) >> 3) & 0x7FF == (z as u32) & 0x7FF,
        (spec_base_instance(x, y, z, dir) >> 14) & 0x7F == (y as u32) & 0x7F,
        spec_base_instance(x, y, z, dir) >> 21 == (x as u32) & 0x7FF,
{
    assert((((((x as u32) & 0x7FF) << 21) | (((y as u32) & 0x7F) << 14) | (((z as u32) & 0x7FF)
        << 3) | dir) & 7 == dir) && ((((((x as u32) & 0x7FF) << 21) | (((y as u32) & 0x7F) << 14)
        | (((z as u32) & 0x7FF) << 3) | dir) >> 3) & 0x7FF == (z as u32) & 0x7FF)
        && ((((((x as u32) & 0x7FF) << 21) | (((y as u32) & 0x7F) << 14) | (((z as u32) & 0x7FF)
        << 3) | dir) >> 14) & 0x7F == (y as u32) & 0x7F) && (((((x as u32) & 0x7FF) << 21)
        | (((y as u32) & 0x7F) << 14) | (((z as u32) & 0x7FF) << 3) | dir) >> 21 == (x as u32)
        & 0x7FF)) by (bit_vector)
        requires
            dir < 8,
    ;
}

/// Build the draw command describing a freshly granted slot: six indices per
/// quad, one instance, and the slot's position in quad units shifted into
/// `base_quad`.
pub fn create_command(slot: &BufferSlot, base_instance: u32) -> (cmd: DrawElementsIndirectCommand)
    requires
        slot.start_bytes <= BUFFER_SIZE,
        slot.size_bytes <= BUFFER_SIZE,
    ensures
        cmd.index_count == (slot.size_bytes / QUAD_SIZE_BYTES) * 6,
        cmd.instance_count == 1,
        cmd.first_index == 0,
        cmd.base_quad == (slot.start_bytes / QUAD_SIZE_BYTES) * 4,
        cmd.base_instance == base_instance,
{
    let start_quads = slot.start_bytes / QUAD_SIZE_BYTES;
    proof {
        assert(start_quads < 0x4000_0000 ==> (start_quads << 2) == start_quads * 4)
            by (bit_vector);
    }
    DrawElementsIndirectCommand {
        index_count: (slot.size_bytes / QUAD_SIZE_BYTES) * 6,
        instance_count: 1,
        first_index: 0,
        base_quad: start_quads << 2,
        base_instance,
    }
}

/// Index `n` of the static quad index buffer: corner pattern
/// `2, 0, 1, 1, 3, 2` of quad `n / 6`, each corner id in the low two bits.
pub open spec fn spec_quad_corner_index(q: u32, corner: int) -> u32 {
    if corner == 0 {
        (q << 2) | 2
    } else if corner == 1 {
        q << 2
    } else if corner == 2 {
        (q << 2) | 1
    } else if corner == 3 {
        (q << 2) | 1
    } else if corner == 4 {
        (q << 2) | 3
    } else {
        (q << 2) | 2
    }
}

/// Fill the static index buffer that turns each quad into two triangles:
/// six entries per quad, each carrying the quad id and a corner id.
pub fn build_quad_indices(max_quads: u32) -> (r: Vec<u32>)
    requires
        max_quads <= 0x1000_0000,
    ensures
        r@.len() == 6 * max_quads,
        forall|n: int|
            0 <= n < r@.len() ==> r@[n] == spec_quad_corner_index((n / 6) as u32, n % 6),
{
    let mut r: Vec<u32> = Vec::new();
    let mut i: u32 = 0;
    while i < max_quads
        invariant
            i <= max_quads,
            max_quads <= 0x1000_0000,
            r@.len() == 6 * i,
            forall|n: int|
                0 <= n < r@.len() ==> r@[n] == spec_quad_corner_index((n / 6) as u32, n % 6),
        decreases max_quads - i,
    {
        let base = i << 2;
        r.push(base | 2);
        r.push(base);
        r.push(base | 1);
        r.push(base | 1);
        r.push(base | 3);
        r.push(base | 2);
        i = i + 1;
    }
    r
}

/// Render-facing aggregation: GL object handles (owned and filled in by the
/// windowing layer), the geometry allocator, and the frame's accumulated
/// draw commands.
pub struct ChunkRenderer {
    pub vao: u32,
    pub ibo: u32,
    pub ssbo: u32,
    pub command_buffer: u32,
    pub allocator: GeometryAllocator,
    pub draw_commands: Vec<DrawElementsIndirectCommand>,
    pub shader: Shader,
    pub texture_array: TextureArray,
}

impl ChunkRenderer {
    pub fn create(shader: Shader, texture_array: TextureArray) -> (r: ChunkRenderer)
        ensures
            r.vao == 0,
            r.ibo == 0,
            r.ssbo == 0,
            r.command_buffer == 0,
            r.allocator.wf(),
            r.allocator.capacity == BUFFER_SIZE,
            r.allocator.allocation_end == 0,
            r.allocator.used_slots@ =~= Seq::<BufferSlot>::empty(),
            r.draw_commands@ =~= Seq::<DrawElementsIndirectCommand>::empty(),
            r.shader == shader,
            r.texture_array == texture_array,
    {
        ChunkRenderer {
            vao: 0,
            ibo: 0,
            ssbo: 0,
            command_buffer: 0,
            allocator: GeometryAllocator::new(BUFFER_SIZE),
            draw_commands: Vec::new(),
            shader,
            texture_array,
        }
    }

    /// Reserve buffer space for `quad_count` quads and describe it as a draw
    /// command; refuse, changing nothing, when the buffer is exhausted.
    pub fn get_draw_command(&mut self, quad_count: u32, base_instance: u32) -> (r: Result<
        DrawElementsIndirectCommand,
        AllocationExhausted,
    >)
        requires
            old(self).allocator.wf(),
            old(self).allocator.capacity <= BUFFER_SIZE,
        ensures
            final(self).allocator.wf(),
            final(self).allocator.capacity == old(self).allocator.capacity,
            final(self).allocator.allocation_end >= old(self).allocator.allocation_end,
            final(self).vao == old(self).vao,
            final(self).ibo == old(self).ibo,
            final(self).ssbo == old(self).ssbo,
            final(self).command_buffer == old(self).command_buffer,
            final(self).draw_commands@ == old(self).draw_commands@,
            final(self).shader == old(self).shader,
            final(self).texture_array == old(self).texture_array,
            r is Ok <==> quad_count * QUAD_SIZE_BYTES <= old(self).allocator.spec_available(),
            (match r {
                Ok(cmd) => {
                    &&& cmd.index_count == quad_count * 6
                    &&& cmd.instance_count == 1
                    &&& cmd.first_index == 0
                    &&& cmd.base_quad == (old(self).allocator.allocation_end / QUAD_SIZE_BYTES)
                        * 4
                    &&& cmd.base_instance == base_instance
                    &&& final(self).allocator.allocation_end == old(self).allocator.allocation_end
                        + quad_count * QUAD_SIZE_BYTES
                    &&& final(self).allocator.used_slots@ == old(
                        self,
                    ).allocator.used_slots@.push(
                        BufferSlot {
                            start_bytes: old(self).allocator.allocation_end,
                            size_bytes: (quad_count * QUAD_SIZE_BYTES) as u32,
                        },
                    )
                },
                Err(e) => {
                    &&& final(self).allocator.allocation_end == old(self).allocator.allocation_end
                    &&& final(self).allocator.used_slots@ == old(self).allocator.used_slots@
                    &&& e.requested_quads == quad_count
                    &&& e.available_quads == old(self).allocator.spec_available()
                        / QUAD_SIZE_BYTES as int
                },
            }),
    {
        let slot = match self.allocator.allocate(quad_count) {
            Ok(slot) => slot,
            Err(e) => {
                return Err(e);
            },
        };
        proof {
            assert(slot.size_bytes / QUAD_SIZE_BYTES == quad_count) by (nonlinear_arith)
                requires
                    slot.size_bytes == quad_count * QUAD_SIZE_BYTES,
                    QUAD_SIZE_BYTES == 8,
                    quad_count >= 0,
            ;
        }
        Ok(create_command(&slot, base_instance))
    }
}

/// Whether the chunk at grid position `pos` survives frustum culling: its
/// world-space box (origin `pos * CS`, extent `CS`) passes the corner test.
pub open spec fn spec_chunk_visible(f: Frustum, pos: ChunkPosition) -> bool {
    f.spec_visible(
        pos.x * CS,
        pos.y * CS,
        pos.z * CS,
        pos.x * CS + CS,
        pos.y * CS + CS,
        pos.z * CS + CS,
    )
}

/// Camera-side test for one face-direction id: a face group is drawn only
/// when the camera's chunk-grid coordinate is on the outward side of that
/// face's plane (level counts as outward). Ids beyond the six directions
/// are never drawn.
pub open spec fn spec_face_toward_camera(
    dir: u32,
    pos: ChunkPosition,
    cam_x: i64,
    cam_y: i64,
    cam_z: i64,
) -> bool {
    if dir == 0 {
        cam_y >= pos.y
    } else if dir == 1 {
        cam_y <= pos.y
    } else if dir == 2 {
        cam_x >= pos.x
    } else if dir == 3 {
        cam_x <= pos.x
    } else if dir == 4 {
        cam_z <= pos.z
    } else if dir == 5 {
        cam_z >= pos.z
    } else {
        false
    }
}

/// Whether one recorded draw command of the chunk at `pos` goes into the
/// frame: the chunk survives culling and the command's face direction
/// (carried in its base-instance word) faces the camera.
pub open spec fn spec_command_included(
    f: Frustum,
    pos: ChunkPosition,
    cam_x: i64,
    cam_y: i64,
    cam_z: i64,
    cmd: DrawElementsIndirectCommand,
) -> bool {
    spec_chunk_visible(f, pos) && spec_face_toward_camera(
        spec_command_direction(cmd),
        pos,
        cam_x,
        cam_y,
        cam_z,
    )
}

/// The first `n` of one chunk's commands that go into the frame, in order.
pub open spec fn spec_filter_commands(
    cmds: Seq<DrawElementsIndirectCommand>,
    f: Frustum,
    pos: ChunkPosition,
    cam_x: i64,
    cam_y: i64,
    cam_z: i64,
    n: int,
) -> Seq<DrawElementsIndirectCommand>
    decreases n,
{
    if n <= 0 {
        Seq::empty()
    } else {
        let pre = spec_filter_commands(cmds, f, pos, cam_x, cam_y, cam_z, n - 1);
        if spec_command_included(f, pos, cam_x, cam_y, cam_z, cmds[n - 1]) {
            pre.push(cmds[n - 1])
        } else {
            pre
        }
    }
}

/// The frame's draw list over the first `n` chunks: every included command
/// of every surviving chunk, chunks in storage order, commands in recorded
/// order.
pub open spec fn spec_frame_commands(
    entries: Seq<(ChunkPosition, Chunk)>,
    f: Frustum,
    cam_x: i64,
    cam_y: i64,
    cam_z: i64,
    n: int,
) -> Seq<DrawElementsIndirectCommand>
    decreases n,
{
    if n <= 0 {
        Seq::empty()
    } else {
        spec_frame_commands(entries, f, cam_x, cam_y, cam_z, n - 1) + spec_filter_commands(
            entries[n - 1].1.draw_commands@,
            f,
            entries[n - 1].0,
            cam_x,
            cam_y,
            cam_z,
            entries[n - 1].1.draw_commands@.len() as int,
        )
    }
}

/// A culled chunk contributes nothing, however many commands it recorded.
proof fn lemma_filter_culled(
    cmds: Seq<DrawElementsIndirectCommand>,
    f: Frustum,
    pos: ChunkPosition,
    cam_x: i64,
    cam_y: i64,
    cam_z: i64,
    n: int,
)
    requires
        !spec_chunk_visible(f, pos),
    ensures
        spec_filter_commands(cmds, f, pos, cam_x, cam_y, cam_z, n) == Seq::<
            DrawElementsIndirectCommand,
        >::empty(),
    decreases n,
{
    if n > 0 {
        lemma_filter_culled(cmds, f, pos, cam_x, cam_y, cam_z, n - 1);
    }
}

/// One frame's cull, classify and batch pass: walk every chunk, reject
/// those outside the frustum, keep only the camera-facing face groups of
/// the rest, and accumulate their draw commands into one array for a
/// single indirect multi-draw. `cam_x`, `cam_y`, `cam_z` are the camera's
/// chunk-grid coordinates.
pub fn build_draw_list(world: &World, frustum: &Frustum, cam_x: i64, cam_y: i64, cam_z: i64) -> (r:
    Vec<DrawElementsIndirectCommand>)
    requires
        frustum.wf(),
    ensures
        r@ == spec_frame_commands(
            world.chunks@,
            *frustum,
            cam_x,
            cam_y,
            cam_z,
            world.chunks@.len() as int,
        ),
{
    let mut r: Vec<DrawElementsIndirectCommand> = Vec::new();
    proof {
        assert(r@ =~= spec_frame_commands(world.chunks@, *frustum, cam_x, cam_y, cam_z, 0));
    }
    let n = world.chunks.len();
    let mut i: usize = 0;
    while i < n
        invariant
            frustum.wf(),
            n == world.chunks@.len(),
            i <= n,
            r@ == spec_frame_commands(world.chunks@, *frustum, cam_x, cam_y, cam_z, i as int),
        decreases n - i,
    {
        let pos = world.chunks[i].0;
        proof {
            assert(CS as i64 == 32);
        }
        let min_x = (pos.x as i64) * (CS as i64);
        let min_y = (pos.y as i64) * (CS as i64);
        let min_z = (pos.z as i64) * (CS as i64);
        let visible = frustum.test_aabb(
            (min_x, min_y, min_z),
            (min_x + CS as i64, min_y + CS as i64, min_z + CS as i64),
        );
        let ghost cmds = world.chunks@[i as int].1.draw_commands@;
        if visible {
            let m = world.chunks[i].1.draw_commands.len();
            let mut j: usize = 0;
            while j < m
                invariant
                    frustum.wf(),
                    n == world.chunks@.len(),
                    i < n,
                    pos == world.chunks@[i as int].0,
                    cmds == world.chunks@[i as int].1.draw_commands@,
                    spec_chunk_visible(*frustum, pos),
                    m == cmds.len(),
                    j <= m,
                    r@ == spec_frame_commands(
                        world.chunks@,
                        *frustum,
                        cam_x,
                        cam_y,
                        cam_z,
                        i as int,
                    ) + spec_filter_commands(cmds, *frustum, pos, cam_x, cam_y, cam_z, j as int),
                decreases m - j,
            {
                let cmd = world.chunks[i].1.draw_commands[j];
                let dir = cmd.base_instance & 7;
                let keep = match dir {
                    0 => cam_y >= pos.y as i64,
                    1 => cam_y <= pos.y as i64,
                    2 => cam_x >= pos.x as i64,
                    3 => cam_x <= pos.x as i64,
                    4 => cam_z <= pos.z as i64,
                    5 => cam_z >= pos.z as i64,
                    _ => false,
                };
                proof {
                    assert(keep == spec_command_included(
                        *frustum,
                        pos,
                        cam_x,
                        cam_y,
                        cam_z,
                        cmds[j as int],
                    ));
                }
                if keep {
                    r.push(cmd);
                }
                proof {
                    assert(r@ =~= spec_frame_commands(
                        world.chunks@,
                        *frustum,
                        cam_x,
                        cam_y,
                        cam_z,
                        i as int,
                    ) + spec_filter_commands(
                        cmds,
                        *frustum,
                        pos,
                        cam_x,
                        cam_y,
                        cam_z,
                        j as int + 1,
                    ));
                }
                j = j + 1;
            }
        } else {
            proof {
                lemma_filter_culled(cmds, *frustum, pos, cam_x, cam_y, cam_z, cmds.len() as int);
                assert(r@ =~= spec_frame_commands(
                    world.chunks@,
                    *frustum,
                    cam_x,
                    cam_y,
                    cam_z,
                    i as int,
                ) + spec_filter_commands(
                    cmds,
                    *frustum,
                    pos,
                    cam_x,
                    cam_y,
                    cam_z,
                    cmds.len() as int,
                ));
            }
        }
        i = i + 1;
        proof {
            assert(r@ == spec_frame_commands(
                world.chunks@,
                *frustum,
                cam_x,
                cam_y,
                cam_z,
                i as int,
            ));
        }
    }
    r
}

} // verus!
