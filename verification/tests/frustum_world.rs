use voxel_mesh::camera::CameraMovement;
use voxel_mesh::chunk::Block;
use voxel_mesh::chunk::BlockType;
use voxel_mesh::chunk::Chunk;
use voxel_mesh::chunk::ChunkPosition;
use voxel_mesh::chunk::get_texture_id;
use voxel_mesh::chunk::CS;
use voxel_mesh::frustum::Frustum;
use voxel_mesh::frustum::Mat4Fixed;
use voxel_mesh::frustum::MatCol;
use voxel_mesh::frustum::Plane;
use voxel_mesh::renderer::build_draw_list;
use voxel_mesh::renderer::encode_base_instance;
use voxel_mesh::renderer::DrawElementsIndirectCommand;
use voxel_mesh::world::generate_chunk_from_heights;
use voxel_mesh::world::World;

const SCALE: f64 = 65536.0;

/// Standard OpenGL perspective projection, column-major, scaled to fixed
/// point. The camera sits at the origin looking down -z.
fn perspective_fixed(fovy_degrees: f64, aspect: f64, near: f64, far: f64) -> Mat4Fixed {
    let f = 1.0 / (fovy_degrees.to_radians() / 2.0).tan();
    let zz = (far + near) / (near - far);
    let zw = 2.0 * far * near / (near - far);
    Mat4Fixed {
        c0: MatCol { x: (f / aspect * SCALE) as i64, y: 0, z: 0, w: 0 },
        c1: MatCol { x: 0, y: (f * SCALE) as i64, z: 0, w: 0 },
        c2: MatCol { x: 0, y: 0, z: (zz * SCALE) as i64, w: (-SCALE) as i64 },
        c3: MatCol { x: 0, y: 0, z: (zw * SCALE) as i64, w: 0 },
    }
}

#[test]
fn perspective_frustum_rejects_behind_accepts_ahead() {
    let m = perspective_fixed(45.0, 1.0, 0.1, 10000.0);
    let frustum = Frustum::from_matrix(&m);
    // fully behind the camera (positive z in view space, past the near plane)
    assert!(!frustum.test_aabb((-1, -1, 1), (1, 1, 2)));
    // centered on the forward axis, well within near and far
    assert!(frustum.test_aabb((-1, -1, -10), (1, 1, -5)));
    // far off to the side
    assert!(!frustum.test_aabb((5000, -1, -10), (5002, 1, -5)));
}

#[test]
fn from_matrix_equals_new_then_set() {
    let m = perspective_fixed(45.0, 16.0 / 9.0, 0.1, 10000.0);
    let direct = Frustum::from_matrix(&m);
    let mut staged = Frustum::new();
    staged.set(&m);
    assert_eq!(direct, staged);
}

#[test]
fn plane_scaling_does_not_change_the_test() {
    let m = perspective_fixed(45.0, 1.0, 0.1, 10000.0);
    let frustum = Frustum::from_matrix(&m);
    let double = |p: Plane| Plane { a: p.a * 2, b: p.b * 2, c: p.c * 2, d: p.d * 2 };
    let scaled = Frustum {
        left: double(frustum.left),
        right: double(frustum.right),
        bottom: double(frustum.bottom),
        top: double(frustum.top),
        near: double(frustum.near),
        far: double(frustum.far),
    };
    let boxes = [
        ((-1, -1, 1), (1, 1, 2)),
        ((-1, -1, -10), (1, 1, -5)),
        ((100, 100, -500), (200, 200, -400)),
        ((-40, 3, -40), (40, 50, 40)),
    ];
    for (lo, hi) in boxes {
        assert_eq!(frustum.test_aabb(lo, hi), scaled.test_aabb(lo, hi));
    }
}

fn uniform_chunk(block_type: BlockType) -> Chunk {
    Chunk::create(vec![Block { block_type }; CS * CS * CS])
}

#[test]
fn add_chunk_inserts_and_replaces_by_position() {
    let mut world = World::new();
    let p1 = ChunkPosition { x: 0, y: 0, z: 0 };
    let p2 = ChunkPosition { x: 1, y: 0, z: 0 };
    world.add_chunk(p1, uniform_chunk(BlockType::AIR));
    world.add_chunk(p2, uniform_chunk(BlockType::DIRT));
    assert_eq!(world.chunks.len(), 2);
    world.add_chunk(p1, uniform_chunk(BlockType::COBBLESTONE));
    assert_eq!(world.chunks.len(), 2);
    assert_eq!(world.chunks[0].0, p1);
    assert_eq!(world.chunks[0].1.blocks[0].block_type, BlockType::COBBLESTONE);
    assert_eq!(world.chunks[1].0, p2);
    assert_eq!(world.chunks[1].1.blocks[0].block_type, BlockType::DIRT);
}

#[test]
fn heights_shape_the_terrain_columns() {
    let mut heights = vec![0usize; CS * CS];
    heights[1 + 2 * CS] = 5;
    let chunk = generate_chunk_from_heights(&heights);
    for y in 0..5 {
        assert_eq!(chunk.get_block_at(1, y, 2).unwrap().block_type, BlockType::DIRT);
    }
    assert_eq!(chunk.get_block_at(1, 5, 2).unwrap().block_type, BlockType::AIR);
    assert_eq!(chunk.get_block_at(0, 0, 0).unwrap().block_type, BlockType::AIR);
    assert!(!chunk.is_air(1, 0, 2));
    assert!(chunk.is_air(3, 0, 3));
}

#[test]
fn out_of_range_reads_as_air() {
    let chunk = uniform_chunk(BlockType::DIRT);
    assert!(chunk.get_block_at(CS, 0, 0).is_none());
    assert!(chunk.get_block_at(0, CS, 0).is_none());
    assert!(chunk.get_block_at(0, 0, CS).is_none());
    assert!(chunk.is_air(CS, 0, 0));
    assert!(chunk.is_air(0, CS, 0));
    assert!(chunk.is_air(0, 0, usize::MAX));
    assert!(!chunk.is_air(CS - 1, CS - 1, CS - 1));
}

#[test]
fn texture_ids_of_solid_blocks() {
    assert_eq!(get_texture_id(BlockType::DIRT), 0);
    assert_eq!(get_texture_id(BlockType::COBBLESTONE), 1);
}

fn accept_all() -> Frustum {
    Frustum::new()
}

fn reject_all() -> Frustum {
    let negative = Plane { a: 0, b: 0, c: 0, d: -1 };
    Frustum {
        left: negative,
        right: negative,
        bottom: negative,
        top: negative,
        near: negative,
        far: negative,
    }
}

fn command_for(pos: &ChunkPosition, direction: u32, tag: u32) -> DrawElementsIndirectCommand {
    DrawElementsIndirectCommand {
        index_count: tag,
        instance_count: 1,
        first_index: 0,
        base_quad: 0,
        base_instance: encode_base_instance(pos, direction),
    }
}

#[test]
fn draw_list_keeps_only_camera_facing_groups() {
    let mut world = World::new();
    let p_origin = ChunkPosition { x: 0, y: 0, z: 0 };
    let p_east = ChunkPosition { x: 1, y: 0, z: 0 };
    let mut chunk_a = uniform_chunk(BlockType::DIRT);
    chunk_a.add_draw_command(command_for(&p_origin, 0, 100)); // top
    chunk_a.add_draw_command(command_for(&p_origin, 1, 101)); // bottom
    let mut chunk_b = uniform_chunk(BlockType::DIRT);
    chunk_b.add_draw_command(command_for(&p_east, 2, 200)); // +x
    chunk_b.add_draw_command(command_for(&p_east, 3, 201)); // -x
    world.add_chunk(p_origin, chunk_a);
    world.add_chunk(p_east, chunk_b);

    // camera well above the world at chunk coordinates (0, 10, 0): top
    // faces and the west-facing side of the east chunk are toward it
    let cmds = build_draw_list(&world, &accept_all(), 0, 10, 0);
    let tags: Vec<u32> = cmds.iter().map(|c| c.index_count).collect();
    assert_eq!(tags, vec![100, 201]);

    // camera level with the chunks: both vertical groups face it
    let cmds = build_draw_list(&world, &accept_all(), 0, 0, 0);
    let tags: Vec<u32> = cmds.iter().map(|c| c.index_count).collect();
    assert_eq!(tags, vec![100, 101, 201]);

    // nothing survives a frustum that rejects every box
    let cmds = build_draw_list(&world, &reject_all(), 0, 10, 0);
    assert!(cmds.is_empty());
}

#[test]
fn camera_movement_commands_are_distinct() {
    assert_ne!(CameraMovement::FORWARD, CameraMovement::BACKWARD);
    assert_ne!(CameraMovement::LEFT, CameraMovement::RIGHT);
    assert_ne!(CameraMovement::UP, CameraMovement::DOWN);
}
