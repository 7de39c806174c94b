use voxel_mesh::chunk::Block;
use voxel_mesh::chunk::BlockType;
use voxel_mesh::chunk::Chunk;
use voxel_mesh::chunk::CS;
use voxel_mesh::mesh::greedy_mesh;
use voxel_mesh::mesh::pack_data;

fn air_blocks() -> Vec<Block> {
    vec![Block { block_type: BlockType::AIR }; CS * CS * CS]
}

fn solid_blocks(block_type: BlockType) -> Vec<Block> {
    vec![Block { block_type }; CS * CS * CS]
}

fn block_index(x: usize, y: usize, z: usize) -> usize {
    x + y * CS + z * CS * CS
}

fn unpack_x(q: u64) -> usize {
    (q & 0x3F) as usize
}

fn unpack_y(q: u64) -> usize {
    ((q >> 6) & 0x3F) as usize
}

fn unpack_z(q: u64) -> usize {
    ((q >> 12) & 0x3F) as usize
}

fn unpack_width(q: u64) -> usize {
    ((q >> 18) & 0x3F) as usize
}

fn unpack_height(q: u64) -> usize {
    ((q >> 24) & 0x3F) as usize
}

#[test]
fn all_air_chunk_meshes_no_quads() {
    let chunk = Chunk::create(air_blocks());
    let quads = greedy_mesh(&chunk);
    assert_eq!(quads.len(), 6);
    for direction in &quads {
        assert_eq!(direction.len(), 0);
    }
}

#[test]
fn full_solid_chunk_one_maximal_quad_per_direction() {
    let chunk = Chunk::create(solid_blocks(BlockType::DIRT));
    let quads = greedy_mesh(&chunk);
    assert_eq!(quads.len(), 6);
    for direction in &quads {
        assert_eq!(direction.len(), 1);
    }
    // Each face is the full 32x32 chunk face on the boundary layer the
    // direction points out of; dirt is texture layer 0.
    assert_eq!(quads[0][0], 0x2080_07C0); // top: anchor (0,31,0), 32x32
    assert_eq!(quads[1][0], 0x6080_0000); // bottom: anchor (0,0,0)
    assert_eq!(quads[2][0], 0xA080_001F); // right: anchor (31,0,0)
    assert_eq!(quads[3][0], 0xE080_0000); // left: anchor (0,0,0)
    assert_eq!(quads[4][0], 0x1_2080_0000); // front: anchor (0,0,0)
    assert_eq!(quads[5][0], 0x1_6081_F000); // back: anchor (0,0,31)
}

#[test]
fn full_solid_cobblestone_uses_texture_one() {
    let chunk = Chunk::create(solid_blocks(BlockType::COBBLESTONE));
    let quads = greedy_mesh(&chunk);
    for direction in &quads {
        assert_eq!(direction.len(), 1);
        // texture id sits above bit 33
        assert_eq!(direction[0] >> 33, 1);
    }
}

#[test]
fn meshing_twice_is_byte_identical() {
    let mut blocks = air_blocks();
    for x in 0..7 {
        for z in 0..5 {
            blocks[block_index(x, 3, z)] = Block { block_type: BlockType::DIRT };
        }
    }
    blocks[block_index(20, 20, 20)] = Block { block_type: BlockType::COBBLESTONE };
    let chunk = Chunk::create(blocks);
    let first = greedy_mesh(&chunk);
    let second = greedy_mesh(&chunk);
    assert_eq!(first, second);
}

#[test]
fn single_block_six_unit_quads() {
    let mut blocks = air_blocks();
    blocks[block_index(0, 0, 0)] = Block { block_type: BlockType::DIRT };
    let chunk = Chunk::create(blocks);
    let quads = greedy_mesh(&chunk);
    for direction in &quads {
        assert_eq!(direction.len(), 1);
    }
    let unit = |dir: u64| (1u64 << 18) | (1u64 << 24) | (dir << 30);
    assert_eq!(quads[0][0], unit(0));
    assert_eq!(quads[1][0], unit(1));
    assert_eq!(quads[2][0], unit(2));
    assert_eq!(quads[3][0], unit(3));
    assert_eq!(quads[4][0], unit(4));
    assert_eq!(quads[5][0], unit(5));
}

#[test]
fn flat_slab_six_quads_cover_its_surface() {
    // A 4x4x1 solid slab surrounded by air: one 4x4 top face, one 4x4
    // bottom face, and four 4x1 side faces - 48 cells of face area in all.
    let mut blocks = air_blocks();
    for x in 0..4 {
        for z in 0..4 {
            blocks[block_index(x, 0, z)] = Block { block_type: BlockType::DIRT };
        }
    }
    let chunk = Chunk::create(blocks);
    let quads = greedy_mesh(&chunk);
    let total: usize = quads.iter().map(|d| d.len()).sum();
    assert_eq!(total, 6);
    let area = |q: u64| unpack_width(q) * unpack_height(q);
    assert_eq!(quads[0].len(), 1);
    assert_eq!(area(quads[0][0]), 16);
    assert_eq!(quads[1].len(), 1);
    assert_eq!(area(quads[1][0]), 16);
    for side in 2..6 {
        assert_eq!(quads[side].len(), 1);
        assert_eq!(area(quads[side][0]), 4);
    }
    let side_area: usize = (2..6).map(|d| area(quads[d][0])).sum();
    assert_eq!(16 + 16 + side_area, 48);
}

#[test]
fn adjacent_solid_chunks_mesh_independently_with_seam_faces() {
    // Two fully solid chunks side by side: each meshes on its own with its
    // boundary treated as exposed, so both emit a full face at the seam.
    let left = Chunk::create(solid_blocks(BlockType::DIRT));
    let right = Chunk::create(solid_blocks(BlockType::DIRT));
    let left_quads = greedy_mesh(&left);
    let right_quads = greedy_mesh(&right);
    assert_eq!(left_quads, right_quads);
    // the seam: the left chunk's +x face and the right chunk's -x face
    assert_eq!(left_quads[2].len(), 1);
    assert_eq!(unpack_x(left_quads[2][0]), 31);
    assert_eq!(right_quads[3].len(), 1);
    assert_eq!(unpack_x(right_quads[3][0]), 0);
}

#[test]
fn top_coverage_equals_visible_faces_no_duplicates() {
    // An L-shaped patch plus a lone block, all at y = 0: the union of the
    // top-face quads' cells must be exactly the visible top faces, each
    // covered once.
    let mut blocks = air_blocks();
    let mut expected = [[false; CS]; CS];
    let mut put = |x: usize, z: usize, blocks: &mut Vec<Block>| {
        blocks[block_index(x, 0, z)] = Block { block_type: BlockType::DIRT };
        expected[x][z] = true;
    };
    for x in 0..6 {
        put(x, 0, &mut blocks);
    }
    for z in 1..4 {
        put(0, z, &mut blocks);
    }
    put(10, 10, &mut blocks);
    let chunk = Chunk::create(blocks);
    let quads = greedy_mesh(&chunk);
    let mut covered = [[0u32; CS]; CS];
    for &q in &quads[0] {
        assert_eq!(unpack_y(q), 0);
        let (x0, z0) = (unpack_x(q), unpack_z(q));
        for dx in 0..unpack_width(q) {
            for dz in 0..unpack_height(q) {
                covered[x0 + dx][z0 + dz] += 1;
            }
        }
    }
    for x in 0..CS {
        for z in 0..CS {
            assert_eq!(covered[x][z], if expected[x][z] { 1 } else { 0 });
        }
    }
}

#[test]
fn buried_faces_are_not_meshed() {
    // Two stacked blocks: the shared face between them is hidden, so the
    // top direction sees only the upper block and the bottom direction
    // only the lower one.
    let mut blocks = air_blocks();
    blocks[block_index(5, 10, 5)] = Block { block_type: BlockType::DIRT };
    blocks[block_index(5, 11, 5)] = Block { block_type: BlockType::DIRT };
    let chunk = Chunk::create(blocks);
    let quads = greedy_mesh(&chunk);
    assert_eq!(quads[0].len(), 1);
    assert_eq!(unpack_y(quads[0][0]), 11);
    assert_eq!(quads[1].len(), 1);
    assert_eq!(unpack_y(quads[1][0]), 10);
    // each side direction merges the two faces into one 1x2 quad
    for side in 2..6 {
        assert_eq!(quads[side].len(), 1);
        assert_eq!(unpack_width(quads[side][0]) * unpack_height(quads[side][0]), 2);
    }
}

#[test]
fn pack_data_exact_layout() {
    assert_eq!(pack_data(1, 2, 3, 4, 5, 6, 7), 0xF_8510_3081);
    assert_eq!(pack_data(0, 0, 0, 0, 0, 0, 0), 0);
    assert_eq!(
        pack_data(63, 63, 63, 63, 63, 7, 1),
        63u64 | (63u64 << 6) | (63u64 << 12) | (63u64 << 18) | (63u64 << 24) | (7u64 << 30)
            | (1u64 << 33)
    );
}
