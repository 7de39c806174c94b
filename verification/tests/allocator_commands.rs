use voxel_mesh::allocator::AllocationExhausted;
use voxel_mesh::allocator::BufferSlot;
use voxel_mesh::allocator::GeometryAllocator;
use voxel_mesh::chunk::ChunkPosition;
use voxel_mesh::renderer::build_quad_indices;
use voxel_mesh::renderer::create_command;
use voxel_mesh::renderer::encode_base_instance;
use voxel_mesh::renderer::ChunkRenderer;
use voxel_mesh::renderer::Shader;
use voxel_mesh::renderer::TextureArray;

#[test]
fn allocate_sequence_disjoint_slots_monotonic_cursor() {
    let mut alloc = GeometryAllocator::new(64);
    let first = alloc.allocate(2).unwrap();
    assert_eq!(first, BufferSlot { start_bytes: 0, size_bytes: 16 });
    assert_eq!(alloc.allocation_end, 16);
    let second = alloc.allocate(3).unwrap();
    assert_eq!(second, BufferSlot { start_bytes: 16, size_bytes: 24 });
    assert_eq!(alloc.allocation_end, 40);
    let third = alloc.allocate(3).unwrap();
    assert_eq!(third, BufferSlot { start_bytes: 40, size_bytes: 24 });
    assert_eq!(alloc.allocation_end, 64);
    // pairwise disjoint byte ranges
    let slots = [first, second, third];
    for i in 0..slots.len() {
        for j in 0..slots.len() {
            if i != j {
                let a = slots[i];
                let b = slots[j];
                assert!(
                    a.start_bytes + a.size_bytes <= b.start_bytes
                        || b.start_bytes + b.size_bytes <= a.start_bytes
                );
            }
        }
    }
    assert_eq!(alloc.used_slots.len(), 3);
}

#[test]
fn allocate_over_capacity_fails_without_mutation() {
    let mut alloc = GeometryAllocator::new(64);
    alloc.allocate(5).unwrap();
    assert_eq!(alloc.allocation_end, 40);
    let err = alloc.allocate(10).unwrap_err();
    assert_eq!(err, AllocationExhausted { requested_quads: 10, available_quads: 3 });
    // cursor and slot list untouched by the refusal
    assert_eq!(alloc.allocation_end, 40);
    assert_eq!(alloc.used_slots.len(), 1);
    // a fitting request still succeeds afterwards
    let slot = alloc.allocate(3).unwrap();
    assert_eq!(slot, BufferSlot { start_bytes: 40, size_bytes: 24 });
    let err = alloc.allocate(1).unwrap_err();
    assert_eq!(err, AllocationExhausted { requested_quads: 1, available_quads: 0 });
}

#[test]
fn create_command_encodes_slot_in_quad_units() {
    let slot = BufferSlot { start_bytes: 16, size_bytes: 24 };
    let cmd = create_command(&slot, 99);
    assert_eq!(cmd.index_count, 18); // 3 quads, 6 indices each
    assert_eq!(cmd.instance_count, 1);
    assert_eq!(cmd.first_index, 0);
    assert_eq!(cmd.base_quad, 8); // quad 2, pre-shifted by corner bits
    assert_eq!(cmd.base_instance, 99);
}

#[test]
fn renderer_hands_out_commands_at_the_cursor() {
    let mut renderer = ChunkRenderer::create(
        Shader { id: 7 },
        TextureArray { id: 9, layers: 2 },
    );
    let cmd = renderer.get_draw_command(5, 77).unwrap();
    assert_eq!(cmd.index_count, 30);
    assert_eq!(cmd.instance_count, 1);
    assert_eq!(cmd.first_index, 0);
    assert_eq!(cmd.base_quad, 0);
    assert_eq!(cmd.base_instance, 77);
    let next = renderer.get_draw_command(1, 78).unwrap();
    assert_eq!(next.base_quad, 20); // quad 5 of the buffer, shifted by 2
    assert_eq!(renderer.allocator.allocation_end, 48);
    assert_eq!(renderer.shader.id, 7);
    assert_eq!(renderer.texture_array.layers, 2);
}

#[test]
fn renderer_reports_exhaustion() {
    let mut renderer = ChunkRenderer::create(
        Shader { id: 0 },
        TextureArray { id: 0, layers: 0 },
    );
    // the buffer holds 62,500,000 quads in all
    let err = renderer.get_draw_command(62_500_001, 0).unwrap_err();
    assert_eq!(err.requested_quads, 62_500_001);
    assert_eq!(err.available_quads, 62_500_000);
    assert_eq!(renderer.allocator.allocation_end, 0);
    let ok = renderer.get_draw_command(62_500_000, 0).unwrap();
    assert_eq!(ok.index_count, 375_000_000);
}

#[test]
fn base_instance_packs_position_and_direction() {
    let pos = ChunkPosition { x: 1, y: 2, z: 3 };
    assert_eq!(encode_base_instance(&pos, 4), 0x20_801C);
    let origin = ChunkPosition { x: 0, y: 0, z: 0 };
    assert_eq!(encode_base_instance(&origin, 5), 5);
    // negative coordinates wrap into the masked fields
    let negative = ChunkPosition { x: -1, y: -1, z: -1 };
    assert_eq!(encode_base_instance(&negative, 0), 0xFFFF_FFF8);
    // the direction is recoverable from the low bits
    assert_eq!(encode_base_instance(&pos, 4) & 7, 4);
}

#[test]
fn quad_index_buffer_corner_pattern() {
    let indices = build_quad_indices(2);
    assert_eq!(indices, vec![2, 0, 1, 1, 3, 2, 6, 4, 5, 5, 7, 6]);
    assert_eq!(build_quad_indices(0).len(), 0);
}
