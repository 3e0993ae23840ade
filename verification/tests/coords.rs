//! Tests assume the chunk edge length is 16 blocks.

use ecg_world::{Block, BlockCoord, ChunkCoord, ChunkId, GlobalCoord};

#[test]
fn block_from_usize() {
    assert_eq!(BlockCoord::from(0_usize), BlockCoord::new(0, 0, 0));
    assert_eq!(BlockCoord::from(291_usize), BlockCoord::new(1, 2, 3));
    assert_eq!(BlockCoord::from(801_usize), BlockCoord::new(3, 2, 1));
    assert_eq!(BlockCoord::from(4104_usize), BlockCoord::new(16, 0, 8));
}

#[test]
fn global_to_chunk_id() {
    assert_eq!(GlobalCoord::new(0, 0, 0).to_chunk_id(), ChunkId::new(0, 0, 0));
    assert_eq!(GlobalCoord::new(15, 15, 15).to_chunk_id(), ChunkId::new(0, 0, 0));
    assert_eq!(
        GlobalCoord::new(31, 31, 31).to_chunk_id(),
        ChunkId::new(1, 1, 1)
    );
    assert_eq!(
        GlobalCoord::new(127, 31, 256).to_chunk_id(),
        ChunkId::new(7, 1, 16)
    );
}

#[test]
fn global_to_chunk() {
    assert_eq!(GlobalCoord::new(0, 0, 0).to_chunk(), ChunkCoord::new(0, 0, 0));
    assert_eq!(GlobalCoord::new(15, 15, 15).to_chunk(), ChunkCoord::new(0, 0, 0));
    assert_eq!(
        GlobalCoord::new(31, 31, 31).to_chunk(),
        ChunkCoord::new(16, 16, 16)
    );
    assert_eq!(
        GlobalCoord::new(127, 31, 256).to_chunk(),
        ChunkCoord::new(112, 16, 256)
    );
}

#[test]
fn global_to_block() {
    assert_eq!(GlobalCoord::new(0, 0, 0).to_block(), BlockCoord::new(0, 0, 0));
    assert_eq!(
        GlobalCoord::new(15, 15, 15).to_block(),
        BlockCoord::new(15, 15, 15)
    );
    assert_eq!(
        GlobalCoord::new(31, 31, 31).to_block(),
        BlockCoord::new(15, 15, 15)
    );
    assert_eq!(
        GlobalCoord::new(127, 31, 256).to_block(),
        BlockCoord::new(15, 15, 0)
    );
    assert_eq!(
        GlobalCoord::new(156, 33, 264).to_block(),
        BlockCoord::new(12, 1, 8)
    );
}

#[test]
fn global_to_chunk_negative_floors() {
    assert_eq!(GlobalCoord::new(-1, -16, -17).to_chunk_id(), ChunkId::new(-1, -1, -2));
    assert_eq!(
        GlobalCoord::new(-1, -16, -17).to_chunk(),
        ChunkCoord::new(-16, -16, -32)
    );
    assert_eq!(
        GlobalCoord::new(-1, -16, -17).to_block(),
        BlockCoord::new(15, 0, 15)
    );
}

#[test]
fn chunk_global_round_trip_samples() {
    for g in [
        GlobalCoord::new(0, 0, 0),
        GlobalCoord::new(127, 31, 256),
        GlobalCoord::new(-1, -33, 14),
        GlobalCoord::new(-4096, 17, -250),
    ] {
        assert_eq!(g.to_chunk_id().to_coord(), g.to_chunk());
        let chunk = g.to_chunk();
        let block = g.to_block();
        assert_eq!(chunk.to_global(&block), g);
    }
}

#[test]
fn flatten_unflatten_round_trip() {
    for i in 0..4096_usize {
        assert_eq!(BlockCoord::from(i).flatten(), i);
    }
    for x in 0..16_u8 {
        for y in 0..16_u8 {
            for z in 0..16_u8 {
                let c = BlockCoord::new(x, y, z);
                assert_eq!(BlockCoord::from(c.flatten()), c);
            }
        }
    }
}

#[test]
fn block_from_signed_index() {
    assert_eq!(BlockCoord::from(291_i32), BlockCoord::new(1, 2, 3));
    assert_eq!(BlockCoord::from(0_i32), BlockCoord::new(0, 0, 0));
}

#[test]
fn chunk_coord_new_checked_floors() {
    assert_eq!(ChunkCoord::new_checked(17, -1, 31), ChunkCoord::new(16, -16, 16));
    assert_eq!(ChunkCoord::new_checked(0, 0, 0), ChunkCoord::new(0, 0, 0));
}

#[test]
fn block_catalog_ids_round_trip() {
    for id in Block::MIN..=Block::MAX {
        assert_eq!(Block::from(id).id(), id);
    }
    assert_eq!(Block::from(200_u8), Block::Air);
    assert_eq!(Block::ALL.len(), 17);
    for (n, kind) in Block::ALL.iter().enumerate() {
        assert_eq!(kind.id() as usize, n);
    }
}

#[test]
fn block_opacity_and_liquids() {
    assert!(!Block::Air.opaque());
    assert!(Block::Stone.opaque());
    assert!(Block::Water.liquid());
    assert!(Block::MovingLava.liquid());
    assert!(!Block::Grass.liquid());
}

#[test]
fn block_colors() {
    let grass = Block::Grass.color();
    assert_eq!((grass.r, grass.g, grass.b), (1890, 8200, 3780));
    let stone = Block::Stone.color();
    assert_eq!((stone.r, stone.g, stone.b), (5250, 5300, 5200));
}
