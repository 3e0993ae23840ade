use ecg_world::{Block, BlockCoord, ChunkId, Direction, LogicChunk, TerrainStatus};

const SIZE: usize = 3;
const SIZE_SQUARE: usize = 9;
const SIZE_CUBE: usize = 27;

const BLOCKS: [Block; SIZE_CUBE] = [
    Block::Air, Block::Stone, Block::Air,
    Block::Stone, Block::Air, Block::Stone,
    Block::Air, Block::Stone, Block::Sand,

    Block::Stone, Block::Leaves, Block::Stone,
    Block::Grass, Block::Stone, Block::Dirt,
    Block::Stone, Block::Air, Block::Stone,

    Block::Air, Block::Stone, Block::Air,
    Block::Stone, Block::Air, Block::Stone,
    Block::Air, Block::Stone, Block::SandStone,
];

#[test]
fn neighbor_up() {
    assert_eq!(
        BLOCKS
            .into_iter()
            .enumerate()
            .filter_map(|(i, b)| if (i % SIZE_SQUARE) / (SIZE_SQUARE - SIZE) == 1 {
                Some(b)
            } else {
                None
            })
            .collect::<Vec<_>>(),
        [
            Block::Air,
            Block::Stone,
            Block::Sand,
            Block::Stone,
            Block::Air,
            Block::Stone,
            Block::Air,
            Block::Stone,
            Block::SandStone,
        ]
    );
}

#[test]
fn neighbor_down() {
    assert_eq!(
        BLOCKS
            .into_iter()
            .enumerate()
            .filter_map(|(i, b)| if i % SIZE_SQUARE < SIZE {
                Some(b)
            } else {
                None
            })
            .collect::<Vec<_>>(),
        [
            Block::Air,
            Block::Stone,
            Block::Air,
            Block::Stone,
            Block::Leaves,
            Block::Stone,
            Block::Air,
            Block::Stone,
            Block::Air,
        ]
    );
}

#[test]
fn neighbor_left() {
    assert_eq!(
        BLOCKS
            .into_iter()
            .skip(SIZE - 1)
            .step_by(SIZE)
            .collect::<Vec<_>>(),
        [
            Block::Air,
            Block::Stone,
            Block::Sand,
            Block::Stone,
            Block::Dirt,
            Block::Stone,
            Block::Air,
            Block::Stone,
            Block::SandStone,
        ]
    );
}

#[test]
fn neighbor_right() {
    assert_eq!(
        BLOCKS.into_iter().step_by(SIZE).collect::<Vec<_>>(),
        [
            Block::Air,
            Block::Stone,
            Block::Air,
            Block::Stone,
            Block::Grass,
            Block::Stone,
            Block::Air,
            Block::Stone,
            Block::Air,
        ]
    );
}

#[test]
fn neighbor_front() {
    assert_eq!(
        BLOCKS[..SIZE_SQUARE],
        [
            Block::Air,
            Block::Stone,
            Block::Air,
            Block::Stone,
            Block::Air,
            Block::Stone,
            Block::Air,
            Block::Stone,
            Block::Sand
        ]
    );
}

#[test]
fn neighbor_back() {
    assert_eq!(
        BLOCKS[(SIZE_CUBE - SIZE_SQUARE)..],
        [
            Block::Air,
            Block::Stone,
            Block::Air,
            Block::Stone,
            Block::Air,
            Block::Stone,
            Block::Air,
            Block::Stone,
            Block::SandStone,
        ]
    );
}

#[test]
fn direction_reverse() {
    assert!(matches!(Direction::Down.reverse(), Direction::Up));
    assert!(matches!(Direction::Up.reverse(), Direction::Down));
    assert!(matches!(Direction::Left.reverse(), Direction::Right));
    assert!(matches!(Direction::Right.reverse(), Direction::Left));
    assert!(matches!(Direction::Front.reverse(), Direction::Back));
    assert!(matches!(Direction::Back.reverse(), Direction::Front));
}

#[test]
fn block_coord_neighbors_and_edges() {
    let c = BlockCoord::new(1, 2, 3);
    assert_eq!(c.neighbor(Direction::Up), BlockCoord::new(1, 3, 3));
    assert_eq!(c.neighbor(Direction::Down), BlockCoord::new(1, 1, 3));
    assert_eq!(c.neighbor(Direction::Left), BlockCoord::new(0, 2, 3));
    assert_eq!(c.neighbor(Direction::Right), BlockCoord::new(2, 2, 3));
    assert_eq!(c.neighbor(Direction::Front), BlockCoord::new(1, 2, 2));
    assert_eq!(c.neighbor(Direction::Back), BlockCoord::new(1, 2, 4));
    assert!(BlockCoord::new(0, 5, 5).on_chunk_edge(Direction::Left));
    assert!(BlockCoord::new(15, 5, 5).on_chunk_edge(Direction::Right));
    assert!(BlockCoord::new(5, 0, 5).on_chunk_edge(Direction::Down));
    assert!(BlockCoord::new(5, 15, 5).on_chunk_edge(Direction::Up));
    assert!(BlockCoord::new(5, 5, 0).on_chunk_edge(Direction::Front));
    assert!(BlockCoord::new(5, 5, 15).on_chunk_edge(Direction::Back));
    assert!(!BlockCoord::new(5, 5, 5).on_chunk_edge(Direction::Up));
}

#[test]
fn logic_chunk_status_machine() {
    let mut chunk = LogicChunk::new();
    assert!(matches!(chunk.status(), TerrainStatus::Dirty));
    chunk.status = TerrainStatus::Built;
    let blocks = chunk.blocks_mut();
    blocks[0] = Block::Stone;
    assert!(matches!(chunk.status(), TerrainStatus::Dirty));
    assert_eq!(chunk.blocks[0], Block::Stone);
    assert!(chunk.has_opaque());
}

#[test]
fn logic_chunk_edges() {
    let mut chunk = LogicChunk::new();
    {
        let blocks = chunk.blocks_mut();
        // One marker per face, at a known offset of the 16x16x16 grid.
        blocks[BlockCoord::new(3, 0, 4).flatten()] = Block::Stone; // down
        blocks[BlockCoord::new(3, 15, 4).flatten()] = Block::Dirt; // up
        blocks[BlockCoord::new(3, 4, 15).flatten()] = Block::Sand; // left slice (z = 15)
        blocks[BlockCoord::new(3, 4, 0).flatten()] = Block::Grass; // right slice (z = 0)
        blocks[BlockCoord::new(0, 3, 4).flatten()] = Block::Ice; // front slice (first plane)
        blocks[BlockCoord::new(15, 3, 4).flatten()] = Block::Clay; // back slice (last plane)
    }
    let down = chunk.edge(Direction::Down);
    assert_eq!(down.len(), 256);
    assert_eq!(down[3 * 16 + 4], Block::Stone);
    let up = chunk.edge(Direction::Up);
    assert_eq!(up[3 * 16 + 4], Block::Dirt);
    let left = chunk.edge(Direction::Left);
    assert_eq!(left[3 * 16 + 4], Block::Sand);
    let right = chunk.edge(Direction::Right);
    assert_eq!(right[3 * 16 + 4], Block::Grass);
    let front = chunk.edge(Direction::Front);
    assert_eq!(front[3 * 16 + 4], Block::Ice);
    let back = chunk.edge(Direction::Back);
    assert_eq!(back[3 * 16 + 4], Block::Clay);
}

#[test]
fn generate_flat_layers() {
    // Chunk spanning global y in [-16, -1]: dirt on top ten layers' worth, stone below.
    let below = LogicChunk::generate_flat(ChunkId::new(0, -1, 0));
    assert!(matches!(below.status(), TerrainStatus::Dirty));
    for y in 0..16u8 {
        let b = below.blocks[BlockCoord::new(0, y, 0).flatten()];
        let gy = -16 + y as i32;
        if (-10..=-1).contains(&gy) {
            assert_eq!(b, Block::Dirt);
        } else {
            assert_eq!(b, Block::Stone);
        }
    }
    // Chunk spanning global y in [0, 15]: grass at y = 0, air above.
    let surface = LogicChunk::generate_flat(ChunkId::new(5, 0, -3));
    assert_eq!(surface.blocks[BlockCoord::new(2, 0, 9).flatten()], Block::Grass);
    assert_eq!(surface.blocks[BlockCoord::new(2, 1, 9).flatten()], Block::Air);
    // Chunk fully above ground is all air.
    let sky = LogicChunk::generate_flat(ChunkId::new(0, 1, 0));
    assert!(!sky.has_opaque());
    // Generation is a pure function of the id.
    let again = LogicChunk::generate_flat(ChunkId::new(0, -1, 0));
    assert_eq!(again.blocks, below.blocks);
}

#[test]
fn snapshot_copies_blocks() {
    let mut chunk = LogicChunk::new();
    chunk.blocks_mut()[7] = Block::Mud;
    let snap = chunk.snapshot();
    assert_eq!(snap.len(), 4096);
    assert_eq!(snap[7], Block::Mud);
    assert_eq!(snap[8], Block::Air);
}
