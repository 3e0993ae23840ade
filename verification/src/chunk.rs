use vstd::prelude::*;

use crate::block::Block;
use crate::coord::{spec_unflat_y, BlockCoord, ChunkId, CHUNK_CUBE, CHUNK_SIZE, CHUNK_SQUARE};
use crate::direction::Direction;

verus! {

/// Build state of a chunk's mesh.
///
/// `Dirty` marks a chunk whose stored geometry (if any) no longer
/// reflects its blocks; `Pending` marks a chunk whose mesh is being
/// built off-thread; `Built` marks a chunk whose geometry is current.
#[derive(Clone, Copy, Debug, PartialEq, Eq, Structural)]
pub enum TerrainStatus {
    Dirty,
    Pending,
    Built,
}

impl Default for TerrainStatus {
    /// A fresh chunk is dirty.
    fn default() -> (r: TerrainStatus)
        ensures
            r == TerrainStatus::Dirty,
    {
        TerrainStatus::Dirty
    }
}

/// One chunk's block storage together with its build status.
pub struct LogicChunk {
    pub blocks: Vec<Block>,
    pub status: TerrainStatus,
}

/// The terrain rule of the flat world: grass at height zero, dirt in
/// the ten layers below it, stone under that, air above.
pub open spec fn spec_flat_block(y: int) -> Block {
    if y == 0 {
        Block::Grass
    } else if -10 <= y <= -1 {
        Block::Dirt
    } else if y <= -11 {
        Block::Stone
    } else {
        Block::Air
    }
}

impl LogicChunk {
    /// The storage holds exactly one block per cell of the chunk.
    pub open spec fn wf(self) -> bool {
        self.blocks@.len() == 4096
    }

    /// An all-air chunk, marked dirty.
    pub fn new() -> (r: Self)
        ensures
            r.wf(),
            r.status == TerrainStatus::Dirty,
            forall|i: int| 0 <= i < 4096 ==> r.blocks@[i] == Block::Air,
    {
        LogicChunk { blocks: vec![Block::Air; CHUNK_CUBE], status: TerrainStatus::Dirty }
    }

    /// A chunk over the given block grid, marked dirty.
    pub fn from_blocks(blocks: Vec<Block>) -> (r: Self)
        requires
            blocks@.len() == 4096,
        ensures
            r.wf(),
            r.blocks == blocks,
            r.status == TerrainStatus::Dirty,
    {
        LogicChunk { blocks, status: TerrainStatus::Dirty }
    }

    /// The current build status.
    pub fn status(&self) -> (r: TerrainStatus)
        ensures
            r == self.status,
    {
        self.status
    }

    /// Mutable access to the block grid. Obtaining it marks the chunk
    /// dirty: this is the one path by which an edit schedules a later
    /// remesh.
    pub fn blocks_mut(&mut self) -> (r: &mut Vec<Block>)
        ensures
            *r == old(self).blocks,
            final(self).blocks == *final(r),
            final(self).status == TerrainStatus::Dirty,
    {
        self.status = TerrainStatus::Dirty;
        &mut self.blocks
    }

    /// An owned copy of the block grid, for handing to an off-thread
    /// mesh build.
    pub fn snapshot(&self) -> (r: Vec<Block>)
        ensures
            r@ == self.blocks@,
    {
        let mut v: Vec<Block> = Vec::new();
        let mut i: usize = 0;
        while i < self.blocks.len()
            invariant
                i <= self.blocks@.len(),
                v@ == self.blocks@.take(i as int),
            decreases self.blocks@.len() - i,
        {
            v.push(self.blocks[i]);
            assert(v@ =~= self.blocks@.take(i + 1));
            i = i + 1;
        }
        assert(v@ =~= self.blocks@);
        v
    }

    /// Whether at least one block of the chunk is opaque (so that a
    /// mesh build could emit geometry at all).
    pub fn has_opaque(&self) -> (r: bool)
        ensures
            r == exists|i: int| 0 <= i < self.blocks@.len() && self.blocks@[i].spec_opaque(),
    {
        let mut i: usize = 0;
        while i < self.blocks.len()
            invariant
                i <= self.blocks@.len(),
                forall|j: int| 0 <= j < i ==> !self.blocks@[j].spec_opaque(),
            decreases self.blocks@.len() - i,
        {
            if self.blocks[i].opaque() {
                return true;
            }
            i = i + 1;
        }
        false
    }

    /// Source index in the block grid of the `j`-th element of the
    /// `dir` face slice.
    pub open spec fn spec_edge_src(dir: Direction, j: int) -> int {
        match dir {
            Direction::Down => (j / 16) * 256 + j % 16,
            Direction::Up => (j / 16) * 256 + 240 + j % 16,
            Direction::Left => j * 16 + 15,
            Direction::Right => j * 16,
            Direction::Front => j,
            Direction::Back => 3840 + j,
        }
    }

    /// The one-block-deep slice of the grid on the `dir` face, in
    /// ascending storage order.
    pub fn edge(&self, dir: Direction) -> (r: Vec<Block>)
        requires
            self.wf(),
        ensures
            r@.len() == 256,
            forall|j: int| 0 <= j < 256 ==> r@[j] == self.blocks@[#[trigger] Self::spec_edge_src(dir, j)],
    {
        let mut v: Vec<Block> = Vec::new();
        let mut j: usize = 0;
        while j < CHUNK_SQUARE
            invariant
                self.wf(),
                j <= 256,
                v@.len() == j,
                forall|k: int| 0 <= k < j ==> v@[k] == self.blocks@[#[trigger] Self::spec_edge_src(dir, k)],
            decreases 256 - j,
        {
            let idx: usize = match dir {
                Direction::Down => (j / CHUNK_SIZE) * CHUNK_SQUARE + j % CHUNK_SIZE,
                Direction::Up => (j / CHUNK_SIZE) * CHUNK_SQUARE + 240 + j % CHUNK_SIZE,
                Direction::Left => j * CHUNK_SIZE + 15,
                Direction::Right => j * CHUNK_SIZE,
                Direction::Front => j,
                Direction::Back => 3840 + j,
            };
            assert(idx == Self::spec_edge_src(dir, j as int));
            assert(idx < 4096);
            v.push(self.blocks[idx]);
            j = j + 1;
        }
        v
    }

    /// Deterministic flat-world generation for the chunk at `id`: a
    /// pure function of the chunk id, safe to run on any thread.
    pub fn generate_flat(id: ChunkId) -> (r: LogicChunk)
        requires
            id.in_world_range(),
        ensures
            r.wf(),
            r.status == TerrainStatus::Dirty,
            forall|i: int|
                0 <= i < 4096 ==> r.blocks@[i] == spec_flat_block(
                    id.y * 16 + #[trigger] spec_unflat_y(i),
                ),
    {
        let coord = id.to_coord();
        let mut blocks: Vec<Block> = Vec::new();
        let mut i: usize = 0;
        while i < CHUNK_CUBE
            invariant
                id.in_world_range(),
                coord == id.spec_to_coord(),
                i <= 4096,
                blocks@.len() == i,
                forall|k: int|
                    0 <= k < i ==> blocks@[k] == spec_flat_block(
                        id.y * 16 + #[trigger] spec_unflat_y(k),
                    ),
            decreases 4096 - i,
        {
            let pos_block = BlockCoord::from(i);
            assert(pos_block.y < 16 && pos_block.x < 256 && pos_block.z < 16);
            let pos = coord.to_global(&pos_block);
            let b = if pos.y == 0 {
                Block::Grass
            } else if -10 <= pos.y && pos.y <= -1 {
                Block::Dirt
            } else if pos.y <= -11 {
                Block::Stone
            } else {
                Block::Air
            };
            blocks.push(b);
            i = i + 1;
        }
        LogicChunk::from_blocks(blocks)
    }
}

impl Default for LogicChunk {
    /// An all-air chunk, marked dirty.
    fn default() -> (r: LogicChunk)
        ensures
            r.wf(),
            r.status == TerrainStatus::Dirty,
            forall|i: int| 0 <= i < 4096 ==> r.blocks@[i] == Block::Air,
    {
        LogicChunk::new()
    }
}

} // verus!
