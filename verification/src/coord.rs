use vstd::prelude::*;

use crate::direction::Direction;

verus! {

/// World-space unit: one block along an axis.
pub type GlobalUnit = i32;
/// Chunk-local unit: a block offset inside a chunk.
pub type LocalUnit = u8;

/// Blocks along one edge of a chunk.
pub const CHUNK_SIZE: usize = 16;
/// Blocks in one `x` slice of a chunk.
pub const CHUNK_SQUARE: usize = 256;
/// Blocks in a whole chunk.
pub const CHUNK_CUBE: usize = 4096;

pub const G_CHUNK_SIZE: GlobalUnit = 16;
pub const G_CHUNK_SQUARE: GlobalUnit = 256;
pub const G_CHUNK_CUBE: GlobalUnit = 4096;

pub const L_CHUNK_SIZE: LocalUnit = 16;

/// Flat storage index of the block at local offset `(x, y, z)`:
/// `x` spans slices, `y` rows, `z` single blocks.
pub open spec fn spec_flatten(x: int, y: int, z: int) -> int {
    x * 256 + y * 16 + z
}

/// `x` component recovered from a flat index (wrapped to a byte, as the
/// narrowing cast of the inverse conversion does).
pub open spec fn spec_unflat_x(i: int) -> int {
    (i / 256) % 256
}

pub open spec fn spec_unflat_y(i: int) -> int {
    (i % 256) / 16
}

pub open spec fn spec_unflat_z(i: int) -> int {
    i % 16
}

/// The block offset recovered from flat index `i`; the inverse of
/// `spec_flatten` on well-formed offsets.
pub open spec fn spec_block_at(i: int) -> BlockCoord {
    BlockCoord {
        x: spec_unflat_x(i) as LocalUnit,
        y: spec_unflat_y(i) as LocalUnit,
        z: spec_unflat_z(i) as LocalUnit,
    }
}

/// Floor division of a world coordinate by the chunk edge length.
/// (`int` division is Euclidean, which agrees with floor division for a
/// positive divisor.)
fn fdiv16(v: GlobalUnit) -> (r: GlobalUnit)
    ensures
        r as int == v as int / 16,
{
    proof {
        vstd::arithmetic::div_mod::lemma_div_is_ordered(i32::MIN as int, v as int, 16);
        vstd::arithmetic::div_mod::lemma_div_is_ordered(v as int, i32::MAX as int, 16);
        vstd::arithmetic::div_mod::lemma_fundamental_div_mod_converse(
            i32::MIN as int,
            16,
            -134217728,
            0,
        );
        vstd::arithmetic::div_mod::lemma_fundamental_div_mod_converse(
            i32::MAX as int,
            16,
            134217727,
            15,
        );
    }
    match v.checked_div_euclid(16) {
        Some(q) => q,
        None => 0,
    }
}

/// Floor (Euclidean) remainder of a world coordinate by the chunk edge
/// length; always in `[0, 16)`.
fn fmod16(v: GlobalUnit) -> (r: GlobalUnit)
    ensures
        r as int == v as int % 16,
        0 <= r < 16,
{
    match v.checked_rem_euclid(16) {
        Some(m) => m,
        None => 0,
    }
}

/// Grid position of a chunk: one unit is one whole chunk.
#[derive(Clone, Copy, Debug, PartialEq, Eq, Hash, Structural)]
pub struct ChunkId {
    pub x: GlobalUnit,
    pub y: GlobalUnit,
    pub z: GlobalUnit,
}

/// Origin block position of a chunk, in global block units; always a
/// multiple of the chunk edge length on every axis.
#[derive(Clone, Copy, Debug, PartialEq, Eq, Hash, Structural)]
pub struct ChunkCoord {
    pub x: GlobalUnit,
    pub y: GlobalUnit,
    pub z: GlobalUnit,
}

/// Absolute block position in the world.
#[derive(Clone, Copy, Debug, PartialEq, Eq, Hash, Structural)]
pub struct GlobalCoord {
    pub x: GlobalUnit,
    pub y: GlobalUnit,
    pub z: GlobalUnit,
}

/// Offset of a block within its chunk; each component of a well-formed
/// offset lies in `[0, 16)`.
#[derive(Clone, Copy, Debug, PartialEq, Eq, Hash, Structural)]
pub struct BlockCoord {
    pub x: LocalUnit,
    pub y: LocalUnit,
    pub z: LocalUnit,
}

impl ChunkId {
    pub fn new(x: GlobalUnit, y: GlobalUnit, z: GlobalUnit) -> (r: Self)
        ensures
            r == (ChunkId { x, y, z }),
    {
        ChunkId { x, y, z }
    }

    /// All three components can be scaled to block units without leaving
    /// the representable coordinate range.
    pub open spec fn in_coord_range(self) -> bool {
        &&& -134217728 <= self.x <= 134217727
        &&& -134217728 <= self.y <= 134217727
        &&& -134217728 <= self.z <= 134217727
    }

    /// Every block position of this chunk is representable: the chunk
    /// origin can be computed and any local offset added to it.
    pub open spec fn in_world_range(self) -> bool {
        &&& -134217728 <= self.x <= 134217712
        &&& -134217728 <= self.y <= 134217712
        &&& -134217728 <= self.z <= 134217712
    }

    pub open spec fn spec_to_coord(self) -> ChunkCoord {
        ChunkCoord {
            x: (self.x * 16) as GlobalUnit,
            y: (self.y * 16) as GlobalUnit,
            z: (self.z * 16) as GlobalUnit,
        }
    }

    /// Origin block position of this chunk.
    pub fn to_coord(&self) -> (r: ChunkCoord)
        requires
            self.in_coord_range(),
        ensures
            r == self.spec_to_coord(),
    {
        ChunkCoord { x: self.x * G_CHUNK_SIZE, y: self.y * G_CHUNK_SIZE, z: self.z * G_CHUNK_SIZE }
    }

    pub open spec fn spec_neighbor(self, dir: Direction) -> ChunkId {
        match dir {
            Direction::Down => ChunkId { y: (self.y - 1) as GlobalUnit, ..self },
            Direction::Up => ChunkId { y: (self.y + 1) as GlobalUnit, ..self },
            Direction::Left => ChunkId { x: (self.x - 1) as GlobalUnit, ..self },
            Direction::Right => ChunkId { x: (self.x + 1) as GlobalUnit, ..self },
            Direction::Front => ChunkId { z: (self.z - 1) as GlobalUnit, ..self },
            Direction::Back => ChunkId { z: (self.z + 1) as GlobalUnit, ..self },
        }
    }

    /// The adjacent chunk id one step in `dir`.
    pub fn neighbor(&self, dir: Direction) -> (r: Self)
        requires
            dir == Direction::Down ==> self.y > i32::MIN,
            dir == Direction::Up ==> self.y < i32::MAX,
            dir == Direction::Left ==> self.x > i32::MIN,
            dir == Direction::Right ==> self.x < i32::MAX,
            dir == Direction::Front ==> self.z > i32::MIN,
            dir == Direction::Back ==> self.z < i32::MAX,
        ensures
            r == self.spec_neighbor(dir),
    {
        let mut new = *self;
        match dir {
            Direction::Down => new.y = new.y - 1,
            Direction::Up => new.y = new.y + 1,
            Direction::Left => new.x = new.x - 1,
            Direction::Right => new.x = new.x + 1,
            Direction::Front => new.z = new.z - 1,
            Direction::Back => new.z = new.z + 1,
        }
        new
    }
}

impl ChunkCoord {
    pub fn new(x: GlobalUnit, y: GlobalUnit, z: GlobalUnit) -> (r: Self)
        ensures
            r == (ChunkCoord { x, y, z }),
    {
        ChunkCoord { x, y, z }
    }

    /// Origin block position of the chunk that contains global position
    /// `(x, y, z)`: each component rounded down to a multiple of the
    /// chunk edge length.
    pub fn new_checked(x: GlobalUnit, y: GlobalUnit, z: GlobalUnit) -> (r: Self)
        ensures
            r.x as int == (x as int / 16) * 16,
            r.y as int == (y as int / 16) * 16,
            r.z as int == (z as int / 16) * 16,
    {
        ChunkCoord {
            x: fdiv16(x) * G_CHUNK_SIZE,
            y: fdiv16(y) * G_CHUNK_SIZE,
            z: fdiv16(z) * G_CHUNK_SIZE,
        }
    }


    pub open spec fn spec_neighbor(self, dir: Direction) -> ChunkCoord {
        match dir {
            Direction::Down => ChunkCoord { y: (self.y - 1) as GlobalUnit, ..self },
            Direction::Up => ChunkCoord { y: (self.y + 1) as GlobalUnit, ..self },
            Direction::Left => ChunkCoord { x: (self.x - 1) as GlobalUnit, ..self },
            Direction::Right => ChunkCoord { x: (self.x + 1) as GlobalUnit, ..self },
            Direction::Front => ChunkCoord { z: (self.z - 1) as GlobalUnit, ..self },
            Direction::Back => ChunkCoord { z: (self.z + 1) as GlobalUnit, ..self },
        }
    }

    /// The position one block over in `dir`.
    pub fn neighbor(&self, dir: Direction) -> (r: Self)
        requires
            dir == Direction::Down ==> self.y > i32::MIN,
            dir == Direction::Up ==> self.y < i32::MAX,
            dir == Direction::Left ==> self.x > i32::MIN,
            dir == Direction::Right ==> self.x < i32::MAX,
            dir == Direction::Front ==> self.z > i32::MIN,
            dir == Direction::Back ==> self.z < i32::MAX,
        ensures
            r == self.spec_neighbor(dir),
    {
        let mut new = *self;
        match dir {
            Direction::Down => new.y = new.y - 1,
            Direction::Up => new.y = new.y + 1,
            Direction::Left => new.x = new.x - 1,
            Direction::Right => new.x = new.x + 1,
            Direction::Front => new.z = new.z - 1,
            Direction::Back => new.z = new.z + 1,
        }
        new
    }

    pub open spec fn spec_to_id(self) -> ChunkId {
        ChunkId {
            x: (self.x as int / 16) as GlobalUnit,
            y: (self.y as int / 16) as GlobalUnit,
            z: (self.z as int / 16) as GlobalUnit,
        }
    }

    /// Grid position of the chunk whose origin this is.
    pub fn to_id(&self) -> (r: ChunkId)
        ensures
            r == self.spec_to_id(),
    {
        ChunkId { x: fdiv16(self.x), y: fdiv16(self.y), z: fdiv16(self.z) }
    }

    /// Every block offset can be added without leaving the representable
    /// coordinate range.
    pub open spec fn in_global_range(self) -> bool {
        &&& self.x + 255 <= i32::MAX
        &&& self.y + 255 <= i32::MAX
        &&& self.z + 255 <= i32::MAX
    }

    pub open spec fn spec_to_global(self, block: BlockCoord) -> GlobalCoord {
        GlobalCoord {
            x: (self.x + block.x) as GlobalUnit,
            y: (self.y + block.y) as GlobalUnit,
            z: (self.z + block.z) as GlobalUnit,
        }
    }

    /// Global position of the block at offset `block` within the chunk
    /// whose origin this is.
    pub fn to_global(&self, block: &BlockCoord) -> (r: GlobalCoord)
        requires
            self.in_global_range(),
        ensures
            r == self.spec_to_global(*block),
    {
        GlobalCoord {
            x: self.x + block.x as GlobalUnit,
            y: self.y + block.y as GlobalUnit,
            z: self.z + block.z as GlobalUnit,
        }
    }
}

impl GlobalCoord {
    pub fn new(x: GlobalUnit, y: GlobalUnit, z: GlobalUnit) -> (r: Self)
        ensures
            r == (GlobalCoord { x, y, z }),
    {
        GlobalCoord { x, y, z }
    }


    pub open spec fn spec_neighbor(self, dir: Direction) -> GlobalCoord {
        match dir {
            Direction::Down => GlobalCoord { y: (self.y - 1) as GlobalUnit, ..self },
            Direction::Up => GlobalCoord { y: (self.y + 1) as GlobalUnit, ..self },
            Direction::Left => GlobalCoord { x: (self.x - 1) as GlobalUnit, ..self },
            Direction::Right => GlobalCoord { x: (self.x + 1) as GlobalUnit, ..self },
            Direction::Front => GlobalCoord { z: (self.z - 1) as GlobalUnit, ..self },
            Direction::Back => GlobalCoord { z: (self.z + 1) as GlobalUnit, ..self },
        }
    }

    /// The global position one block over in `dir`.
    pub fn neighbor(&self, dir: Direction) -> (r: Self)
        requires
            dir == Direction::Down ==> self.y > i32::MIN,
            dir == Direction::Up ==> self.y < i32::MAX,
            dir == Direction::Left ==> self.x > i32::MIN,
            dir == Direction::Right ==> self.x < i32::MAX,
            dir == Direction::Front ==> self.z > i32::MIN,
            dir == Direction::Back ==> self.z < i32::MAX,
        ensures
            r == self.spec_neighbor(dir),
    {
        let mut new = *self;
        match dir {
            Direction::Down => new.y = new.y - 1,
            Direction::Up => new.y = new.y + 1,
            Direction::Left => new.x = new.x - 1,
            Direction::Right => new.x = new.x + 1,
            Direction::Front => new.z = new.z - 1,
            Direction::Back => new.z = new.z + 1,
        }
        new
    }

    pub open spec fn spec_to_chunk_id(self) -> ChunkId {
        ChunkId {
            x: (self.x as int / 16) as GlobalUnit,
            y: (self.y as int / 16) as GlobalUnit,
            z: (self.z as int / 16) as GlobalUnit,
        }
    }

    /// Grid position of the chunk containing this block, by floor
    /// division, so that negative coordinates map consistently.
    pub fn to_chunk_id(&self) -> (r: ChunkId)
        ensures
            r == self.spec_to_chunk_id(),
    {
        ChunkId { x: fdiv16(self.x), y: fdiv16(self.y), z: fdiv16(self.z) }
    }

    pub open spec fn spec_to_chunk(self) -> ChunkCoord {
        ChunkCoord {
            x: ((self.x as int / 16) * 16) as GlobalUnit,
            y: ((self.y as int / 16) * 16) as GlobalUnit,
            z: ((self.z as int / 16) * 16) as GlobalUnit,
        }
    }

    /// Origin block position of the chunk containing this block.
    pub fn to_chunk(&self) -> (r: ChunkCoord)
        ensures
            r == self.spec_to_chunk(),
    {
        ChunkCoord {
            x: fdiv16(self.x) * G_CHUNK_SIZE,
            y: fdiv16(self.y) * G_CHUNK_SIZE,
            z: fdiv16(self.z) * G_CHUNK_SIZE,
        }
    }

    pub open spec fn spec_to_block(self) -> BlockCoord {
        BlockCoord {
            x: (self.x as int % 16) as LocalUnit,
            y: (self.y as int % 16) as LocalUnit,
            z: (self.z as int % 16) as LocalUnit,
        }
    }

    /// Offset of this block within its chunk: the floor remainder of
    /// each component by the chunk edge length.
    pub fn to_block(&self) -> (r: BlockCoord)
        ensures
            r == self.spec_to_block(),
            r.wf(),
    {
        BlockCoord {
            x: fmod16(self.x) as LocalUnit,
            y: fmod16(self.y) as LocalUnit,
            z: fmod16(self.z) as LocalUnit,
        }
    }
}

impl BlockCoord {
    /// Every component lies inside the chunk.
    pub open spec fn wf(self) -> bool {
        self.x < 16 && self.y < 16 && self.z < 16
    }

    pub fn new(x: LocalUnit, y: LocalUnit, z: LocalUnit) -> (r: Self)
        ensures
            r == (BlockCoord { x, y, z }),
    {
        BlockCoord { x, y, z }
    }

    pub open spec fn spec_neighbor(self, dir: Direction) -> BlockCoord {
        match dir {
            Direction::Down => BlockCoord { y: (self.y - 1) as LocalUnit, ..self },
            Direction::Up => BlockCoord { y: (self.y + 1) as LocalUnit, ..self },
            Direction::Left => BlockCoord { x: (self.x - 1) as LocalUnit, ..self },
            Direction::Right => BlockCoord { x: (self.x + 1) as LocalUnit, ..self },
            Direction::Front => BlockCoord { z: (self.z - 1) as LocalUnit, ..self },
            Direction::Back => BlockCoord { z: (self.z + 1) as LocalUnit, ..self },
        }
    }

    /// The block offset one step in `dir`; the caller must not step over
    /// the edge the direction points at.
    pub fn neighbor(&self, dir: Direction) -> (r: Self)
        requires
            dir == Direction::Down ==> self.y > 0,
            dir == Direction::Up ==> self.y < 255,
            dir == Direction::Left ==> self.x > 0,
            dir == Direction::Right ==> self.x < 255,
            dir == Direction::Front ==> self.z > 0,
            dir == Direction::Back ==> self.z < 255,
        ensures
            r == self.spec_neighbor(dir),
    {
        let mut new = *self;
        match dir {
            Direction::Down => new.y = new.y - 1,
            Direction::Up => new.y = new.y + 1,
            Direction::Left => new.x = new.x - 1,
            Direction::Right => new.x = new.x + 1,
            Direction::Front => new.z = new.z - 1,
            Direction::Back => new.z = new.z + 1,
        }
        new
    }

    pub open spec fn spec_on_chunk_edge(self, dir: Direction) -> bool {
        match dir {
            Direction::Down => self.y == 0,
            Direction::Up => self.y == 15,
            Direction::Left => self.x == 0,
            Direction::Right => self.x == 15,
            Direction::Front => self.z == 0,
            Direction::Back => self.z == 15,
        }
    }

    /// Whether the face of this block in `dir` lies on the chunk
    /// boundary, so that its neighbor in `dir` falls outside the chunk.
    pub fn on_chunk_edge(&self, dir: Direction) -> (r: bool)
        ensures
            r == self.spec_on_chunk_edge(dir),
    {
        match dir {
            Direction::Down => self.y == 0,
            Direction::Up => self.y == L_CHUNK_SIZE - 1,
            Direction::Left => self.x == 0,
            Direction::Right => self.x == L_CHUNK_SIZE - 1,
            Direction::Front => self.z == 0,
            Direction::Back => self.z == L_CHUNK_SIZE - 1,
        }
    }

    pub open spec fn spec_flatten(self) -> int {
        spec_flatten(self.x as int, self.y as int, self.z as int)
    }

    /// Flat storage index of this block offset.
    pub fn flatten(&self) -> (r: usize)
        ensures
            r == self.spec_flatten(),
            self.wf() ==> r < 4096,
    {
        (self.x as usize) * CHUNK_SQUARE + (self.y as usize) * CHUNK_SIZE + (self.z as usize)
    }
}


impl Default for ChunkId {
    /// The origin chunk.
    fn default() -> (r: ChunkId)
        ensures
            r == (ChunkId { x: 0, y: 0, z: 0 }),
    {
        ChunkId { x: 0, y: 0, z: 0 }
    }
}

impl Default for ChunkCoord {
    /// The origin chunk's origin.
    fn default() -> (r: ChunkCoord)
        ensures
            r == (ChunkCoord { x: 0, y: 0, z: 0 }),
    {
        ChunkCoord { x: 0, y: 0, z: 0 }
    }
}

impl Default for GlobalCoord {
    /// The world origin.
    fn default() -> (r: GlobalCoord)
        ensures
            r == (GlobalCoord { x: 0, y: 0, z: 0 }),
    {
        GlobalCoord { x: 0, y: 0, z: 0 }
    }
}

impl Default for BlockCoord {
    /// The chunk-local origin.
    fn default() -> (r: BlockCoord)
        ensures
            r == (BlockCoord { x: 0, y: 0, z: 0 }),
    {
        BlockCoord { x: 0, y: 0, z: 0 }
    }
}

impl core::convert::From<usize> for BlockCoord {
    /// Inverse of `flatten`: recovers the block offset from a flat
    /// index by integer division and remainder.
    fn from(idx: usize) -> (r: BlockCoord) {
        let xe: LocalUnit = ((idx / CHUNK_SQUARE) % CHUNK_SQUARE) as LocalUnit;
        let ye: LocalUnit = ((idx % CHUNK_SQUARE) / CHUNK_SIZE) as LocalUnit;
        let ze: LocalUnit = (idx % CHUNK_SIZE) as LocalUnit;
        assert(xe as int == spec_unflat_x(idx as int));
        assert(ye as int == spec_unflat_y(idx as int));
        assert(ze as int == spec_unflat_z(idx as int));
        BlockCoord { x: xe, y: ye, z: ze }
    }
}

impl vstd::std_specs::convert::FromSpecImpl<usize> for BlockCoord {
    open spec fn obeys_from_spec() -> bool {
        true
    }

    open spec fn from_spec(idx: usize) -> BlockCoord {
        spec_block_at(idx as int)
    }
}

impl core::convert::From<GlobalUnit> for BlockCoord {
    /// Inverse of `flatten` for a signed flat index, with Euclidean
    /// division, as the unsigned conversion behaves on its range.
    fn from(idx: GlobalUnit) -> (r: BlockCoord) {
        let q: GlobalUnit = match idx.checked_div_euclid(G_CHUNK_SQUARE) {
            Some(q) => q,
            None => 0,
        };
        let m256: GlobalUnit = match idx.checked_rem_euclid(G_CHUNK_SQUARE) {
            Some(m) => m,
            None => 0,
        };
        proof {
            vstd::arithmetic::div_mod::lemma_div_is_ordered(i32::MIN as int, idx as int, 256);
            vstd::arithmetic::div_mod::lemma_div_is_ordered(idx as int, i32::MAX as int, 256);
            vstd::arithmetic::div_mod::lemma_fundamental_div_mod_converse(
                i32::MIN as int,
                256,
                -8388608,
                0,
            );
            vstd::arithmetic::div_mod::lemma_fundamental_div_mod_converse(
                i32::MAX as int,
                256,
                8388607,
                255,
            );
        }
        let xw: GlobalUnit = match q.checked_rem_euclid(G_CHUNK_SQUARE) {
            Some(m) => m,
            None => 0,
        };
        let xe: LocalUnit = xw as LocalUnit;
        let ye: LocalUnit = (m256 / G_CHUNK_SIZE) as LocalUnit;
        let ze: LocalUnit = fmod16(idx) as LocalUnit;
        assert(xe as int == spec_unflat_x(idx as int));
        assert(ye as int == spec_unflat_y(idx as int));
        assert(ze as int == spec_unflat_z(idx as int));
        BlockCoord { x: xe, y: ye, z: ze }
    }
}

impl vstd::std_specs::convert::FromSpecImpl<GlobalUnit> for BlockCoord {
    open spec fn obeys_from_spec() -> bool {
        true
    }

    open spec fn from_spec(idx: GlobalUnit) -> BlockCoord {
        spec_block_at(idx as int)
    }
}

/// The offset recovered from an in-range flat index is well-formed,
/// and flattening it gives the index back.
pub proof fn lemma_block_at_wf(i: int)
    requires
        0 <= i < 4096,
    ensures
        spec_block_at(i).wf(),
        spec_block_at(i).spec_flatten() == i,
{
    vstd::arithmetic::div_mod::lemma_div_is_ordered(i, 4095, 256);
    assert(4095int / 256 == 15) by {
        vstd::arithmetic::div_mod::lemma_fundamental_div_mod_converse(4095, 256, 15, 255);
    }
    vstd::arithmetic::div_mod::lemma_small_mod((i / 256) as nat, 256);
    vstd::arithmetic::div_mod::lemma_div_is_ordered(i % 256, 255, 16);
    assert(255int / 16 == 15) by {
        vstd::arithmetic::div_mod::lemma_fundamental_div_mod_converse(255, 16, 15, 15);
    }
    lemma_flatten_unflatten(i);
}

/// Law: flattening the offset recovered from any in-range flat index
/// gives that index back.
pub proof fn lemma_flatten_unflatten(i: int)
    requires
        0 <= i < 4096,
    ensures
        spec_flatten(spec_unflat_x(i), spec_unflat_y(i), spec_unflat_z(i)) == i,
{
    vstd::arithmetic::div_mod::lemma_fundamental_div_mod(i, 256);
    vstd::arithmetic::div_mod::lemma_fundamental_div_mod(i % 256, 16);
    assert(i / 256 < 16) by {
        vstd::arithmetic::div_mod::lemma_div_is_ordered(i, 4095, 256);
    }
    assert((i / 256) % 256 == i / 256) by {
        vstd::arithmetic::div_mod::lemma_small_mod((i / 256) as nat, 256);
    }
    assert(i % 16 == (i % 256) % 16) by {
        vstd::arithmetic::div_mod::lemma_mod_mod(i, 16, 16);
    }
}

/// Law: recovering the offset from the flat index of any well-formed
/// block offset gives that offset back.
pub proof fn lemma_unflatten_flatten(x: int, y: int, z: int)
    requires
        0 <= x < 16,
        0 <= y < 16,
        0 <= z < 16,
    ensures
        spec_unflat_x(spec_flatten(x, y, z)) == x,
        spec_unflat_y(spec_flatten(x, y, z)) == y,
        spec_unflat_z(spec_flatten(x, y, z)) == z,
{
    let f = spec_flatten(x, y, z);
    vstd::arithmetic::div_mod::lemma_fundamental_div_mod_converse(f, 256, x, y * 16 + z);
    assert(x % 256 == x) by {
        vstd::arithmetic::div_mod::lemma_small_mod(x as nat, 256);
    }
    vstd::arithmetic::div_mod::lemma_fundamental_div_mod_converse(f % 256, 16, y, z);
    vstd::arithmetic::div_mod::lemma_fundamental_div_mod_converse(f, 16, x * 16 + y, z);
}

/// Law: for any global position, the origin of its chunk reached
/// through the chunk id equals the origin computed directly.
pub proof fn lemma_chunk_global_round_trip(g: GlobalCoord)
    requires
        g.spec_to_chunk_id().in_coord_range(),
    ensures
        g.spec_to_chunk_id().spec_to_coord() == g.spec_to_chunk(),
{
}

/// Law: chunk origin plus local offset recovers the global position:
/// splitting a global position into its chunk and its block offset and
/// recombining them is the identity.
pub proof fn lemma_global_split_round_trip(g: GlobalCoord)
    ensures
        g.spec_to_chunk().spec_to_global(g.spec_to_block()) == g,
{
    vstd::arithmetic::div_mod::lemma_fundamental_div_mod(g.x as int, 16);
    vstd::arithmetic::div_mod::lemma_fundamental_div_mod(g.y as int, 16);
    vstd::arithmetic::div_mod::lemma_fundamental_div_mod(g.z as int, 16);
}

} // verus!
