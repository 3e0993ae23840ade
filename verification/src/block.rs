use vstd::prelude::*;

verus! {

/// Numeric identifier of a block kind.
pub type BlockRepr = u8;

/// The fixed catalog of block kinds.
#[derive(Clone, Copy, Debug, PartialEq, Eq, Structural)]
pub enum Block {
    Air,
    // Basic
    Stone,
    Dirt,
    Grass,
    Leaves,
    // Liquid
    Water,
    MovingWater,
    Magma,
    MovingMagma,
    Lava,
    MovingLava,
    // Hot Biomes
    SandStone,
    Sand,
    // Temperate Biomes
    Clay,
    Mud,
    // Cold Biomes
    SnowBlock,
    Ice,
}

/// A block color, with each channel in ten-thousandths of full
/// intensity, so that the catalog stays in integer arithmetic; a
/// renderer divides by 10000 to recover the unit-range channel.
#[derive(Clone, Copy, Debug, PartialEq, Eq, Structural)]
pub struct Rgb {
    pub r: u16,
    pub g: u16,
    pub b: u16,
}

impl Block {
    /// Smallest block identifier of the catalog.
    pub const MIN: BlockRepr = 0;

    /// Largest block identifier of the catalog.
    pub const MAX: BlockRepr = 16;

    /// Every block kind, in identifier order.
    pub const ALL: [Block; 17] = [
        Block::Air,
        Block::Stone,
        Block::Dirt,
        Block::Grass,
        Block::Leaves,
        Block::Water,
        Block::MovingWater,
        Block::Magma,
        Block::MovingMagma,
        Block::Lava,
        Block::MovingLava,
        Block::SandStone,
        Block::Sand,
        Block::Clay,
        Block::Mud,
        Block::SnowBlock,
        Block::Ice,
    ];

    pub open spec fn spec_id(self) -> BlockRepr {
        match self {
            Block::Air => 0,
            Block::Stone => 1,
            Block::Dirt => 2,
            Block::Grass => 3,
            Block::Leaves => 4,
            Block::Water => 5,
            Block::MovingWater => 6,
            Block::Magma => 7,
            Block::MovingMagma => 8,
            Block::Lava => 9,
            Block::MovingLava => 10,
            Block::SandStone => 11,
            Block::Sand => 12,
            Block::Clay => 13,
            Block::Mud => 14,
            Block::SnowBlock => 15,
            Block::Ice => 16,
        }
    }

    /// The numeric identifier of this block kind.
    pub fn id(&self) -> (r: BlockRepr)
        ensures
            r == self.spec_id(),
    {
        match self {
            Block::Air => 0,
            Block::Stone => 1,
            Block::Dirt => 2,
            Block::Grass => 3,
            Block::Leaves => 4,
            Block::Water => 5,
            Block::MovingWater => 6,
            Block::Magma => 7,
            Block::MovingMagma => 8,
            Block::Lava => 9,
            Block::MovingLava => 10,
            Block::SandStone => 11,
            Block::Sand => 12,
            Block::Clay => 13,
            Block::Mud => 14,
            Block::SnowBlock => 15,
            Block::Ice => 16,
        }
    }

    /// A block occludes the faces of its neighbors exactly when it is
    /// not air.
    pub open spec fn spec_opaque(self) -> bool {
        self != Block::Air
    }

    /// Whether this block fully occludes adjacent faces.
    pub fn opaque(&self) -> (r: bool)
        ensures
            r == self.spec_opaque(),
    {
        !matches!(self, Block::Air)
    }

    pub open spec fn spec_liquid(self) -> bool {
        match self {
            Block::Water
            | Block::MovingWater
            | Block::Magma
            | Block::MovingMagma
            | Block::Lava
            | Block::MovingLava => true,
            _ => false,
        }
    }

    /// Whether this block kind is a liquid.
    pub fn liquid(&self) -> (r: bool)
        ensures
            r == self.spec_liquid(),
    {
        matches!(
            self,
            Block::Water
                | Block::MovingWater
                | Block::Magma
                | Block::MovingMagma
                | Block::Lava
                | Block::MovingLava
        )
    }

    pub open spec fn spec_color(self) -> Rgb {
        match self {
            Block::Air => Rgb { r: 10000, g: 10000, b: 10000 },
            Block::Stone => Rgb { r: 5250, g: 5300, b: 5200 },
            Block::Dirt => Rgb { r: 2800, g: 1600, b: 470 },
            Block::Grass => Rgb { r: 1890, g: 8200, b: 3780 },
            Block::Leaves => Rgb { r: 1040, g: 6900, b: 3670 },
            Block::Water => Rgb { r: 456, g: 5930, b: 7600 },
            Block::MovingWater => Rgb { r: 456, g: 5930, b: 7600 },
            Block::Magma => Rgb { r: 8900, g: 534, b: 534 },
            Block::MovingMagma => Rgb { r: 8900, g: 534, b: 534 },
            Block::Lava => Rgb { r: 10000, g: 3480, b: 1500 },
            Block::MovingLava => Rgb { r: 10000, g: 3480, b: 1500 },
            Block::SandStone => Rgb { r: 7600, g: 7550, b: 4640 },
            Block::Sand => Rgb { r: 8200, g: 8150, b: 5330 },
            Block::Clay => Rgb { r: 6910, g: 7000, b: 6090 },
            Block::Mud => Rgb { r: 1700, g: 1310, b: 221 },
            Block::SnowBlock => Rgb { r: 9800, g: 9800, b: 9800 },
            Block::Ice => Rgb { r: 7470, g: 8770, b: 9700 },
        }
    }

    /// The static display color of this block kind.
    pub fn color(&self) -> (r: Rgb)
        ensures
            r == self.spec_color(),
    {
        match self {
            Block::Air => Rgb { r: 10000, g: 10000, b: 10000 },
            Block::Stone => Rgb { r: 5250, g: 5300, b: 5200 },
            Block::Dirt => Rgb { r: 2800, g: 1600, b: 470 },
            Block::Grass => Rgb { r: 1890, g: 8200, b: 3780 },
            Block::Leaves => Rgb { r: 1040, g: 6900, b: 3670 },
            Block::Water => Rgb { r: 456, g: 5930, b: 7600 },
            Block::MovingWater => Rgb { r: 456, g: 5930, b: 7600 },
            Block::Magma => Rgb { r: 8900, g: 534, b: 534 },
            Block::MovingMagma => Rgb { r: 8900, g: 534, b: 534 },
            Block::Lava => Rgb { r: 10000, g: 3480, b: 1500 },
            Block::MovingLava => Rgb { r: 10000, g: 3480, b: 1500 },
            Block::SandStone => Rgb { r: 7600, g: 7550, b: 4640 },
            Block::Sand => Rgb { r: 8200, g: 8150, b: 5330 },
            Block::Clay => Rgb { r: 6910, g: 7000, b: 6090 },
            Block::Mud => Rgb { r: 1700, g: 1310, b: 221 },
            Block::SnowBlock => Rgb { r: 9800, g: 9800, b: 9800 },
            Block::Ice => Rgb { r: 7470, g: 8770, b: 9700 },
        }
    }
}

impl Default for Block {
    /// The empty world is air.
    fn default() -> (r: Block)
        ensures
            r == Block::Air,
    {
        Block::Air
    }
}

pub open spec fn spec_block_from_id(id: BlockRepr) -> Block {
    match id {
        0 => Block::Air,
        1 => Block::Stone,
        2 => Block::Dirt,
        3 => Block::Grass,
        4 => Block::Leaves,
        5 => Block::Water,
        6 => Block::MovingWater,
        7 => Block::Magma,
        8 => Block::MovingMagma,
        9 => Block::Lava,
        10 => Block::MovingLava,
        11 => Block::SandStone,
        12 => Block::Sand,
        13 => Block::Clay,
        14 => Block::Mud,
        15 => Block::SnowBlock,
        16 => Block::Ice,
        _ => Block::Air,
    }
}

impl core::convert::From<BlockRepr> for Block {
    /// Inverse of `id`; an identifier past the catalog maps to air.
    fn from(id: BlockRepr) -> (r: Block) {
        match id {
            0 => Block::Air,
            1 => Block::Stone,
            2 => Block::Dirt,
            3 => Block::Grass,
            4 => Block::Leaves,
            5 => Block::Water,
            6 => Block::MovingWater,
            7 => Block::Magma,
            8 => Block::MovingMagma,
            9 => Block::Lava,
            10 => Block::MovingLava,
            11 => Block::SandStone,
            12 => Block::Sand,
            13 => Block::Clay,
            14 => Block::Mud,
            15 => Block::SnowBlock,
            16 => Block::Ice,
            _ => Block::Air,
        }
    }
}

impl vstd::std_specs::convert::FromSpecImpl<BlockRepr> for Block {
    open spec fn obeys_from_spec() -> bool {
        true
    }

    open spec fn from_spec(id: BlockRepr) -> Block {
        spec_block_from_id(id)
    }
}

/// Law: recovering a block kind from its numeric identifier gives the
/// kind back, for every kind of the catalog.
pub proof fn lemma_block_id_round_trip(b: Block)
    ensures
        spec_block_from_id(b.spec_id()) == b,
{
}

} // verus!
