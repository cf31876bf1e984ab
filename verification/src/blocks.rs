//! The static block table: block identifiers, shape classes, transparency
//! and light emission.

use vstd::prelude::*;

verus! {

/// Identifier of a block type; indexes the static block table.
#[derive(Clone, Copy, PartialEq, Eq, Structural, Debug)]
pub enum BlockId {
    Air,
    Stone,
    Grass,
    Dirt,
    Trunk,
    Leaves,
    Water,
    Sand,
    Planks,
    RedFlower,
    YellowFlower,
    Torch,
}

/// Texture ids of the six axis-aligned faces of a solid block, in the
/// face order negative-z, positive-z, negative-y, positive-y, negative-x,
/// positive-x.
#[derive(Clone, Copy, PartialEq, Eq, Structural, Debug)]
pub struct FaceTextures {
    pub neg_z: u16,
    pub pos_z: u16,
    pub neg_y: u16,
    pub pos_y: u16,
    pub neg_x: u16,
    pub pos_x: u16,
}

impl FaceTextures {
    /// Texture id of the face with the given index, in the order above.
    pub open spec fn spec_face(self, i: int) -> u16 {
        if i == 0 {
            self.neg_z
        } else if i == 1 {
            self.pos_z
        } else if i == 2 {
            self.neg_y
        } else if i == 3 {
            self.pos_y
        } else if i == 4 {
            self.neg_x
        } else {
            self.pos_x
        }
    }

    pub fn face(self, i: usize) -> (r: u16)
        requires
            i < 6,
        ensures
            r == self.spec_face(i as int),
    {
        if i == 0 {
            self.neg_z
        } else if i == 1 {
            self.pos_z
        } else if i == 2 {
            self.neg_y
        } else if i == 3 {
            self.pos_y
        } else if i == 4 {
            self.neg_x
        } else {
            self.pos_x
        }
    }
}

/// Shape class of a block type, with its static texture data.
#[derive(Clone, Copy, PartialEq, Eq, Structural, Debug)]
pub enum Block {
    Empty,
    Solid { texture_ids: FaceTextures },
    Fluid { texture_id: u16 },
    Flower { texture_id: u16 },
    Torch { texture_id: u16 },
}

/// A solid block of a single texture on all six faces.
pub open spec fn uniform_solid(t: u16) -> Block {
    Block::Solid {
        texture_ids: FaceTextures {
            neg_z: t,
            pos_z: t,
            neg_y: t,
            pos_y: t,
            neg_x: t,
            pos_x: t,
        },
    }
}

/// The block table entry of the given identifier.
pub open spec fn spec_block_of(id: BlockId) -> Block {
    match id {
        BlockId::Air => Block::Empty,
        BlockId::Stone => uniform_solid(0),
        BlockId::Grass => Block::Solid {
            texture_ids: FaceTextures {
                neg_z: 2,
                pos_z: 2,
                neg_y: 3,
                pos_y: 1,
                neg_x: 2,
                pos_x: 2,
            },
        },
        BlockId::Dirt => uniform_solid(3),
        BlockId::Trunk => Block::Solid {
            texture_ids: FaceTextures {
                neg_z: 5,
                pos_z: 5,
                neg_y: 4,
                pos_y: 4,
                neg_x: 5,
                pos_x: 5,
            },
        },
        BlockId::Leaves => uniform_solid(6),
        BlockId::Water => Block::Fluid { texture_id: 7 },
        BlockId::Sand => uniform_solid(8),
        BlockId::Planks => uniform_solid(9),
        BlockId::RedFlower => Block::Flower { texture_id: 10 },
        BlockId::YellowFlower => Block::Flower { texture_id: 11 },
        BlockId::Torch => Block::Torch { texture_id: 12 },
    }
}

/// A block is transparent unless it is solid: light passes through it and
/// faces of adjacent solid blocks against it are drawn.
pub open spec fn spec_transparent(b: Block) -> bool {
    !(b is Solid)
}

/// Light emitted by a block itself: only torches emit.
pub open spec fn spec_emission(b: Block) -> u8 {
    if b is Torch {
        10
    } else {
        0
    }
}

/// Transparency of a block type, by identifier.
pub open spec fn id_transparent(id: BlockId) -> bool {
    spec_transparent(spec_block_of(id))
}

/// Light emission of a block type, by identifier.
pub open spec fn id_emission(id: BlockId) -> u8 {
    spec_emission(spec_block_of(id))
}

impl Block {
    /// Looks the identifier up in the static block table.
    pub fn by_id(id: BlockId) -> (r: Block)
        ensures
            r == spec_block_of(id),
    {
        match id {
            BlockId::Air => Block::Empty,
            BlockId::Stone => Block::solid_uniform(0),
            BlockId::Grass => Block::Solid {
                texture_ids: FaceTextures {
                    neg_z: 2,
                    pos_z: 2,
                    neg_y: 3,
                    pos_y: 1,
                    neg_x: 2,
                    pos_x: 2,
                },
            },
            BlockId::Dirt => Block::solid_uniform(3),
            BlockId::Trunk => Block::Solid {
                texture_ids: FaceTextures {
                    neg_z: 5,
                    pos_z: 5,
                    neg_y: 4,
                    pos_y: 4,
                    neg_x: 5,
                    pos_x: 5,
                },
            },
            BlockId::Leaves => Block::solid_uniform(6),
            BlockId::Water => Block::Fluid { texture_id: 7 },
            BlockId::Sand => Block::solid_uniform(8),
            BlockId::Planks => Block::solid_uniform(9),
            BlockId::RedFlower => Block::Flower { texture_id: 10 },
            BlockId::YellowFlower => Block::Flower { texture_id: 11 },
            BlockId::Torch => Block::Torch { texture_id: 12 },
        }
    }

    fn solid_uniform(t: u16) -> (r: Block)
        ensures
            r == uniform_solid(t),
    {
        Block::Solid {
            texture_ids: FaceTextures {
                neg_z: t,
                pos_z: t,
                neg_y: t,
                pos_y: t,
                neg_x: t,
                pos_x: t,
            },
        }
    }

    /// Whether light passes through the block and neighboring faces against
    /// it are drawn.
    pub fn is_transparent(&self) -> (r: bool)
        ensures
            r == spec_transparent(*self),
    {
        !(matches!(self, Block::Solid { .. }))
    }

    /// The light level the block itself emits.
    pub fn light_level(&self) -> (r: u8)
        ensures
            r == spec_emission(*self),
    {
        if let Block::Torch { .. } = self {
            10
        } else {
            0
        }
    }
}

} // verus!
