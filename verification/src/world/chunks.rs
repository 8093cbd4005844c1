use crate::world::Vector;
use vstd::prelude::*;
use vstd::std_specs::convert::FromSpecImpl;

verus! {

/// The coordinates of a chunk column.
#[derive(Clone, Copy, Debug, PartialEq, Eq, Hash, Structural)]
pub struct Column {
    pub x: i32,
    pub z: i32,
}

/// The coordinate of the column that holds the block coordinate `v`: a
/// thirty-second of it, rounded towards zero, and held within 32 bits.
pub open spec fn column_coordinate(v: i64) -> i32 {
    let q = if v >= 0 {
        v as int / 32
    } else {
        -((-(v as int)) / 32)
    };
    if q < i32::MIN {
        i32::MIN
    } else if q > i32::MAX {
        i32::MAX
    } else {
        q as i32
    }
}

fn coordinate_of(v: i64) -> (c: i32)
    ensures
        c == column_coordinate(v),
{
    let q: i64 = if v >= 0 {
        v / 32
    } else if v == i64::MIN {
        -0x400_0000_0000_0000
    } else {
        -((-v) / 32)
    };
    if q < i32::MIN as i64 {
        i32::MIN
    } else if q > i32::MAX as i64 {
        i32::MAX
    } else {
        q as i32
    }
}

impl From<Vector> for Column {
    fn from(vector: Vector) -> (column: Column) {
        Column { x: coordinate_of(vector.x), z: coordinate_of(vector.z) }
    }
}

impl FromSpecImpl<Vector> for Column {
    open spec fn obeys_from_spec() -> bool {
        true
    }

    open spec fn from_spec(vector: Vector) -> Column {
        Column { x: column_coordinate(vector.x), z: column_coordinate(vector.z) }
    }
}

/// One block of a chunk section.
pub struct Block {
    /// The position of the block within its section, each coordinate below 16.
    pub vector: Vector,
    pub id: u32,
    pub block_light: u8,
    pub sky_light: Option<u8>,
}

/// A cube of sixteen blocks a side, indexed by height, depth and width.
pub struct ChunkSection {
    pub blocks: [[[Block; 16]; 16]; 16],
}

impl ChunkSection {
    /// The block at height `y`, depth `z` and width `x`.
    pub open spec fn block_at(self, x: int, y: int, z: int) -> Block {
        self.blocks[y][z][x]
    }

    /// The block at the given position.
    pub fn get_block(&self, vector: &Vector) -> (block: &Block)
        requires
            vector.in_section(),
        ensures
            *block == self.block_at(vector.x as int, vector.y as int, vector.z as int),
    {
        &self.blocks[vector.y as usize][vector.z as usize][vector.x as usize]
    }

    /// Puts a block at the position it names, and leaves every other block
    /// as it was.
    pub fn set_block(&mut self, block: Block)
        requires
            block.vector.in_section(),
        ensures
            forall|x: int, y: int, z: int|
                0 <= x < 16 && 0 <= y < 16 && 0 <= z < 16 ==> #[trigger] final(self).block_at(
                    x,
                    y,
                    z,
                ) == if x == block.vector.x && y == block.vector.y && z == block.vector.z {
                    block
                } else {
                    old(self).block_at(x, y, z)
                },
    {
        let (x, y, z) = (block.vector.x, block.vector.y, block.vector.z);
        self.blocks[y as usize][z as usize][x as usize] = block
    }
}

/// A column of sixteen chunk sections, some of which may be absent. The
/// sections lie on the heap: sixteen of them would not fit a stack.
pub struct ChunkColumn {
    pub sections: [Option<Box<ChunkSection>>; 16],
    pub x: i32,
    pub z: i32,
}

impl ChunkColumn {
    /// Whether section number `k` is there.
    pub open spec fn has_section(self, k: int) -> bool {
        0 <= k < 16 && self.sections[k] is Some
    }
}

} // verus!
