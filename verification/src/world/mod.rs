//! What the protocol reads of the worlds: their metadata, and positions in
//! whole blocks.

use crate::entities::player::Gamemode;
use vstd::prelude::*;
use vstd::std_specs::convert::FromSpecImpl;

pub mod chunks;
pub mod palette;

verus! {

/// The metadata of a world.
pub struct World {
    pub gamemode: Gamemode,
    pub hardcore: bool,
    pub dimension: Dimension,
    pub difficulty: Difficulty,
    pub level_type: LevelType,
}

/// A position in whole blocks.
#[derive(Clone, Copy, Debug, PartialEq, Eq, Structural)]
pub struct Vector {
    pub x: i64,
    pub y: i64,
    pub z: i64,
}

/// A position in whole blocks within a world. The world is named by its
/// index among the server's worlds, and may have gone away since.
#[derive(Clone, Copy, Debug, PartialEq, Eq, Structural)]
pub struct Location {
    pub x: i64,
    pub y: i64,
    pub z: i64,
    pub world: usize,
}

impl Location {
    /// The position without the world.
    pub fn to_vector(&self) -> (v: Vector)
        ensures
            v == (Vector { x: self.x, y: self.y, z: self.z }),
    {
        Vector { x: self.x, y: self.y, z: self.z }
    }
}

impl Vector {
    /// Whether the position lies within a chunk section: each coordinate is
    /// below sixteen and not negative.
    pub open spec fn in_section(self) -> bool {
        0 <= self.x < 16 && 0 <= self.y < 16 && 0 <= self.z < 16
    }

    /// Whether the position lies within a chunk section.
    pub fn is_in_section(&self) -> (b: bool)
        ensures
            b == self.in_section(),
    {
        0 <= self.x && self.x < 16 && 0 <= self.y && self.y < 16 && 0 <= self.z && self.z < 16
    }
}

impl From<Location> for Vector {
    fn from(location: Location) -> (v: Vector) {
        Vector { x: location.x, y: location.y, z: location.z }
    }
}

impl FromSpecImpl<Location> for Vector {
    open spec fn obeys_from_spec() -> bool {
        true
    }

    open spec fn from_spec(location: Location) -> Vector {
        Vector { x: location.x, y: location.y, z: location.z }
    }
}

#[derive(Clone, Copy, Debug, PartialEq, Eq, Structural)]
pub enum Dimension {
    Overworld,
    End,
    Nether,
}

impl Dimension {
    /// The number the protocol gives this dimension.
    pub open spec fn spec_id(self) -> i32 {
        match self {
            Dimension::Overworld => 0i32,
            Dimension::End => 1i32,
            Dimension::Nether => (-1i32) as i32,
        }
    }

    /// The number the protocol gives this dimension.
    pub fn id(&self) -> (n: i32)
        ensures
            n == self.spec_id(),
    {
        match self {
            Dimension::Overworld => 0,
            Dimension::End => 1,
            Dimension::Nether => -1,
        }
    }
}

#[derive(Clone, Copy, Debug, PartialEq, Eq, Structural)]
pub enum Difficulty {
    Peaceful,
    Easy,
    Normal,
    Hard,
}

impl Difficulty {
    /// The number the protocol gives this difficulty.
    pub open spec fn spec_id(self) -> u8 {
        match self {
            Difficulty::Peaceful => 0,
            Difficulty::Easy => 1,
            Difficulty::Normal => 2,
            Difficulty::Hard => 3,
        }
    }

    /// The number the protocol gives this difficulty.
    pub fn id(&self) -> (n: u8)
        ensures
            n == self.spec_id(),
    {
        match self {
            Difficulty::Peaceful => 0,
            Difficulty::Easy => 1,
            Difficulty::Normal => 2,
            Difficulty::Hard => 3,
        }
    }
}

#[allow(non_camel_case_types)]
#[derive(Clone, Copy, Debug, PartialEq, Eq, Structural)]
pub enum LevelType {
    Default,
    Flat,
    LargeBiomes,
    Amplified,
    Default_1_1,
}

impl LevelType {
    /// The name the protocol gives this level type.
    pub open spec fn name(self) -> Seq<char> {
        match self {
            LevelType::Default => "default"@,
            LevelType::Flat => "flat"@,
            LevelType::LargeBiomes => "largeBiomes"@,
            LevelType::Amplified => "amplified"@,
            LevelType::Default_1_1 => "default_1_1"@,
        }
    }

    /// The name the protocol gives this level type.
    pub fn to_string(&self) -> (s: &'static str)
        ensures
            s@ == self.name(),
    {
        match self {
            LevelType::Default => "default",
            LevelType::Flat => "flat",
            LevelType::LargeBiomes => "largeBiomes",
            LevelType::Amplified => "amplified",
            LevelType::Default_1_1 => "default_1_1",
        }
    }
}

} // verus!
