use crate::world::Location;
use vstd::prelude::*;

verus! {

/// A registered player session.
pub struct Player {
    /// The identifier derived from the username, as a 128-bit number.
    pub uuid: u128,
    pub username: String,
    pub entity_id: i32,
    pub location: Location,
}

/// What the protocol needs to know of a player.
pub struct PlayerView {
    pub uuid: u128,
    pub username: Seq<char>,
    pub entity_id: i32,
    pub location: Location,
}

impl View for Player {
    type V = PlayerView;

    open spec fn view(&self) -> PlayerView {
        PlayerView {
            uuid: self.uuid,
            username: self.username@,
            entity_id: self.entity_id,
            location: self.location,
        }
    }
}

#[derive(Clone, Copy, Debug, PartialEq, Eq, Structural)]
pub enum Gamemode {
    Survival,
    Creative,
    Adventure,
    Spectator,
}

impl Gamemode {
    /// The number the protocol gives this game mode.
    pub open spec fn spec_id(self) -> u8 {
        match self {
            Gamemode::Survival => 0,
            Gamemode::Creative => 1,
            Gamemode::Adventure => 2,
            Gamemode::Spectator => 3,
        }
    }

    /// The number the protocol gives this game mode.
    pub fn id(&self) -> (n: u8)
        ensures
            n == self.spec_id(),
    {
        match self {
            Gamemode::Survival => 0,
            Gamemode::Creative => 1,
            Gamemode::Adventure => 2,
            Gamemode::Spectator => 3,
        }
    }
}

} // verus!
