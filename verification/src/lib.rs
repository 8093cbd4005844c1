//! Wire protocol core of a multiplayer game server: primitive value codec,
//! packet framing, per-connection protocol state machine and the bit-packed
//! block identifier codec.

mod bytes;
pub mod entities;
pub mod error;
pub mod identity;
pub mod json;
pub mod net;
pub mod primitive;
pub mod varint;
pub mod wire;
pub mod world;

use crate::entities::player::Player;
use crate::world::{Location, Vector, World};
use std::collections::HashMap;
use vstd::prelude::*;

verus! {

/// The version name that the server reports.
pub const VERSION: &'static str = "1.13.2";

/// The protocol number that the server speaks.
pub const PROTOCOL: u16 = 404;

/// The state that all connections share: the registered players and the
/// worlds.
pub struct Obelisk {
    pub players: HashMap<u128, Player>,
    pub max_players: u32,
    pub worlds: Vec<World>,
    pub spawn_location: Location,
}

/// `rand::random` of the rand crate, for a 32-bit signed integer: any value
/// may come back, and two calls may differ. Nothing is assumed of it.
#[verifier::external_body]
fn random_entity_id() -> i32 {
    rand::random()
}

/// `sample` names up to `n` of the registered players: as many as there are
/// if those are fewer, each with its own identifier and username, none twice.
pub open spec fn is_sample(
    players: Map<u128, Player>,
    sample: Seq<(String, u128)>,
    n: nat,
) -> bool {
    &&& sample.len() == if players.dom().len() < n {
        players.dom().len()
    } else {
        n
    }
    &&& forall|i: int|
        0 <= i < sample.len() ==> players.contains_key((#[trigger] sample[i]).1)
            && players[sample[i].1].username@ == sample[i].0@
    &&& forall|i: int, j: int| 0 <= i < j < sample.len() ==> sample[i].1 != sample[j].1
}

impl Obelisk {
    /// Every player is registered under its own identifier.
    pub open spec fn well_formed(self) -> bool {
        forall|uuid: u128| #[trigger]
            self.players@.contains_key(uuid) ==> self.players@[uuid].uuid == uuid
    }

    /// A server without players.
    pub fn new(max_players: u32, worlds: Vec<World>, spawn_location: Location) -> (server:
        Obelisk)
        ensures
            server.players@ == Map::<u128, Player>::empty(),
            server.max_players == max_players,
            server.worlds == worlds,
            server.spawn_location == spawn_location,
            server.well_formed(),
    {
        Obelisk { players: HashMap::new(), max_players, worlds, spawn_location }
    }

    /// The player that `register_player` stores.
    pub open spec fn new_player(self, uuid: u128, username: String, entity_id: i32) -> Player {
        Player { uuid, username, entity_id, location: self.spawn_location }
    }

    /// The world that the spawn location names, if it still exists.
    pub open spec fn spec_spawn_world(self) -> Option<World> {
        if self.spawn_location.world < self.worlds@.len() {
            Some(self.worlds@[self.spawn_location.world as int])
        } else {
            None
        }
    }

    /// Registers a player under `uuid` with the given entity id, at the
    /// spawn location. A player already registered under `uuid` is replaced.
    pub fn register_player(&mut self, uuid: u128, username: String, entity_id: i32)
        ensures
            final(self).players@ == old(self).players@.insert(
                uuid,
                old(self).new_player(uuid, username, entity_id),
            ),
            final(self).max_players == old(self).max_players,
            final(self).worlds == old(self).worlds,
            final(self).spawn_location == old(self).spawn_location,
            old(self).well_formed() ==> final(self).well_formed(),
    {
        broadcast use vstd::std_specs::hash::group_hash_axioms;

        let player = Player { uuid, username, entity_id, location: self.spawn_location };
        self.players.insert(uuid, player);
    }

    /// Registers a player under `uuid` with an entity id drawn at random,
    /// and returns the player as registered.
    pub fn create_player(&mut self, uuid: u128, username: String) -> (player: &Player)
        ensures
            final(self).players@ == old(self).players@.insert(uuid, *player),
            *player == old(self).new_player(uuid, username, player.entity_id),
            final(self).max_players == old(self).max_players,
            final(self).worlds == old(self).worlds,
            final(self).spawn_location == old(self).spawn_location,
            old(self).well_formed() ==> final(self).well_formed(),
    {
        broadcast use vstd::std_specs::hash::group_hash_axioms;

        let entity_id = random_entity_id();
        self.register_player(uuid, username, entity_id);
        self.players.get(&uuid).unwrap()
    }

    /// The player registered under `uuid`, if there is one.
    pub fn lookup_player(&self, uuid: u128) -> (r: Option<&Player>)
        ensures
            match r {
                Some(p) => self.players@.contains_key(uuid) && *p == self.players@[uuid],
                None => !self.players@.contains_key(uuid),
            },
    {
        broadcast use vstd::std_specs::hash::group_hash_axioms;

        self.players.get(&uuid)
    }

    /// The number of registered players.
    pub fn count_online(&self) -> (n: usize)
        ensures
            n == self.players@.dom().len(),
    {
        broadcast use vstd::std_specs::hash::group_hash_axioms;

        self.players.len()
    }

    /// The names and identifiers of up to `n` registered players, no player
    /// twice. Which players are picked when more than `n` are registered is
    /// not determined.
    pub fn sample_players(&self, n: usize) -> (out: Vec<(String, u128)>)
        ensures
            is_sample(self.players@, out@, n as nat),
    {
        broadcast use vstd::std_specs::hash::group_hash_axioms;

        let mut out: Vec<(String, u128)> = Vec::new();
        for pair in it: self.players.iter()
            invariant_except_break
                it.seq().len() == self.players@.dom().len(),
                it.seq().no_duplicates(),
                forall|i: int|
                    0 <= i < it.seq().len() ==> self.players@.contains_key(
                        *(#[trigger] it.seq()[i]).0,
                    ) && self.players@[*it.seq()[i].0] == *it.seq()[i].1,
                out@.len() == it.index(),
                forall|i: int| 0 <= i < out@.len() ==> (#[trigger] out@[i]).1 == *it.seq()[i].0,
            invariant
                out@.len() <= n,
                out@.len() <= self.players@.dom().len(),
                is_sample(self.players@, out@, out@.len()),
            ensures
                out@.len() == n || out@.len() == self.players@.dom().len(),
        {
            if out.len() >= n {
                break ;
            }
            let (uuid, player) = pair;
            proof {
                let at = it.index();
                assert forall|i: int| 0 <= i < out@.len() implies out@[i].1 != *uuid by {
                    assert(it.seq()[i] != it.seq()[at]);
                    assert(self.players@[*it.seq()[i].0] == *it.seq()[i].1);
                    assert(self.players@[*it.seq()[at].0] == *it.seq()[at].1);
                }
            }
            out.push((player.username.clone(), *uuid));
        }
        out
    }

    /// The position at which players enter the game.
    pub fn spawn_position(&self) -> (position: Vector)
        ensures
            position == (Vector {
                x: self.spawn_location.x,
                y: self.spawn_location.y,
                z: self.spawn_location.z,
            }),
    {
        self.spawn_location.to_vector()
    }

    /// The world that the spawn location names, if it still exists.
    pub fn spawn_world(&self) -> (w: Option<&World>)
        ensures
            match w {
                Some(world) => self.spec_spawn_world() == Some(*world),
                None => self.spec_spawn_world() is None,
            },
    {
        if self.spawn_location.world < self.worlds.len() {
            Some(&self.worlds[self.spawn_location.world])
        } else {
            None
        }
    }
}

} // verus!
