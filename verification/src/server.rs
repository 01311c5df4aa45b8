//! The server's own rules: which entity plays for which client,
//! the colour a client's player gets, and how a client's shot is resolved.

use std::collections::HashMap;

use vstd::prelude::*;

use crate::level::LevelMap;
use crate::protocol::{is_heading, Inputs, PlayerPosition};
use crate::shared::{all_after_shot, hits_of, push_shot_cells, shoot_all, shot_ray};

verus! {

broadcast use vstd::std_specs::hash::group_hash_axioms;

/// The server's table from a client's id to the id of the entity that
/// is its player (entity ids are the entity's bits).
pub struct Global {
    pub client_id_to_entity_id: HashMap<u64, u64>,
}

impl View for Global {
    type V = Map<u64, u64>;

    open spec fn view(&self) -> Map<u64, u64> {
        self.client_id_to_entity_id@
    }
}

impl Default for Global {
    fn default() -> (g: Self)
        ensures
            g@ == Map::<u64, u64>::empty(),
    {
        Global { client_id_to_entity_id: HashMap::new() }
    }
}

/// The entity a table gives for a client, if any.
pub open spec fn lookup(m: Map<u64, u64>, client_id: u64) -> Option<u64> {
    if m.contains_key(client_id) {
        Some(m[client_id])
    } else {
        None
    }
}

impl Global {
    /// Record that `entity` is the player of the client that just connected;
    /// a client that connects again gets its new entity.
    pub fn connect(&mut self, client_id: u64, entity: u64)
        ensures
            final(self)@ == old(self)@.insert(client_id, entity),
    {
        self.client_id_to_entity_id.insert(client_id, entity);
    }

    /// Forget the player of a client that disconnected; returns the entity to
    /// despawn, if the client had one.
    pub fn disconnect(&mut self, client_id: u64) -> (entity: Option<u64>)
        ensures
            final(self)@ == old(self)@.remove(client_id),
            entity == lookup(old(self)@, client_id),
    {
        self.client_id_to_entity_id.remove(&client_id)
    }

    /// The entity that plays for a client, if it is connected.
    pub fn entity_of(&self, client_id: u64) -> (entity: Option<u64>)
        ensures
            entity == lookup(self@, client_id),
    {
        match self.client_id_to_entity_id.get(&client_id) {
            Some(e) => Some(*e),
            None => None,
        }
    }
}

/// The hue, in degrees, of the colour of a client's player: the client's id
/// times 30, modulo 360, so that neighbouring ids look different.
pub fn client_hue_degrees(client_id: u64) -> (hue: u64)
    requires
        client_id * 30 <= u64::MAX,
    ensures
        hue == (client_id * 30) % 360,
        hue < 360,
{
    (client_id * 30) % 360
}

/// Resolve a client's input on the server: on a fire input, the client's
/// player fires along its heading and every player standing on a swept cell
/// is moved out of the arena. Returns which players were hit.
pub fn shooting(
    level: &LevelMap,
    input: &Inputs,
    shooter: &PlayerPosition,
    positions: &mut Vec<PlayerPosition>,
) -> (hits: Vec<bool>)
    requires
        is_heading(shooter.z as int),
    ensures
        *input is Delete ==> final(positions)@ == all_after_shot(old(positions)@, shot_ray(*level, *shooter)),
        *input is Delete ==> hits@ == hits_of(old(positions)@, shot_ray(*level, *shooter)),
        !(*input is Delete) ==> final(positions)@ == old(positions)@ && hits@.len() == 0,
{
    match input {
        Inputs::Delete => {},
        _ => {
            return Vec::new();
        },
    }
    let mut cells: Vec<(i32, i32)> = Vec::new();
    push_shot_cells(level, shooter, &mut cells);
    assert(cells@ =~= shot_ray(*level, *shooter));
    shoot_all(positions, &mut cells)
}


/// What a lookup gives back after a connect or a disconnect: the entity just
/// recorded for that client, nothing once it disconnected, and for every other
/// client what it gave before.
pub proof fn registry_read_after_write(m: Map<u64, u64>, client_id: u64, entity: u64, other: u64)
    requires
        other != client_id,
    ensures
        lookup(m.insert(client_id, entity), client_id) == Some(entity),
        lookup(m.insert(client_id, entity), other) == lookup(m, other),
        lookup(m.remove(client_id), client_id) is None,
        lookup(m.remove(client_id), other) == lookup(m, other),
{
}

} // verus!
