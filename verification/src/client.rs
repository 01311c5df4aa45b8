//! The client's own rules: turning key presses into one input per tick,
//! and the shot a client predicts for its own player.

use vstd::prelude::*;

use crate::level::LevelMap;
use crate::protocol::{is_heading, Direction, Inputs, PlayerPosition};
use crate::shared::{all_after_shot, hits_of, push_shot_cells, shoot_all, shot_ray};

verus! {

/// What the keyboard reported for one key during this tick.
#[derive(Clone, Copy, Debug, PartialEq, Eq, Structural)]
pub struct KeyEvent {
    pub just_pressed: bool,
    pub just_released: bool,
}

/// What the keyboard reported for the keys the game listens to during this tick.
#[derive(Clone, Copy, Debug, PartialEq, Eq, Structural)]
pub struct KeyEvents {
    pub up: KeyEvent,
    pub down: KeyEvent,
    pub left: KeyEvent,
    pub right: KeyEvent,
    pub space: KeyEvent,
    /// Whether the space key is held down at this tick.
    pub space_held: bool,
}

/// For each key, whether a press has been seen whose release has not:
/// each press acts once, on its release, however long the key is held.
#[derive(Clone, Copy, Debug, PartialEq, Eq, Structural)]
pub struct KeyStates {
    pub up: bool,
    pub down: bool,
    pub left: bool,
    pub right: bool,
    pub shot: bool,
}

impl Default for KeyStates {
    fn default() -> (s: Self)
        ensures
            s == (KeyStates { up: false, down: false, left: false, right: false, shot: false }),
    {
        KeyStates { up: false, down: false, left: false, right: false, shot: false }
    }
}

/// One key's latch after this tick's events, and whether the key acts now:
/// a press arms the latch, and a release of an armed latch disarms it and acts.
pub open spec fn latch(armed: bool, e: KeyEvent) -> (bool, bool) {
    let armed_now = armed || e.just_pressed;
    if armed_now && e.just_released {
        (false, true)
    } else {
        (armed_now, false)
    }
}

/// The key states after this tick and the input sent for it. A released arrow
/// key wins the tick (and the space key's events are left for later); else a
/// released space key fires; else a held space key shows the aim; else nothing.
pub open spec fn buffered(s: KeyStates, e: KeyEvents) -> (KeyStates, Inputs) {
    let (up, up_act) = latch(s.up, e.up);
    let (down, down_act) = latch(s.down, e.down);
    let (left, left_act) = latch(s.left, e.left);
    let (right, right_act) = latch(s.right, e.right);
    let moved = KeyStates { up, down, left, right, shot: s.shot };
    if up_act || down_act || left_act || right_act {
        (
            moved,
            Inputs::Direction(
                Direction { up: up_act, down: down_act, left: left_act, right: right_act },
            ),
        )
    } else {
        let (shot, fire) = latch(s.shot, e.space);
        let fired = KeyStates { up, down, left, right, shot };
        if fire {
            (fired, Inputs::Delete)
        } else if e.space_held {
            (fired, Inputs::Spawn)
        } else {
            (fired, Inputs::NoInput)
        }
    }
}

/// Advance one key's latch; returns whether the key acts this tick.
fn step_latch(armed: &mut bool, e: KeyEvent) -> (act: bool)
    ensures
        (*final(armed), act) == latch(*old(armed), e),
{
    if !*armed && e.just_pressed {
        *armed = true;
    }
    if *armed && e.just_released {
        *armed = false;
        true
    } else {
        false
    }
}

/// Read this tick's key events and pick the one input to send:
/// one step or turn per release of an arrow key, a shot on release of space,
/// the aim while space is held.
pub fn buffer_input(key_states: &mut KeyStates, keys: &KeyEvents) -> (input: Inputs)
    ensures
        (*final(key_states), input) == buffered(*old(key_states), *keys),
{
    let mut direction = Direction { up: false, down: false, left: false, right: false };
    direction.up = step_latch(&mut key_states.up, keys.up);
    direction.down = step_latch(&mut key_states.down, keys.down);
    direction.left = step_latch(&mut key_states.left, keys.left);
    direction.right = step_latch(&mut key_states.right, keys.right);
    if !direction.is_none() {
        return Inputs::Direction(direction);
    }
    if step_latch(&mut key_states.shot, keys.space) {
        return Inputs::Delete;
    }
    if keys.space_held {
        return Inputs::Spawn;
    }
    Inputs::NoInput
}


/// The cells swept by the shots of the players that `client_id` owns,
/// in the order the players are listed.
pub open spec fn own_shot_cells(
    level: LevelMap,
    client_id: u64,
    positions: Seq<PlayerPosition>,
    player_ids: Seq<u64>,
) -> Seq<(i32, i32)>
    decreases positions.len(),
{
    if positions.len() == 0 {
        Seq::empty()
    } else {
        let before = own_shot_cells(level, client_id, positions.drop_last(), player_ids.drop_last());
        if player_ids[positions.len() - 1] == client_id {
            before + shot_ray(level, positions.last())
        } else {
            before
        }
    }
}

/// The client's prediction of its own shot: on a fire input, every player the
/// client owns fires along its heading, and every player standing on a swept
/// cell is moved out of the arena. Returns which players were hit.
pub fn player_shot(
    level: &LevelMap,
    client_id: u64,
    input: &Inputs,
    positions: &mut Vec<PlayerPosition>,
    player_ids: &Vec<u64>,
) -> (hits: Vec<bool>)
    requires
        old(positions)@.len() == player_ids@.len(),
        forall|i: int| 0 <= i < old(positions)@.len() ==> is_heading(#[trigger] old(positions)@[i].z as int),
    ensures
        *input is Delete ==> final(positions)@ == all_after_shot(
            old(positions)@,
            own_shot_cells(*level, client_id, old(positions)@, player_ids@),
        ),
        *input is Delete ==> hits@ == hits_of(
            old(positions)@,
            own_shot_cells(*level, client_id, old(positions)@, player_ids@),
        ),
        !(*input is Delete) ==> final(positions)@ == old(positions)@ && hits@.len() == 0,
{
    match input {
        Inputs::Delete => {},
        _ => {
            return Vec::new();
        },
    }
    let mut cells: Vec<(i32, i32)> = Vec::new();
    let n = positions.len();
    let mut i: usize = 0;
    while i < n
        invariant
            n == positions@.len(),
            n == player_ids@.len(),
            positions@ == old(positions)@,
            i <= n,
            forall|j: int| 0 <= j < n ==> is_heading(#[trigger] positions@[j].z as int),
            cells@ == own_shot_cells(*level, client_id, positions@.take(i as int), player_ids@.take(i as int)),
        decreases n - i,
    {
        assert(positions@.take(i + 1).drop_last() =~= positions@.take(i as int));
        assert(player_ids@.take(i + 1).drop_last() =~= player_ids@.take(i as int));
        if player_ids[i] == client_id {
            push_shot_cells(level, &positions[i], &mut cells);
        }
        i = i + 1;
    }
    assert(positions@.take(n as int) =~= positions@);
    assert(player_ids@.take(n as int) =~= player_ids@);
    shoot_all(positions, &mut cells)
}


/// A tick in which no key was pressed or released.
pub open spec fn quiet_key(e: KeyEvent) -> bool {
    !e.just_pressed && !e.just_released
}

/// One step per press: pressing the up key sends nothing and arms its latch;
/// releasing it later sends exactly one forward step and gives back the key
/// states held before the press. While no key changes, holding keys sends
/// nothing but the aim of a held space key, and the key states stay as they are.
pub proof fn one_step_per_press(s: KeyStates, e1: KeyEvents, e2: KeyEvents, quiet: KeyEvents)
    requires
        !s.up,
        e1.up == (KeyEvent { just_pressed: true, just_released: false }),
        e2.up == (KeyEvent { just_pressed: false, just_released: true }),
        quiet_key(e1.down) && quiet_key(e1.left) && quiet_key(e1.right) && quiet_key(e1.space),
        quiet_key(e2.down) && quiet_key(e2.left) && quiet_key(e2.right) && quiet_key(e2.space),
        !e1.space_held,
        quiet_key(quiet.up) && quiet_key(quiet.down) && quiet_key(quiet.left),
        quiet_key(quiet.right) && quiet_key(quiet.space),
    ensures
        buffered(s, e1).1 == Inputs::NoInput,
        buffered(s, e1).0.up,
        buffered(buffered(s, e1).0, e2).1 == Inputs::Direction(
            Direction { up: true, down: false, left: false, right: false },
        ),
        buffered(buffered(s, e1).0, e2).0 == s,
        buffered(s, quiet).0 == s,
        buffered(s, quiet).1 == (if quiet.space_held {
            Inputs::Spawn
        } else {
            Inputs::NoInput
        }),
{
}


/// Only the client's own players fire: a cell is swept by the client's shot
/// exactly when it lies on the shot ray of some listed player whose id is the
/// client's id; players of any other id add no cells.
pub proof fn only_own_players_fire(
    level: LevelMap,
    client_id: u64,
    positions: Seq<PlayerPosition>,
    player_ids: Seq<u64>,
    c: (i32, i32),
)
    requires
        positions.len() == player_ids.len(),
    ensures
        own_shot_cells(level, client_id, positions, player_ids).contains(c) <==> exists|i: int|
            0 <= i < positions.len() && player_ids[i] == client_id && #[trigger] shot_ray(
                level,
                positions[i],
            ).contains(c),
        (forall|i: int| 0 <= i < player_ids.len() ==> #[trigger] player_ids[i] != client_id)
            ==> own_shot_cells(level, client_id, positions, player_ids).len() == 0,
    decreases positions.len(),
{
    if positions.len() > 0 {
        let n = positions.len() - 1;
        let ps = positions.drop_last();
        let ids = player_ids.drop_last();
        only_own_players_fire(level, client_id, ps, ids, c);
        let before = own_shot_cells(level, client_id, ps, ids);
        let ray = shot_ray(level, positions[n]);
        assert(positions.last() == positions[n]);
        if own_shot_cells(level, client_id, positions, player_ids).contains(c) {
            if player_ids[n] == client_id && !before.contains(c) {
                let k = choose|k: int| 0 <= k < (before + ray).len() && (before + ray)[k] == c;
                assert(ray[k - before.len()] == c);
                assert(ray.contains(c));
            } else {
                let i = choose|i: int|
                    0 <= i < ps.len() && ids[i] == client_id && #[trigger] shot_ray(level, ps[i]).contains(c);
                assert(ps[i] == positions[i] && ids[i] == player_ids[i]);
            }
        }
        if exists|i: int|
            0 <= i < positions.len() && player_ids[i] == client_id && #[trigger] shot_ray(
                level,
                positions[i],
            ).contains(c) {
            let i = choose|i: int|
                0 <= i < positions.len() && player_ids[i] == client_id && #[trigger] shot_ray(
                    level,
                    positions[i],
                ).contains(c);
            if i < n {
                assert(ps[i] == positions[i] && ids[i] == player_ids[i]);
                assert(shot_ray(level, ps[i]).contains(c));
                let k = choose|k: int| 0 <= k < before.len() && before[k] == c;
                if player_ids[n] == client_id {
                    assert((before + ray)[k] == c);
                }
            } else {
                let k = choose|k: int| 0 <= k < ray.len() && ray[k] == c;
                assert((before + ray)[before.len() + k] == c);
            }
        }
        if forall|i: int| 0 <= i < player_ids.len() ==> #[trigger] player_ids[i] != client_id {
            assert forall|i: int| 0 <= i < ids.len() implies #[trigger] ids[i] != client_id by {
                assert(ids[i] == player_ids[i]);
            }
            assert(player_ids[n] != client_id);
        }
    }
}

/// Each arrow key acts alone on its release: after a tick in which some arrow key
/// acts, the input holds, for each arrow, exactly whether that same key was pressed
/// (now or before) and released this tick. So a tapped left arrow turns left, never
/// right, and a tapped right arrow turns right. A key stays armed while pressed and
/// not released. When no arrow acts, a released fire key fires, a held one aims,
/// and otherwise nothing is sent; when an arrow acts the fire key's state waits.
pub proof fn each_arrow_acts_for_itself(s: KeyStates, e: KeyEvents)
    ensures
        ({
            let up = (s.up || e.up.just_pressed) && e.up.just_released;
            let down = (s.down || e.down.just_pressed) && e.down.just_released;
            let left = (s.left || e.left.just_pressed) && e.left.just_released;
            let right = (s.right || e.right.just_pressed) && e.right.just_released;
            &&& (up || down || left || right) ==> buffered(s, e).1 == Inputs::Direction(
                Direction { up, down, left, right },
            )
            &&& !(up || down || left || right) ==> !(buffered(s, e).1 is Direction)
            &&& buffered(s, e).0.up == ((s.up || e.up.just_pressed) && !e.up.just_released)
            &&& buffered(s, e).0.down == ((s.down || e.down.just_pressed) && !e.down.just_released)
            &&& buffered(s, e).0.left == ((s.left || e.left.just_pressed) && !e.left.just_released)
            &&& buffered(s, e).0.right == ((s.right || e.right.just_pressed)
                && !e.right.just_released)
        }),
        ({
            let arrow = ((s.up || e.up.just_pressed) && e.up.just_released) || ((s.down
                || e.down.just_pressed) && e.down.just_released) || ((s.left || e.left.just_pressed)
                && e.left.just_released) || ((s.right || e.right.just_pressed)
                && e.right.just_released);
            let fire = (s.shot || e.space.just_pressed) && e.space.just_released;
            &&& arrow ==> buffered(s, e).0.shot == s.shot
            &&& !arrow ==> buffered(s, e).0.shot == ((s.shot || e.space.just_pressed)
                && !e.space.just_released)
            &&& !arrow && fire ==> buffered(s, e).1 == Inputs::Delete
            &&& !arrow && !fire && e.space_held ==> buffered(s, e).1 == Inputs::Spawn
            &&& !arrow && !fire && !e.space_held ==> buffered(s, e).1 == Inputs::NoInput
        }),
        e.left.just_released && (s.left || e.left.just_pressed) && quiet_key(e.up) && quiet_key(e.down)
            && quiet_key(e.right) ==> buffered(s, e).1 == Inputs::Direction(
            Direction { up: false, down: false, left: true, right: false },
        ),
        e.right.just_released && (s.right || e.right.just_pressed) && quiet_key(e.up) && quiet_key(
            e.down,
        ) && quiet_key(e.left) ==> buffered(s, e).1 == Inputs::Direction(
            Direction { up: false, down: false, left: false, right: true },
        ),
{
}

} // verus!
