//! Rules that client and server both apply: turning, moving and shooting.

use vstd::prelude::*;

use crate::level::{can_move_to, movable, LevelMap};
use crate::protocol::{is_heading, step_x, step_y, Direction, Inputs, PlayerPosition};

verus! {

/// One step forward, in cells.
pub const STEP_MOVE: i32 = 1;

/// One turn, in degrees.
pub const STEP_ANGLE: i32 = 90;

/// The heading after turning from `angle` by `appendix` degrees: the sum
/// brought into `[0, 360)` and rounded to the nearest multiple of 90
/// (halves away from zero), with 360 written as 0.
pub open spec fn turned_heading(angle: int, appendix: int) -> int {
    let positive = (angle + appendix) % 360;
    let rounded = ((positive + 45) / 90) * 90;
    if rounded == 360 {
        0
    } else {
        rounded
    }
}

/// Only 0, 90, 180, 270 degrees are allowed, so calculate the closest one
/// to `angle_degrees + appendix_degrees`.
pub fn strict_angle_degrees(angle_degrees: i32, appendix_degrees: i32) -> (r: i32)
    ensures
        r as int == turned_heading(angle_degrees as int, appendix_degrees as int),
        is_heading(r as int),
{
    let sum: i64 = angle_degrees as i64 + appendix_degrees as i64;
    let positive: i64 = if sum >= 0 {
        sum % 360
    } else {
        let back: i64 = (-sum) % 360;
        if back == 0 {
            0
        } else {
            360 - back
        }
    };
    assert(positive == (sum as int) % 360);
    let rounded: i64 = ((positive + 45) / 90) * 90;
    if rounded == 360 {
        0
    } else {
        rounded as i32
    }
}

/// One step along heading `z`, as the pair `(dx, dy)`: `(1, 0)` for 0, `(0, 1)` for 90,
/// `(-1, 0)` for 180, `(0, -1)` for 270, and `(0, 0)` for any other angle.
pub fn heading_step(z: i32) -> (d: (i32, i32))
    ensures
        d.0 as int == step_x(z as int),
        d.1 as int == step_y(z as int),
{
    match z {
        0 => (1, 0),
        90 => (0, 1),
        180 => (-1, 0),
        270 => (0, -1),
        _ => (0, 0),
    }
}

/// `p` after a step forward (`sign == 1`) or backward (`sign == -1`) along its
/// heading, taken only where the target cell is movable.
pub open spec fn stepped(level: LevelMap, p: PlayerPosition, sign: int) -> PlayerPosition {
    let nx = p.x + sign * step_x(p.z as int);
    let ny = p.y + sign * step_y(p.z as int);
    if movable(level, nx, ny) {
        PlayerPosition { x: nx as i32, y: ny as i32, z: p.z }
    } else {
        p
    }
}

/// `p` turned by `appendix` degrees.
pub open spec fn turned(p: PlayerPosition, appendix: int) -> PlayerPosition {
    PlayerPosition { x: p.x, y: p.y, z: turned_heading(p.z as int, appendix) as i32 }
}

/// `p` after the released keys of `d` are applied in order: forward, backward,
/// turn left (+90), turn right (-90).
pub open spec fn directed(level: LevelMap, p: PlayerPosition, d: Direction) -> PlayerPosition {
    let a = if d.up { stepped(level, p, 1) } else { p };
    let b = if d.down { stepped(level, a, -1) } else { a };
    let c = if d.left { turned(b, 90) } else { b };
    if d.right { turned(c, -90) } else { c }
}

/// `p` after one tick's input: only a direction moves or turns a player.
pub open spec fn moved(level: LevelMap, p: PlayerPosition, input: Inputs) -> PlayerPosition {
    match input {
        Inputs::Direction(d) => directed(level, p, d),
        _ => p,
    }
}

/// Take one step forward (`sign == 1`) or backward (`sign == -1`) if the target cell is movable.
fn step_if_free(position: &mut PlayerPosition, level: &LevelMap, sign: i64)
    requires
        sign == 1 || sign == -1,
        is_heading(old(position).z as int),
    ensures
        *final(position) == stepped(*level, *old(position), sign as int),
        is_heading(final(position).z as int),
{
    let (dx, dy) = heading_step(position.z);
    let nx: i64 = if sign == 1 {
        position.x as i64 + dx as i64
    } else {
        position.x as i64 - dx as i64
    };
    let ny: i64 = if sign == 1 {
        position.y as i64 + dy as i64
    } else {
        position.y as i64 - dy as i64
    };
    if can_move_to(level, nx, ny) {
        position.x = nx as i32;
        position.y = ny as i32;
    }
}

/// Apply one tick's input to a player: step forward or backward where the
/// map allows it, and turn by a quarter to the left or right.
pub fn shared_movement_behaviour(position: &mut PlayerPosition, input: &Inputs, level: &LevelMap)
    requires
        is_heading(old(position).z as int),
    ensures
        *final(position) == moved(*level, *old(position), *input),
        is_heading(final(position).z as int),
{
    match input {
        Inputs::Direction(direction) => {
            if direction.up {
                step_if_free(position, level, 1);
            }
            if direction.down {
                step_if_free(position, level, -1);
            }
            if direction.left {
                position.z = strict_angle_degrees(position.z, STEP_ANGLE);
            }
            if direction.right {
                position.z = strict_angle_degrees(position.z, -STEP_ANGLE);
            }
        },
        _ => {},
    }
}

/// Whether a player stands inside the arena, strictly between the first and
/// the last border line on both axes: only such a player can shoot or be hit.
pub open spec fn inside_arena(p: PlayerPosition) -> bool {
    1 < p.x < 23 && 1 < p.y < 23
}

/// Whether a player stands inside the arena, where it can shoot and be hit.
pub fn is_inside_arena(p: &PlayerPosition) -> (b: bool)
    ensures
        b == inside_arena(*p),
{
    p.x > 1 && p.x < 23 && p.y > 1 && p.y < 23
}

/// The cell `k` steps ahead of `p` along its heading.
pub open spec fn cell_ahead(p: PlayerPosition, k: int) -> (int, int) {
    (p.x + k * step_x(p.z as int), p.y + k * step_y(p.z as int))
}

/// How many movable cells follow one another from the cell `k` steps ahead of `p`
/// (counted no farther than 25 steps, the side of a map).
pub open spec fn clear_run(level: LevelMap, p: PlayerPosition, k: int) -> nat
    decreases 25 - k,
{
    if k < 25 && movable(level, cell_ahead(p, k).0, cell_ahead(p, k).1) {
        1 + clear_run(level, p, k + 1)
    } else {
        0
    }
}

/// The cells a shot from `p` sweeps: every movable cell ahead of the shooter
/// up to the first one that is not; nothing when the shooter is not inside the arena.
pub open spec fn shot_ray(level: LevelMap, p: PlayerPosition) -> Seq<(i32, i32)> {
    if inside_arena(p) {
        Seq::new(
            clear_run(level, p, 1),
            |i: int| (cell_ahead(p, i + 1).0 as i32, cell_ahead(p, i + 1).1 as i32),
        )
    } else {
        Seq::empty()
    }
}

/// Append to `cells` the cells that a shot from `shooter` sweeps: the movable
/// cells in front of it, one after the other, up to a wall or the border.
pub fn push_shot_cells(level: &LevelMap, shooter: &PlayerPosition, cells: &mut Vec<(i32, i32)>)
    requires
        is_heading(shooter.z as int),
    ensures
        final(cells)@ == old(cells)@ + shot_ray(*level, *shooter),
{
    if !is_inside_arena(shooter) {
        assert(old(cells)@ + shot_ray(*level, *shooter) =~= old(cells)@);
        return;
    }
    let ghost start = cells@;
    let (dx, dy) = heading_step(shooter.z);
    let mut k: i64 = 1;
    let mut cx: i64 = shooter.x as i64 + dx as i64;
    let mut cy: i64 = shooter.y as i64 + dy as i64;
    while can_move_to(level, cx, cy)
        invariant
            is_heading(shooter.z as int),
            inside_arena(*shooter),
            dx as int == step_x(shooter.z as int),
            dy as int == step_y(shooter.z as int),
            1 <= k <= 21,
            cx == cell_ahead(*shooter, k as int).0,
            cy == cell_ahead(*shooter, k as int).1,
            cells@.len() == start.len() + k - 1,
            cells@.subrange(0, start.len() as int) == start,
            forall|i: int|
                0 <= i < k - 1 ==> #[trigger] cells@[start.len() + i] == (
                    cell_ahead(*shooter, i + 1).0 as i32,
                    cell_ahead(*shooter, i + 1).1 as i32,
                ),
            clear_run(*level, *shooter, 1) == (k - 1) + clear_run(*level, *shooter, k as int),
        decreases 25 - k,
    {
        assert(k <= 20) by {
            assert(movable(*level, cx as int, cy as int));
        }
        assert(clear_run(*level, *shooter, k as int) == 1 + clear_run(*level, *shooter, k + 1));
        cells.push((cx as i32, cy as i32));
        cx = cx + dx as i64;
        cy = cy + dy as i64;
        k = k + 1;
        assert(cx == cell_ahead(*shooter, k as int).0) by (nonlinear_arith)
            requires
                cx == cell_ahead(*shooter, k - 1).0 + dx,
                dx as int == step_x(shooter.z as int),
        ;
        assert(cy == cell_ahead(*shooter, k as int).1) by (nonlinear_arith)
            requires
                cy == cell_ahead(*shooter, k - 1).1 + dy,
                dy as int == step_y(shooter.z as int),
        ;
    }
    assert(clear_run(*level, *shooter, k as int) == 0);
    let ghost ray = shot_ray(*level, *shooter);
    assert(ray.len() == k - 1);
    assert forall|i: int| 0 <= i < cells@.len() implies #[trigger] cells@[i] == (start + ray)[i] by {
        if i < start.len() {
            assert(cells@[i] == cells@.subrange(0, start.len() as int)[i]);
        } else {
            assert(cells@[start.len() + (i - start.len())] == ray[i - start.len()]);
        }
    }
    assert(cells@ =~= start + ray);
}

/// The `x` a player is moved to when hit: outside the map, where no cell is movable.
pub const HIT_X: i32 = 25;

/// Whether a shot sweeping `cells` hits the player at `p`.
pub open spec fn hit_by(p: PlayerPosition, cells: Seq<(i32, i32)>) -> bool {
    inside_arena(p) && cells.contains((p.x, p.y))
}

/// `p` after a shot sweeping `cells`: a player hit is moved out of the arena.
pub open spec fn after_shot(p: PlayerPosition, cells: Seq<(i32, i32)>) -> PlayerPosition {
    if hit_by(p, cells) {
        PlayerPosition { x: HIT_X, y: p.y, z: p.z }
    } else {
        p
    }
}

/// Remove a player hit by a shot from the arena: a player inside the arena
/// whose cell the shot swept is moved out of the map. Returns whether it was hit.
pub fn shared_player_shot(position: &mut PlayerPosition, cells: &mut Vec<(i32, i32)>) -> (hit: bool)
    ensures
        hit == hit_by(*old(position), old(cells)@),
        *final(position) == after_shot(*old(position), old(cells)@),
        final(cells)@ == old(cells)@,
{
    if !is_inside_arena(position) {
        return false;
    }
    let n = cells.len();
    let mut i: usize = 0;
    let mut found = false;
    while i < n
        invariant
            n == cells@.len(),
            i <= n,
            found <==> exists|j: int| 0 <= j < i && cells@[j] == (position.x, position.y),
        decreases n - i,
    {
        let cell = cells[i];
        if cell.0 == position.x && cell.1 == position.y {
            found = true;
        }
        i = i + 1;
    }
    if found {
        position.x = HIT_X;
    }
    found
}

/// A quarter turn left followed by a quarter turn right, or the other way
/// round, gives back the heading; four quarter turns in one direction too.
pub proof fn turns_cancel(z: int)
    requires
        is_heading(z),
    ensures
        turned_heading(turned_heading(z, 90), -90) == z,
        turned_heading(turned_heading(z, -90), 90) == z,
        turned_heading(turned_heading(turned_heading(turned_heading(z, 90), 90), 90), 90) == z,
        turned_heading(turned_heading(turned_heading(turned_heading(z, -90), -90), -90), -90)
            == z,
{
}

/// Moving never puts a player on a wall: after any input the player stands
/// on the cell it stood on or on a movable cell, at most one cell away, and
/// faces one of the four headings.
pub proof fn movement_lands_on_movable(level: LevelMap, p: PlayerPosition, input: Inputs)
    requires
        is_heading(p.z as int),
    ensures
        ({
            let q = moved(level, p, input);
            &&& (q.x == p.x && q.y == p.y) || movable(level, q.x as int, q.y as int)
            &&& -1 <= q.x - p.x <= 1
            &&& -1 <= q.y - p.y <= 1
            &&& q.x == p.x || q.y == p.y
            &&& is_heading(q.z as int)
        }),
{
}

/// A step back undoes a step forward: from a movable cell whose next cell
/// ahead is movable, forward then back returns the player to where it stood.
pub proof fn step_back_undoes_step(level: LevelMap, p: PlayerPosition)
    requires
        is_heading(p.z as int),
        movable(level, p.x as int, p.y as int),
        movable(level, cell_ahead(p, 1).0, cell_ahead(p, 1).1),
    ensures
        stepped(level, stepped(level, p, 1), -1) == p,
        directed(level, p, Direction { up: true, down: true, left: false, right: false }) == p,
{
}

/// A player moved out of the arena by a hit stays on its cell whatever it inputs.
pub proof fn hit_player_stays_out(level: LevelMap, p: PlayerPosition, input: Inputs)
    requires
        is_heading(p.z as int),
        p.x == HIT_X,
    ensures
        moved(level, p, input).x == HIT_X,
        moved(level, p, input).y == p.y,
        !inside_arena(moved(level, p, input)),
{
}

/// Every cell of a shot lies ahead of the shooter and is movable,
/// so a shooter never hits itself.
pub proof fn shot_spares_shooter(level: LevelMap, p: PlayerPosition)
    requires
        is_heading(p.z as int),
    ensures
        forall|i: int|
            0 <= i < shot_ray(level, p).len() ==> movable(
                level,
                #[trigger] shot_ray(level, p)[i].0 as int,
                shot_ray(level, p)[i].1 as int,
            ),
        !hit_by(p, shot_ray(level, p)),
{
    if inside_arena(p) {
        assert forall|i: int| 0 <= i < shot_ray(level, p).len() implies movable(
            level,
            #[trigger] shot_ray(level, p)[i].0 as int,
            shot_ray(level, p)[i].1 as int,
        ) by {
            clear_run_cells_movable(level, p, 1, i + 1);
        }
        if shot_ray(level, p).contains((p.x, p.y)) {
            let i = choose|i: int| 0 <= i < shot_ray(level, p).len() && shot_ray(level, p)[i] == (p.x, p.y);
            clear_run_cells_movable(level, p, 1, i + 1);
            assert(false) by (nonlinear_arith)
                requires
                    i >= 0,
                    p.x == p.x + (i + 1) * step_x(p.z as int),
                    p.y == p.y + (i + 1) * step_y(p.z as int),
                    step_x(p.z as int) != 0 || step_y(p.z as int) != 0,
            ;
        }
    }
}

/// The cells counted by `clear_run` from step `k` are movable.
proof fn clear_run_cells_movable(level: LevelMap, p: PlayerPosition, k: int, j: int)
    requires
        1 <= k <= j < k + clear_run(level, p, k),
    ensures
        movable(level, cell_ahead(p, j).0, cell_ahead(p, j).1),
    decreases j - k,
{
    if j > k {
        clear_run_cells_movable(level, p, k + 1, j);
    }
}

/// Every position after a shot sweeping `cells`.
pub open spec fn all_after_shot(positions: Seq<PlayerPosition>, cells: Seq<(i32, i32)>) -> Seq<PlayerPosition> {
    Seq::new(positions.len(), |i: int| after_shot(positions[i], cells))
}

/// Which of the positions a shot sweeping `cells` hits.
pub open spec fn hits_of(positions: Seq<PlayerPosition>, cells: Seq<(i32, i32)>) -> Seq<bool> {
    Seq::new(positions.len(), |i: int| hit_by(positions[i], cells))
}

/// Apply a shot sweeping `cells` to every player; returns which players it hit.
pub fn shoot_all(positions: &mut Vec<PlayerPosition>, cells: &mut Vec<(i32, i32)>) -> (hits: Vec<bool>)
    ensures
        final(positions)@ == all_after_shot(old(positions)@, old(cells)@),
        hits@ == hits_of(old(positions)@, old(cells)@),
        final(cells)@ == old(cells)@,
{
    let ghost start = positions@;
    let mut hits: Vec<bool> = Vec::new();
    let n = positions.len();
    let mut i: usize = 0;
    while i < n
        invariant
            n == start.len(),
            positions@.len() == n,
            i <= n,
            cells@ == old(cells)@,
            hits@.len() == i,
            forall|j: int| 0 <= j < i ==> #[trigger] positions@[j] == after_shot(start[j], cells@),
            forall|j: int| i <= j < n ==> #[trigger] positions@[j] == start[j],
            forall|j: int| 0 <= j < i ==> #[trigger] hits@[j] == hit_by(start[j], cells@),
        decreases n - i,
    {
        let mut p = positions[i];
        let hit = shared_player_shot(&mut p, cells);
        positions.set(i, p);
        hits.push(hit);
        i = i + 1;
    }
    assert(positions@ =~= all_after_shot(start, old(cells)@));
    assert(hits@ =~= hits_of(start, old(cells)@));
    hits
}


/// A shot treats every player alike, wherever it is listed: player `i` is hit
/// exactly when it stands inside the arena on a swept cell, and then it is moved
/// to `x == 25` with its `y` and heading kept; every other player is left as it was.
pub proof fn shot_hits_every_player_on_the_ray(positions: Seq<PlayerPosition>, cells: Seq<(i32, i32)>)
    ensures
        all_after_shot(positions, cells).len() == positions.len(),
        hits_of(positions, cells).len() == positions.len(),
        forall|i: int|
            0 <= i < positions.len() ==> {
                let p = positions[i];
                let hit = 1 < p.x < 23 && 1 < p.y < 23 && exists|j: int|
                    0 <= j < cells.len() && #[trigger] cells[j] == (p.x, p.y);
                &&& #[trigger] hits_of(positions, cells)[i] == hit
                &&& all_after_shot(positions, cells)[i] == (if hit {
                    PlayerPosition { x: 25, y: p.y, z: p.z }
                } else {
                    p
                })
            },
{
}


/// What each released key does, for every heading: the up key steps one cell
/// toward the heading (`+x` at 0, `+y` at 90, `-x` at 180, `-y` at 270), the down key
/// one cell away from it, each only onto a movable cell; the left key adds a
/// quarter turn, the right key takes one away.
pub proof fn keys_move_along_heading(level: LevelMap, p: PlayerPosition)
    requires
        is_heading(p.z as int),
    ensures
        ({
            let dx: int = if p.z == 0 { 1 } else if p.z == 180 { -1 } else { 0 };
            let dy: int = if p.z == 90 { 1 } else if p.z == 270 { -1 } else { 0 };
            let up = Inputs::Direction(Direction { up: true, down: false, left: false, right: false });
            let down = Inputs::Direction(Direction { up: false, down: true, left: false, right: false });
            let left = Inputs::Direction(Direction { up: false, down: false, left: true, right: false });
            let right = Inputs::Direction(Direction { up: false, down: false, left: false, right: true });
            &&& moved(level, p, up) == (if movable(level, p.x + dx, p.y + dy) {
                PlayerPosition { x: (p.x + dx) as i32, y: (p.y + dy) as i32, z: p.z }
            } else {
                p
            })
            &&& moved(level, p, down) == (if movable(level, p.x - dx, p.y - dy) {
                PlayerPosition { x: (p.x - dx) as i32, y: (p.y - dy) as i32, z: p.z }
            } else {
                p
            })
            &&& moved(level, p, left) == PlayerPosition { x: p.x, y: p.y, z: ((p.z + 90) % 360) as i32 }
            &&& moved(level, p, right) == PlayerPosition { x: p.x, y: p.y, z: ((p.z + 270) % 360) as i32 }
        }),
{
}

} // verus!
