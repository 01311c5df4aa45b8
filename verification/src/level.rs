//! The arena map: which cells a player may step on.

use vstd::prelude::*;

use crate::protocol::{is_heading, step_x, step_y, PlayerPosition};

verus! {

/// Side length of a level map, in cells (indices `0..=24`).
pub const LEVEL_SIDE: usize = 25;

/// The level whose map the server uses for its checks.
pub const GAME_LEVEL: u8 = 1;

/// A level map, indexed `[y][x]`; a cell holding `0` is empty.
pub type LevelMap = [[u8; LEVEL_SIDE]; LEVEL_SIDE];

/// Whether a cell lies in the playable part of the arena: the first two and the
/// last two rows and columns are the border and the spawn area.
pub open spec fn in_walkable_area(x: int, y: int) -> bool {
    2 <= x <= 22 && 2 <= y <= 22
}

/// The value the map holds at cell `(x, y)`.
pub open spec fn cell_value(level: LevelMap, x: int, y: int) -> u8 {
    level@[y]@[x]
}

/// Whether a player may move onto cell `(x, y)` of the level played now:
/// the cell is in the walkable area and empty on the map of level 1;
/// no cell of another level is open.
pub open spec fn movable(level: LevelMap, x: int, y: int) -> bool {
    &&& in_walkable_area(x, y)
    &&& GAME_LEVEL == 1
    &&& cell_value(level, x, y) == 0
}

/// Check that the cell of the level may be used as a moving target
/// (not a wall, not a spawn position, and inside the level indices).
pub fn can_move_to(level: &LevelMap, x: i64, y: i64) -> (ok: bool)
    ensures
        ok == movable(*level, x as int, y as int),
{
    if x < 2 || x > 22 || y < 2 || y > 22 {
        return false;
    }
    let xi = x as usize;
    let yi = y as usize;
    match GAME_LEVEL {
        1 => {
            let row: &[u8; 25] = &level[yi];
            row[xi] == 0
        },
        _ => false,
    }
}

/// The cells a player may spawn on: ten on each side of the arena's border,
/// on every second cell.
pub const SPAWN_POSITIONS: [[u8; 2]; 40] = [
    [1, 3], [1, 5], [1, 7], [1, 9], [1, 11], [1, 13], [1, 15], [1, 17], [1, 19], [1, 21],
    [23, 3], [23, 5], [23, 7], [23, 9], [23, 11], [23, 13], [23, 15], [23, 17], [23, 19], [23, 21],
    [3, 1], [5, 1], [7, 1], [9, 1], [11, 1], [13, 1], [15, 1], [17, 1], [19, 1], [21, 1],
    [3, 23], [5, 23], [7, 23], [9, 23], [11, 23], [13, 23], [15, 23], [17, 23], [19, 23], [21, 23],
];

/// The heading a player spawned on entry `index` of `SPAWN_POSITIONS` faces:
/// the left side looks right (0), the right side left (180),
/// the bottom side up (90) and the top side down (270).
pub open spec fn spawn_heading(index: int) -> int {
    if index < 10 {
        0
    } else if index < 20 {
        180
    } else if index < 30 {
        90
    } else {
        270
    }
}

/// The position a player takes when spawned on entry `index` of `SPAWN_POSITIONS`.
pub open spec fn spawn_position_at(index: int) -> PlayerPosition {
    PlayerPosition {
        x: SPAWN_POSITIONS@[index]@[0] as i32,
        y: SPAWN_POSITIONS@[index]@[1] as i32,
        z: spawn_heading(index) as i32,
    }
}

/// Whether `p` is one of the spawn positions.
pub open spec fn is_spawn_position(p: PlayerPosition) -> bool {
    exists|i: int| 0 <= i < 40 && p == spawn_position_at(i)
}

/// The spawn position chosen by a random byte: entry `roll % 40` of
/// `SPAWN_POSITIONS`, with the heading of its side.
pub fn spawn_position_for_roll(roll: u8) -> (p: PlayerPosition)
    ensures
        p == spawn_position_at((roll % 40) as int),
{
    let index: u8 = roll % 40;
    let cell: [u8; 2] = SPAWN_POSITIONS[index as usize];
    let x: i32 = cell[0] as i32;
    let y: i32 = cell[1] as i32;
    let z: i32 = if index <= 9 {
        0
    } else if index <= 19 {
        180
    } else if index <= 29 {
        90
    } else {
        270
    };
    PlayerPosition { x, y, z }
}

/// A byte drawn from `rand::random`, the thread-local generator.
/// Nothing is stated of its value: every byte is possible.
#[verifier::external_body]
fn random_roll() -> u8 {
    rand::random::<u8>()
}

/// Return a random spawn position from the list of cells a player may spawn on.
pub fn get_random_spawn_position() -> (p: PlayerPosition)
    ensures
        is_spawn_position(p),
        is_heading(p.z as int),
{
    let roll = random_roll();
    let p = spawn_position_for_roll(roll);
    assert(0 <= (roll % 40) < 40);
    p
}

/// Every spawn position lies outside the walkable area, and the cell in front
/// of it (one step along its heading) lies inside it: a spawned player faces the arena.
pub proof fn spawn_faces_arena(i: int)
    requires
        0 <= i < 40,
    ensures
        is_heading(spawn_position_at(i).z as int),
        !in_walkable_area(spawn_position_at(i).x as int, spawn_position_at(i).y as int),
        in_walkable_area(
            spawn_position_at(i).x + step_x(spawn_position_at(i).z as int),
            spawn_position_at(i).y + step_y(spawn_position_at(i).z as int),
        ),
{
}

/// Whether `s` is the text of a level map: 25 lines of 25 decimal digits,
/// one digit per cell, each line ended by a newline (the last one may lack it).
pub open spec fn is_level_text(s: Seq<char>) -> bool {
    &&& (s.len() == 650 || s.len() == 649)
    &&& forall|y: int, x: int|
        0 <= y < 25 && 0 <= x < 25 ==> crate::info::is_decimal_digit(#[trigger] s[26 * y + x])
    &&& forall|y: int| 0 <= y < 25 && 26 * y + 25 < s.len() ==> #[trigger] s[26 * y + 25] == '\n'
}

/// The value a level text gives cell `(x, y)`.
pub open spec fn text_cell(s: Seq<char>, x: int, y: int) -> u8 {
    crate::info::digit_value(s[26 * y + x]) as u8
}

/// Read a level map from its text: 25 lines of 25 digits, the cell in column
/// `x` of line `y` being `[y][x]`.
pub fn parse_level_map(text: &str) -> (r: Option<LevelMap>)
    ensures
        match r {
            Some(m) => is_level_text(text@) && forall|x: int, y: int|
                0 <= x < 25 && 0 <= y < 25 ==> #[trigger] cell_value(m, x, y) == text_cell(text@, x, y),
            None => !is_level_text(text@),
        },
{
    let v = crate::info::chars_of(text);
    let n = v.len();
    if n != 650 && n != 649 {
        return None;
    }
    let mut m: LevelMap = [[0u8; 25]; 25];
    let mut y: usize = 0;
    while y < 25
        invariant
            n == v@.len(),
            v@ == text@,
            n == 650 || n == 649,
            y <= 25,
            forall|yy: int, x: int|
                0 <= yy < y && 0 <= x < 25 ==> crate::info::is_decimal_digit(#[trigger] v@[26 * yy + x]),
            forall|yy: int| 0 <= yy < y && 26 * yy + 25 < n ==> #[trigger] v@[26 * yy + 25] == '\n',
            forall|x: int, yy: int|
                0 <= x < 25 && 0 <= yy < y ==> #[trigger] cell_value(m, x, yy) == text_cell(v@, x, yy),
        decreases 25 - y,
    {
        let mut row: [u8; 25] = [0u8; 25];
        let mut x: usize = 0;
        while x < 25
            invariant
                n == v@.len(),
                v@ == text@,
                n == 650 || n == 649,
                y < 25,
                x <= 25,
                forall|xx: int| 0 <= xx < x ==> crate::info::is_decimal_digit(#[trigger] v@[26 * y + xx]),
                forall|xx: int| 0 <= xx < x ==> #[trigger] row@[xx] == text_cell(v@, xx, y as int),
            decreases 25 - x,
        {
            let c = v[26 * y + x];
            if !('0' <= c && c <= '9') {
                assert(!crate::info::is_decimal_digit(v@[26 * y + x]));
                return None;
            }
            row[x] = (c as u32 - '0' as u32) as u8;
            x = x + 1;
        }
        if 26 * y + 25 < n {
            if v[26 * y + 25] != '\n' {
                assert(!(text@[26 * (y as int) + 25] == '\n'));
                return None;
            }
        }
        let ghost before = m;
        m[y] = row;
        assert(m@ =~= before@.update(y as int, row));
        assert forall|x: int, yy: int| 0 <= x < 25 && 0 <= yy <= y implies #[trigger] cell_value(m, x, yy)
            == text_cell(v@, x, yy) by {
            if yy < y {
                assert(m@[yy] == before@[yy]);
                assert(cell_value(before, x, yy) == text_cell(v@, x, yy));
            } else {
                assert(m@[yy] == row);
            }
        }
        y = y + 1;
    }
    Some(m)
}

} // verus!
