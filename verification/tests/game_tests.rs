use multiplayer_fps::client::{buffer_input, player_shot, KeyEvent, KeyEvents, KeyStates};
use multiplayer_fps::config::{
    MyClientPlugin, MyServerPlugin, SocketAddrV4, TransportConfig, Transports, UNSPECIFIED,
};
use multiplayer_fps::keyboard::{listen_keys, KeyOneReport};
use multiplayer_fps::level::{
    can_move_to, get_random_spawn_position, parse_level_map, spawn_position_for_roll, LevelMap,
    SPAWN_POSITIONS,
};
use multiplayer_fps::protocol::{Direction, Inputs, PlayerPosition};
use multiplayer_fps::server::{client_hue_degrees, shooting, Global};
use multiplayer_fps::shared::{
    heading_step, is_inside_arena, push_shot_cells, shared_movement_behaviour, shared_player_shot,
    strict_angle_degrees, HIT_X,
};

/// A map with walls on its border and at the given cells.
fn map_with_walls(walls: &[(usize, usize)]) -> LevelMap {
    let mut m = [[0u8; 25]; 25];
    for i in 0..25 {
        m[0][i] = 1;
        m[24][i] = 1;
        m[i][0] = 1;
        m[i][24] = 1;
    }
    for &(x, y) in walls {
        m[y][x] = 1;
    }
    m
}

fn pos(x: i32, y: i32, z: i32) -> PlayerPosition {
    PlayerPosition { x, y, z }
}

fn dir(up: bool, down: bool, left: bool, right: bool) -> Inputs {
    Inputs::Direction(Direction { up, down, left, right })
}

#[test]
fn movable_cells() {
    let m = map_with_walls(&[(5, 5)]);
    assert!(can_move_to(&m, 2, 2));
    assert!(can_move_to(&m, 22, 22));
    assert!(!can_move_to(&m, 5, 5));
    assert!(!can_move_to(&m, 1, 5));
    assert!(!can_move_to(&m, 23, 5));
    assert!(!can_move_to(&m, 5, 1));
    assert!(!can_move_to(&m, -3, 5));
    assert!(!can_move_to(&m, i64::MAX, 5));
}

#[test]
fn rotation_snaps_to_quarters() {
    assert_eq!(strict_angle_degrees(0, 90), 90);
    assert_eq!(strict_angle_degrees(270, 90), 0);
    assert_eq!(strict_angle_degrees(0, -90), 270);
    assert_eq!(strict_angle_degrees(90, -90), 0);
    assert_eq!(strict_angle_degrees(44, 0), 0);
    assert_eq!(strict_angle_degrees(45, 0), 90);
    assert_eq!(strict_angle_degrees(134, 0), 90);
    assert_eq!(strict_angle_degrees(315, 0), 0);
    assert_eq!(strict_angle_degrees(-100, 0), 270);
    assert_eq!(strict_angle_degrees(-360, 0), 0);
    assert_eq!(strict_angle_degrees(725, 0), 0);
}

#[test]
fn turns_cancel_out() {
    for z in [0, 90, 180, 270] {
        assert_eq!(strict_angle_degrees(strict_angle_degrees(z, 90), -90), z);
        assert_eq!(strict_angle_degrees(strict_angle_degrees(z, -90), 90), z);
        let mut w = z;
        for _ in 0..4 {
            w = strict_angle_degrees(w, 90);
        }
        assert_eq!(w, z);
    }
}

#[test]
fn heading_steps() {
    assert_eq!(heading_step(0), (1, 0));
    assert_eq!(heading_step(90), (0, 1));
    assert_eq!(heading_step(180), (-1, 0));
    assert_eq!(heading_step(270), (0, -1));
    assert_eq!(heading_step(45), (0, 0));
}

#[test]
fn movement_steps_and_turns() {
    let m = map_with_walls(&[(6, 5)]);
    let mut p = pos(4, 5, 0);
    shared_movement_behaviour(&mut p, &dir(true, false, false, false), &m);
    assert_eq!(p, pos(5, 5, 0));
    // the wall ahead stops the player
    shared_movement_behaviour(&mut p, &dir(true, false, false, false), &m);
    assert_eq!(p, pos(5, 5, 0));
    // backward
    shared_movement_behaviour(&mut p, &dir(false, true, false, false), &m);
    assert_eq!(p, pos(4, 5, 0));
    // turn left, then step: now facing +y
    shared_movement_behaviour(&mut p, &dir(false, false, true, false), &m);
    assert_eq!(p, pos(4, 5, 90));
    shared_movement_behaviour(&mut p, &dir(true, false, false, false), &m);
    assert_eq!(p, pos(4, 6, 90));
    // turn right
    shared_movement_behaviour(&mut p, &dir(false, false, false, true), &m);
    assert_eq!(p, pos(4, 6, 0));
    // other inputs do nothing
    for i in [Inputs::Delete, Inputs::Spawn, Inputs::NoInput] {
        shared_movement_behaviour(&mut p, &i, &m);
        assert_eq!(p, pos(4, 6, 0));
    }
}

#[test]
fn all_keys_in_one_tick_apply_in_order() {
    let m = map_with_walls(&[]);
    let mut p = pos(10, 10, 180);
    shared_movement_behaviour(&mut p, &dir(true, true, true, true), &m);
    assert_eq!(p, pos(10, 10, 180));
    let mut q = pos(10, 10, 180);
    shared_movement_behaviour(&mut q, &dir(true, false, true, false), &m);
    assert_eq!(q, pos(9, 10, 270));
}

#[test]
fn step_back_undoes_step_forward() {
    let m = map_with_walls(&[(12, 9)]);
    for z in [0, 90, 180, 270] {
        let start = pos(12, 12, z);
        let mut p = start;
        shared_movement_behaviour(&mut p, &dir(true, false, false, false), &m);
        assert_ne!(p, start);
        shared_movement_behaviour(&mut p, &dir(false, true, false, false), &m);
        assert_eq!(p, start);
    }
}

#[test]
fn spawned_player_steps_into_arena_but_not_back() {
    let m = map_with_walls(&[]);
    let mut p = spawn_position_for_roll(0);
    assert_eq!(p, pos(1, 3, 0));
    shared_movement_behaviour(&mut p, &dir(true, false, false, false), &m);
    assert_eq!(p, pos(2, 3, 0));
    shared_movement_behaviour(&mut p, &dir(false, true, false, false), &m);
    assert_eq!(p, pos(2, 3, 0));
}

#[test]
fn spawn_positions_by_roll() {
    assert_eq!(spawn_position_for_roll(9), pos(1, 21, 0));
    assert_eq!(spawn_position_for_roll(10), pos(23, 3, 180));
    assert_eq!(spawn_position_for_roll(25), pos(13, 1, 90));
    assert_eq!(spawn_position_for_roll(39), pos(21, 23, 270));
    assert_eq!(spawn_position_for_roll(40), pos(1, 3, 0));
    assert_eq!(spawn_position_for_roll(255), spawn_position_for_roll(255 % 40));
}

#[test]
fn every_spawn_faces_the_arena() {
    let m = map_with_walls(&[]);
    for roll in 0..40u8 {
        let p = spawn_position_for_roll(roll);
        assert!(!can_move_to(&m, p.x as i64, p.y as i64));
        let (dx, dy) = heading_step(p.z);
        assert!(can_move_to(&m, (p.x + dx) as i64, (p.y + dy) as i64));
    }
}

#[test]
fn random_spawn_is_a_spawn_cell() {
    for _ in 0..200 {
        let p = get_random_spawn_position();
        let i = SPAWN_POSITIONS
            .iter()
            .position(|c| c[0] as i32 == p.x && c[1] as i32 == p.y)
            .expect("a spawn cell");
        assert_eq!(p, spawn_position_for_roll(i as u8));
    }
}

#[test]
fn shot_sweeps_until_wall() {
    let m = map_with_walls(&[(8, 5)]);
    let mut cells = vec![(99, 99)];
    push_shot_cells(&m, &pos(4, 5, 0), &mut cells);
    assert_eq!(cells, vec![(99, 99), (5, 5), (6, 5), (7, 5)]);
    let mut cells = Vec::new();
    push_shot_cells(&m, &pos(4, 5, 270), &mut cells);
    assert_eq!(cells, vec![(4, 4), (4, 3), (4, 2)]);
    let mut cells = Vec::new();
    push_shot_cells(&m, &pos(22, 22, 0), &mut cells);
    assert!(cells.is_empty());
    // a shooter outside the arena does not shoot
    let mut cells = Vec::new();
    push_shot_cells(&m, &pos(1, 5, 0), &mut cells);
    assert!(cells.is_empty());
}

#[test]
fn hit_player_leaves_arena_for_good() {
    let m = map_with_walls(&[]);
    let mut cells = vec![(6, 5)];
    let mut target = pos(6, 5, 180);
    assert!(shared_player_shot(&mut target, &mut cells));
    assert_eq!(target, pos(HIT_X, 5, 180));
    assert_eq!(cells, vec![(6, 5)]);
    let mut miss = pos(7, 5, 180);
    assert!(!shared_player_shot(&mut miss, &mut cells));
    assert_eq!(miss, pos(7, 5, 180));
    for i in [dir(true, false, false, false), dir(false, true, false, false), dir(true, true, true, true)] {
        let mut p = target;
        for _ in 0..3 {
            shared_movement_behaviour(&mut p, &i, &m);
        }
        assert_eq!(p.x, HIT_X);
        assert_eq!(p.y, 5);
    }
}

#[test]
fn server_shooting() {
    let m = map_with_walls(&[(9, 5)]);
    let shooter = pos(4, 5, 0);
    let mut all = vec![shooter, pos(7, 5, 90), pos(10, 5, 0), pos(4, 6, 0)];
    let hits = shooting(&m, &Inputs::Delete, &shooter, &mut all);
    assert_eq!(hits, vec![false, true, false, false]);
    assert_eq!(all, vec![shooter, pos(HIT_X, 5, 90), pos(10, 5, 0), pos(4, 6, 0)]);
    let mut again = vec![pos(7, 5, 90)];
    let hits = shooting(&m, &Inputs::Spawn, &shooter, &mut again);
    assert!(hits.is_empty());
    assert_eq!(again, vec![pos(7, 5, 90)]);
}

#[test]
fn client_predicted_shot() {
    let m = map_with_walls(&[]);
    let mut all = vec![pos(4, 5, 0), pos(20, 5, 180), pos(4, 10, 90), pos(4, 20, 0)];
    let ids = vec![7u64, 8, 7, 9];
    let hits = player_shot(&m, 7, &Inputs::Delete, &mut all, &ids);
    // player 7 at (4, 5) hits (20, 5); player 7 at (4, 10) hits (4, 20)
    assert_eq!(hits, vec![false, true, false, true]);
    assert_eq!(all, vec![pos(4, 5, 0), pos(HIT_X, 5, 180), pos(4, 10, 90), pos(HIT_X, 20, 0)]);
    let mut none = vec![pos(4, 5, 0)];
    let hits = player_shot(&m, 7, &dir(true, false, false, false), &mut none, &vec![7]);
    assert!(hits.is_empty());
    assert_eq!(none, vec![pos(4, 5, 0)]);
}

fn quiet() -> KeyEvent {
    KeyEvent { just_pressed: false, just_released: false }
}

fn pressed() -> KeyEvent {
    KeyEvent { just_pressed: true, just_released: false }
}

fn released() -> KeyEvent {
    KeyEvent { just_pressed: false, just_released: true }
}

fn events() -> KeyEvents {
    KeyEvents { up: quiet(), down: quiet(), left: quiet(), right: quiet(), space: quiet(), space_held: false }
}

#[test]
fn one_step_per_key_press() {
    let mut s = KeyStates::default();
    let e1 = KeyEvents { up: pressed(), ..events() };
    assert_eq!(buffer_input(&mut s, &e1), Inputs::NoInput);
    assert!(s.up);
    // holding the key sends nothing
    assert_eq!(buffer_input(&mut s, &events()), Inputs::NoInput);
    let e2 = KeyEvents { up: released(), ..events() };
    assert_eq!(buffer_input(&mut s, &e2), dir(true, false, false, false));
    assert_eq!(s, KeyStates::default());
    // a release without a press sends nothing
    assert_eq!(buffer_input(&mut s, &e2), Inputs::NoInput);
}

#[test]
fn press_and_release_in_one_tick_acts() {
    let mut s = KeyStates::default();
    let both = KeyEvent { just_pressed: true, just_released: true };
    let e = KeyEvents { left: both, right: both, ..events() };
    assert_eq!(buffer_input(&mut s, &e), dir(false, false, true, true));
    assert_eq!(s, KeyStates::default());
}

#[test]
fn firing() {
    let mut s = KeyStates::default();
    let e1 = KeyEvents { space: pressed(), space_held: true, ..events() };
    assert_eq!(buffer_input(&mut s, &e1), Inputs::Spawn);
    assert!(s.shot);
    let e2 = KeyEvents { space: released(), ..events() };
    assert_eq!(buffer_input(&mut s, &e2), Inputs::Delete);
    assert!(!s.shot);
}

#[test]
fn movement_wins_the_tick() {
    let mut s = KeyStates { up: true, down: false, left: false, right: false, shot: true };
    let e = KeyEvents { up: released(), space: released(), ..events() };
    assert_eq!(buffer_input(&mut s, &e), dir(true, false, false, false));
    // the shot latch is left for a later tick
    assert!(s.shot);
    assert_eq!(buffer_input(&mut s, &KeyEvents { space: released(), ..events() }), Inputs::Delete);
}

#[test]
fn registry_tracks_players() {
    let mut g = Global::default();
    assert_eq!(g.entity_of(5), None);
    g.connect(5, 100);
    g.connect(6, 200);
    assert_eq!(g.entity_of(5), Some(100));
    g.connect(5, 300);
    assert_eq!(g.entity_of(5), Some(300));
    assert_eq!(g.disconnect(5), Some(300));
    assert_eq!(g.entity_of(5), None);
    assert_eq!(g.disconnect(5), None);
    assert_eq!(g.entity_of(6), Some(200));
}

#[test]
fn hues() {
    assert_eq!(client_hue_degrees(0), 0);
    assert_eq!(client_hue_degrees(1), 30);
    assert_eq!(client_hue_degrees(12), 0);
    assert_eq!(client_hue_degrees(13), 30);
    assert_eq!(client_hue_degrees(65535), (65535 * 30) % 360);
}

#[test]
fn transports() {
    let c = MyClientPlugin {
        client_id: 1,
        client_port: 0,
        server_addr: [127, 0, 0, 1],
        server_port: 5000,
        transport: Transports::Udp,
    };
    assert_eq!(c.transport_config(), TransportConfig::UdpSocket(SocketAddrV4 { ip: UNSPECIFIED, port: 0 }));
    let w = MyClientPlugin { transport: Transports::Webtransport, ..c };
    assert_eq!(
        w.transport_config(),
        TransportConfig::WebTransportClient {
            client_addr: SocketAddrV4 { ip: [0, 0, 0, 0], port: 0 },
            server_addr: SocketAddrV4 { ip: [127, 0, 0, 1], port: 5000 },
        }
    );
    let s = MyServerPlugin { headless: true, port: 5000, transport: Transports::Webtransport };
    assert_eq!(
        s.transport_config(),
        TransportConfig::WebTransportServer { server_addr: SocketAddrV4 { ip: [0, 0, 0, 0], port: 5000 } }
    );
    let u = MyServerPlugin { transport: Transports::Udp, ..s };
    assert_eq!(u.transport_config(), TransportConfig::UdpSocket(SocketAddrV4 { ip: [0, 0, 0, 0], port: 5000 }));
}

#[test]
fn number_keys() {
    assert_eq!(listen_keys(true, false, false, false), (true, KeyOneReport::Pressed));
    assert_eq!(listen_keys(false, true, false, true), (true, KeyOneReport::Released));
    assert_eq!(listen_keys(false, false, true, false), (true, KeyOneReport::Quiet));
    assert_eq!(listen_keys(false, false, false, false), (false, KeyOneReport::Quiet));
}

fn map_text(m: &LevelMap, final_newline: bool) -> String {
    let mut t = String::new();
    for (y, row) in m.iter().enumerate() {
        for c in row {
            t.push(char::from(b'0' + c));
        }
        if y < 24 || final_newline {
            t.push('\n');
        }
    }
    t
}

#[test]
fn level_map_text() {
    let m = map_with_walls(&[(5, 5), (7, 3)]);
    assert_eq!(parse_level_map(&map_text(&m, true)), Some(m));
    assert_eq!(parse_level_map(&map_text(&m, false)), Some(m));
    let mut bad = map_text(&m, true);
    bad.replace_range(30..31, "x");
    assert_eq!(parse_level_map(&bad), None);
    let mut short_line = map_text(&m, true);
    short_line.replace_range(25..26, "0");
    assert_eq!(parse_level_map(&short_line), None);
    assert_eq!(parse_level_map(""), None);
    assert_eq!(parse_level_map(&map_text(&m, true)[..600]), None);
}

#[test]
fn arena_bounds() {
    assert!(is_inside_arena(&pos(2, 2, 0)));
    assert!(is_inside_arena(&pos(22, 22, 0)));
    assert!(!is_inside_arena(&pos(1, 5, 0)));
    assert!(!is_inside_arena(&pos(5, 23, 0)));
    assert!(!is_inside_arena(&pos(HIT_X, 5, 0)));
}

#[test]
fn direction_is_none() {
    assert!(Direction { up: false, down: false, left: false, right: false }.is_none());
    assert!(!Direction { up: false, down: false, left: true, right: false }.is_none());
}
