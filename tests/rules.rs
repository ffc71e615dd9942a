use ledgame::game::{Board, MovingObject, Vector, MAXIMUM_OBJECTS};
use ledgame::gameboard::{Gameboard, PIXEL_COUNT};
use ledgame::nunchuk::ControllerInput;
use ledgame::play::{
    count_scores, explode, free_slot, retire_objects, spawn_projectile, winner_color, Player, DEFAULT_TIMEOUT,
    PROJECTILE_NONE,
};
use ledgame::ws2812::{Ws2812, RGB};

const PURPLE: RGB = RGB { r: 0x80, g: 0x00, b: 0x80 };
const OLIVE: RGB = RGB { r: 0x80, g: 0x80, b: 0x00 };

fn input(joy_x: i8, joy_y: i8, btn_z: u8) -> ControllerInput {
    ControllerInput { joy_x, joy_y, accel_x: 0, accel_y: 0, accel_z: 0, btn_z, btn_c: 0 }
}

fn gameboard() -> Gameboard {
    Gameboard::new(Ws2812::new(108_000_000, PIXEL_COUNT))
}

#[test]
fn player_waits_out_its_timeout() {
    let mut p = Player::new(7, 1, PURPLE);
    p.input = input(0, 0, 1);
    for _ in 0..4 {
        assert_eq!(p.update(), None);
    }
    assert_eq!(p.shoot_timeout, 0);
    assert!(!p.shoot_btn);
    assert_eq!(p.update(), None);
    assert!(p.shoot_btn);
}

#[test]
fn player_aims_then_fires_on_release() {
    let mut p = Player::new(7, 1, PURPLE);
    p.shoot_timeout = 0;
    p.shoot_btn = true;
    p.input = input(0, 100, 1);
    assert_eq!(p.update(), None);
    assert!(p.use_target);
    assert_eq!((p.target_x, p.target_y), (7, 4));
    p.input = input(30, -40, 0);
    let shot = p.update();
    assert_eq!(shot, Some((Vector { x: 600_000, y: 0 }, Vector { x: 1200, y: -1600 })));
    assert_eq!(p.shoot_timeout, DEFAULT_TIMEOUT);
    assert!(!p.shoot_btn);
    assert!(!p.use_target);
}

#[test]
fn player_steps_inside_the_border() {
    let mut p = Player::new(1, 14, OLIVE);
    p.shoot_timeout = 0;
    p.input = input(-120, 120, 0);
    assert_eq!(p.update(), None);
    assert_eq!((p.x, p.y), (1, 14));
    assert_eq!(p.shoot_timeout, DEFAULT_TIMEOUT / 2);
    p.shoot_timeout = 0;
    p.input = input(110, -110, 0);
    p.update();
    assert_eq!((p.x, p.y), (2, 13));
}

#[test]
fn spawning_takes_the_first_free_slot() {
    let mut table: Vec<Option<MovingObject>> = vec![None; MAXIMUM_OBJECTS];
    let mut cleared = MovingObject::new(Vector { x: 0, y: 0 }, Vector { x: 1, y: 0 }, '*');
    cleared.clear_symbol();
    table[0] = Some(MovingObject::new(Vector { x: 0, y: 0 }, Vector { x: 1, y: 0 }, '*'));
    table[1] = Some(cleared);
    assert_eq!(free_slot(&table), Some(1));
    let mut n = 1;
    let slot = spawn_projectile(&mut table, &mut n, 1, Vector { x: 5, y: 6 }, Vector { x: 10, y: 0 });
    assert_eq!(slot, Some(1));
    assert_eq!(n, 2);
    assert_eq!(table[1].unwrap().symbol, '#');
    assert_eq!(table[1].unwrap().location, Vector { x: 5, y: 6 });
    assert_ne!(table[1].unwrap().symbol, PROJECTILE_NONE);
}

#[test]
fn spawning_fails_when_the_table_is_full() {
    let o = MovingObject::new(Vector { x: 0, y: 0 }, Vector { x: 1, y: 0 }, '*');
    let mut table: Vec<Option<MovingObject>> = vec![Some(o); MAXIMUM_OBJECTS];
    table[MAXIMUM_OBJECTS - 1] = None;
    assert_eq!(free_slot(&table), None);
    let mut n = 3;
    assert_eq!(spawn_projectile(&mut table, &mut n, 0, Vector { x: 0, y: 0 }, Vector { x: 1, y: 1 }), None);
    assert_eq!(n, 3);
}

#[test]
fn explosion_paints_a_square_inside_the_border() {
    let mut gb = gameboard();
    explode(&mut gb, 1, 7, PURPLE);
    assert_eq!(gb.get_color(0, 7), RGB::zero());
    assert_eq!(gb.get_color(1, 5), PURPLE);
    assert_eq!(gb.get_color(3, 9), PURPLE);
    assert_eq!(gb.get_color(4, 7), RGB::zero());
    assert_eq!(gb.get_color(1, 10), RGB::zero());
}

#[test]
fn stopped_projectile_explodes_moving_one_ages() {
    let stopped = MovingObject::new(Vector { x: 600_000, y: 600_000 }, Vector { x: 0, y: 0 }, '#');
    let moving = MovingObject::new(Vector { x: 200_000, y: 300_000 }, Vector { x: 100, y: 0 }, '*');
    let mut table: Vec<Option<MovingObject>> = vec![None; MAXIMUM_OBJECTS];
    table[0] = Some(stopped);
    table[1] = Some(moving);
    let mut board = Board::new();
    let mut gb = gameboard();
    retire_objects(&mut table, 2, &mut board, &mut gb, PURPLE, OLIVE);
    assert_eq!(table[0], None);
    assert_eq!(table[1].unwrap().age, 1);
    assert_eq!(board.get(3, 4), '*');
    assert_eq!(gb.get_color(7, 7), OLIVE);
    assert_eq!(gb.get_color(5, 9), OLIVE);
    assert_eq!(gb.get_color(4, 7), RGB::zero());
}

#[test]
fn scores_count_painted_cells() {
    let mut gb = gameboard();
    gb.set_color(1, 1, PURPLE);
    gb.set_color(14, 14, PURPLE);
    gb.set_color(0, 0, PURPLE);
    gb.set_color(2, 3, OLIVE);
    assert_eq!(count_scores(&gb, PURPLE, OLIVE), (2, 1));
    for x in 1..15 {
        for y in 1..15 {
            gb.set_color(x, y, if x < 8 { PURPLE } else { OLIVE });
        }
    }
    let score = count_scores(&gb, PURPLE, OLIVE);
    assert_eq!(score, (98, 98));
    assert_eq!(winner_color(score, PURPLE, OLIVE), Some(RGB { r: 0, g: 0x80, b: 0 }));
    assert_eq!(winner_color((100, 96), PURPLE, OLIVE), Some(PURPLE));
    assert_eq!(winner_color((90, 106), PURPLE, OLIVE), Some(OLIVE));
    assert_eq!(winner_color((90, 100), PURPLE, OLIVE), None);
}

#[test]
fn trails_take_the_owner_colour() {
    let a = MovingObject::new(Vector { x: 200_000, y: 300_000 }, Vector { x: 100, y: 0 }, '*');
    let b = MovingObject::new(Vector { x: 500_000, y: 500_000 }, Vector { x: 100, y: 0 }, '#');
    let off = MovingObject::new(Vector { x: 9_000_000, y: 500_000 }, Vector { x: 100, y: 0 }, '#');
    let mut table: Vec<Option<MovingObject>> = vec![None; MAXIMUM_OBJECTS];
    table[0] = Some(a);
    table[1] = Some(b);
    table[2] = Some(off);
    let mut gb = gameboard();
    ledgame::play::paint_trails(&table, 3, &mut gb, PURPLE, OLIVE);
    assert_eq!(gb.get_color(3, 4), PURPLE);
    assert_eq!(gb.get_color(6, 6), OLIVE);
    assert_eq!(count_scores(&gb, PURPLE, OLIVE), (1, 1));
}

#[test]
fn occupied_cells_and_full_fill_light_the_strip_only() {
    let mut board = Board::new();
    ledgame::game::clear_board(&mut board);
    board.set(2, 3, '*');
    let mut gb = gameboard();
    ledgame::play::mark_occupied(&mut gb, &board, PURPLE);
    assert_eq!(gb.ws.data_buffer[3 * 16 + 15 - 2], PURPLE);
    assert_eq!(gb.ws.data_buffer[0], RGB::zero());
    assert_eq!(gb.ws.data_buffer.iter().filter(|&&c| c == PURPLE).count(), 1);
    assert_eq!(gb.get_color(2, 3), RGB::zero());
    ledgame::play::fill_inside(&mut gb, OLIVE);
    assert_eq!(gb.ws.data_buffer.iter().filter(|&&c| c == OLIVE).count(), 196);
    assert_eq!(gb.ws.data_buffer[0], RGB::zero());
    assert_eq!(count_scores(&gb, PURPLE, OLIVE), (0, 0));
}
