use ledgame::game::{
    clear_board, game_tick, print_board, Board, Collision, CollisionTime, MovingObject, Vector, BOARD_SIZE,
    LEFT_WALL, MAXIMUM_OBJECTS, RATIO_ONE,
};
use ledgame::math::{abs, fast_sqrt, pow2};

fn v(x: i64, y: i64) -> Vector {
    Vector { x, y }
}

fn empty_table() -> Vec<Option<MovingObject>> {
    vec![None; MAXIMUM_OBJECTS]
}

#[test]
fn integer_square_root() {
    assert_eq!(fast_sqrt(0), 0);
    assert_eq!(fast_sqrt(1), 1);
    assert_eq!(fast_sqrt(15), 3);
    assert_eq!(fast_sqrt(16), 4);
    assert_eq!(fast_sqrt(640_000_000_000_000_000), 800_000_000);
    assert_eq!(fast_sqrt(u128::MAX), u64::MAX);
}

#[test]
fn absolute_value_and_square() {
    assert_eq!(abs(-5), 5);
    assert_eq!(abs(7), 7);
    assert_eq!(abs(i64::MIN), 1u64 << 63);
    assert_eq!(pow2(-3), 9);
    assert_eq!(pow2(i64::MIN), 1i128 << 126);
}

#[test]
fn ratios_split_the_launch_direction() {
    let o = MovingObject::new(v(0, 0), v(3000, -4000), '*');
    assert_eq!(o.ratios.x, 428_571);
    assert_eq!(o.ratios.y, 571_429);
    assert_eq!(o.ratios.x + o.ratios.y, RATIO_ONE);
    assert_eq!(o.age, 0);
    assert_eq!(o.symbol, '*');
}

#[test]
fn resting_launch_gets_even_ratios() {
    let o = MovingObject::new(v(100, 200), v(0, 0), '#');
    assert_eq!(o.ratios, v(500_000, 500_000));
    assert!(!o.moving());
}

#[test]
fn tick_moves_then_slows_down() {
    let mut o = MovingObject::new(v(100_000, 200_000), v(2000, -1000), '*');
    o.tick(50, false, None);
    assert_eq!(o.location, v(200_000, 150_000));
    assert_eq!(o.velocity, v(2000, -1000));
    o.tick(50, true, Some(v(-2000, 1000)));
    // moves at the old velocity, then takes the new one and slows down
    assert_eq!(o.location, v(300_000, 100_000));
    // ratios are two thirds and one third: 53 and 26 taken off
    assert_eq!(o.velocity, v(-1947, 974));
}

#[test]
fn deceleration_stops_at_zero() {
    let mut o = MovingObject::new(v(0, 0), v(30, 0), '*');
    o.tick(0, true, None);
    assert_eq!(o.velocity, v(0, 0));
    assert!(!o.moving());
}

#[test]
fn resting_object_ignores_tick() {
    let mut o = MovingObject::new(v(500_000, 500_000), v(0, 0), '*');
    let before = o;
    o.tick(100, true, Some(v(1000, 1000)));
    assert_eq!(o, before);
}

#[test]
fn position_rounds_to_the_cell() {
    let o = MovingObject::new(v(0, 1_260_000), v(0, 0), '*');
    assert_eq!(o.position(), (1, 14));
    let far = MovingObject::new(v(-400_000, 49_999), v(0, 0), '*');
    assert_eq!(far.position(), (0, 1));
}

#[test]
fn age_and_symbol() {
    let mut o = MovingObject::new(v(0, 0), v(1, 0), '*');
    o.add_age();
    o.add_age();
    assert_eq!(o.get_age(), 2);
    o.clear_symbol();
    assert_eq!(o.symbol, '.');
}

#[test]
fn wall_reached_exactly_at_frame_end_is_not_a_collision() {
    // from x = 5 cells at 5 cells per frame the left wall is reached at t = 1
    let o = MovingObject::new(v(500_000, 600_000), v(-5000, 0), '*');
    let table = vec![Some(o), None, None, None, None, None, None, None, None, None];
    assert!(o.get_collisions(&table, 0, 100).is_empty());
}

#[test]
fn wall_reached_before_frame_end_is_a_collision() {
    let o = MovingObject::new(v(490_000, 600_000), v(-5000, 0), '*');
    let table = vec![Some(o), None, None, None, None, None, None, None, None, None];
    let found = o.get_collisions(&table, 0, 100);
    assert_eq!(
        found,
        vec![Collision { other_id: LEFT_WALL, time: CollisionTime { num: 490_000, den: 5000 }, subject_id: 0 }]
    );
    // with less of the frame left, the same wall is out of reach
    assert!(o.get_collisions(&table, 0, 98).is_empty());
}

#[test]
fn head_on_pair_meets_half_way_through_the_frame() {
    let a = MovingObject::new(v(350_000, 600_000), v(2000, 0), '*');
    let b = MovingObject::new(v(650_000, 600_000), v(-2000, 0), '#');
    let mut table = empty_table();
    table[0] = Some(a);
    table[1] = Some(b);
    let found = a.get_collisions(&table, 0, 100);
    assert_eq!(found.len(), 1);
    assert_eq!(found[0].other_id, 1);
    assert_eq!(found[0].subject_id, 0);
    assert_eq!(found[0].time.num / found[0].time.den, 50);
    assert_eq!(found[0].time.num % found[0].time.den, 0);
}

#[test]
fn head_on_pair_bounces_back() {
    let a = MovingObject::new(v(350_000, 600_000), v(2000, 0), '*');
    let b = MovingObject::new(v(650_000, 600_000), v(-2000, 0), '#');
    let mut table = empty_table();
    table[0] = Some(a);
    table[1] = Some(b);
    let mut board = Board::new();
    game_tick(&mut table, 2, &mut board);
    let a2 = table[0].unwrap();
    let b2 = table[1].unwrap();
    // they meet at exactly t = 0.5, are resolved there and part for the rest of the frame
    assert_eq!(a2.location, v(350_000, 600_000));
    assert_eq!(b2.location, v(650_000, 600_000));
    assert_eq!(a2.velocity, v(-1920, 0));
    assert_eq!(b2.velocity, v(1920, 0));
    assert_eq!(a2.ratios, a.ratios);
    assert!(board.cells.iter().all(|&c| c == 'X'));
}

#[test]
fn projectiles_fired_at_each_other() {
    let a = MovingObject::new(v(200_000, 800_000), v(5000, 0), '*');
    let b = MovingObject::new(v(1_400_000, 800_000), v(-5000, 0), '#');
    let mut table = empty_table();
    table[0] = Some(a);
    table[1] = Some(b);
    let mut board = Board::new();
    game_tick(&mut table, 2, &mut board);
    let a1 = table[0].unwrap();
    let b1 = table[1].unwrap();
    assert_eq!(a1.location, v(700_000, 800_000));
    assert_eq!(b1.location, v(900_000, 800_000));
    assert_eq!(a1.velocity, v(4920, 0));
    assert_eq!(b1.velocity, v(-4920, 0));
    // exactly one collision in the second frame, between the two of them
    let found = a1.get_collisions(&table, 0, 100);
    assert_eq!(
        found,
        vec![Collision { other_id: 1, time: CollisionTime { num: 1_968_000_000, den: 193_651_200 }, subject_id: 0 }]
    );
    assert!(b1.get_collisions(&table, 1, 100).is_empty());
    game_tick(&mut table, 2, &mut board);
    let a2 = table[0].unwrap();
    let b2 = table[1].unwrap();
    assert_eq!(a2.location, v(316_240, 800_000));
    assert_eq!(b2.location, v(1_283_760, 800_000));
    assert_eq!(a2.velocity, v(-4840, 0));
    assert_eq!(b2.velocity, v(4840, 0));
    assert!(a2.location.x < b2.location.x);
}

#[test]
fn wall_collision_reflects_and_marks_the_border() {
    let o = MovingObject::new(v(500_000, 600_000), v(-5000, 0), '*');
    let mut table = empty_table();
    table[0] = Some(o);
    let mut board = Board::new();
    clear_board(&mut board);
    game_tick(&mut table, 1, &mut board);
    let o1 = table[0].unwrap();
    assert_eq!(o1.location, v(0, 600_000));
    assert_eq!(o1.velocity, v(-4920, 0));
    assert_eq!(board.get(0, 7), 'X');
    game_tick(&mut table, 1, &mut board);
    let o2 = table[0].unwrap();
    assert_eq!(o2.velocity, v(4840, 0));
    assert_eq!(o2.location, v(482_160, 600_000));
    assert_eq!(board.get(0, 7), '*');
}

#[test]
fn resting_object_stays_put() {
    let o = MovingObject::new(v(700_000, 700_000), v(0, 0), '*');
    let mut table = empty_table();
    table[3] = Some(o);
    let mut board = Board::new();
    for _ in 0..5 {
        game_tick(&mut table, 4, &mut board);
    }
    assert_eq!(table[3], Some(o));
    assert!(board.cells.iter().all(|&c| c == 'X'));
}

#[test]
fn empty_table_frame_changes_nothing() {
    let mut table = empty_table();
    let mut board = Board::new();
    game_tick(&mut table, 0, &mut board);
    assert!(table.iter().all(|s| s.is_none()));
    assert_eq!(board.cells.len(), BOARD_SIZE);
    assert!(board.cells.iter().all(|&c| c == 'X'));
}

#[test]
fn objects_past_the_count_are_not_moved() {
    let o = MovingObject::new(v(700_000, 700_000), v(1000, 0), '*');
    let mut table = empty_table();
    table[5] = Some(o);
    let mut board = Board::new();
    game_tick(&mut table, 5, &mut board);
    assert_eq!(table[5], Some(o));
}

#[test]
fn clearing_keeps_the_border() {
    let mut board = Board::new();
    clear_board(&mut board);
    assert_eq!(board.get(0, 0), 'X');
    assert_eq!(board.get(15, 7), 'X');
    assert_eq!(board.get(7, 15), 'X');
    assert_eq!(board.get(1, 1), '.');
    assert_eq!(board.get(14, 14), '.');
    board.set(3, 2, '#');
    assert_eq!(board.cells[3 + 2 * 16], '#');
}

#[test]
fn printed_board_has_rows_of_spaced_symbols() {
    let mut board = Board::new();
    clear_board(&mut board);
    board.set(1, 1, '*');
    let text: String = print_board(&board).into_iter().collect();
    let lines: Vec<&str> = text.lines().collect();
    assert_eq!(lines.len(), 16);
    assert_eq!(lines[0], "X ".repeat(16));
    assert_eq!(lines[1], format!("X * {}X ", ". ".repeat(13)));
    assert!(text.ends_with("X \n"));
}

#[test]
fn wall_met_on_a_whole_sub_step_is_resolved_there() {
    let o = MovingObject::new(v(100_000, 500_000), v(-2000, 0), '*');
    let mut table = empty_table();
    table[0] = Some(o);
    let mut board = Board::new();
    clear_board(&mut board);
    let before = board.cells.clone();
    game_tick(&mut table, 1, &mut board);
    let o1 = table[0].unwrap();
    // the wall is met at exactly half a frame: out and back again
    assert_eq!(o1.location, v(100_000, 500_000));
    assert_eq!(o1.velocity, v(1920, 0));
    assert_eq!(board.get(0, 6), '*');
    let changed = (0..BOARD_SIZE).filter(|&i| board.cells[i] != before[i]).count();
    assert_eq!(changed, 1);
}

#[test]
fn pair_meeting_on_a_whole_sub_step_is_resolved_there() {
    let a = MovingObject::new(v(300_000, 500_000), v(5000, 0), '*');
    let b = MovingObject::new(v(900_000, 500_000), v(-5000, 0), '#');
    let mut table = empty_table();
    table[0] = Some(a);
    table[1] = Some(b);
    let mut board = Board::new();
    game_tick(&mut table, 2, &mut board);
    assert_eq!(table[0].unwrap().location, v(300_000, 500_000));
    assert_eq!(table[1].unwrap().location, v(900_000, 500_000));
    assert_eq!(table[0].unwrap().velocity, v(-4920, 0));
    assert_eq!(table[1].unwrap().velocity, v(4920, 0));
}
