//! The rules around the simulation that the game loop applies each frame:
//! players aim, fire and move; projectiles that stop or grow old explode
//! and paint the board in their owner's colour; the painted cells make the
//! score.
use vstd::prelude::*;

use crate::game::{
    cell_of, Board, MovingObject, Vector, BOARD_SIZE, BOARD_WIDTH, MAXIMUM_OBJECTS, SPEED_LIMIT, UNIT, speed_ok, norm_sq,
    floor_sqrt, lemma_floor_sqrt_unique,
};
use crate::gameboard::{cell, lemma_strip_index, strip_index, Gameboard, HEIGHT, WIDTH};
use crate::math::fast_sqrt;
use vstd::arithmetic::div_mod::lemma_fundamental_div_mod_converse;
use crate::nunchuk::ControllerInput;
use crate::ws2812::RGB;

verus! {

/// Frames a player waits after firing.
pub const DEFAULT_TIMEOUT: u8 = 10;

/// Joystick offset beyond which a player moves.
pub const NUNCHUK_THRES: i8 = 100;

/// The mark of a cleared projectile.
pub const PROJECTILE_NONE: char = '.';

/// The mark of the first player's projectiles.
pub const PROJECTILE_P1: char = '*';

/// The mark of the second player's projectiles.
pub const PROJECTILE_P2: char = '#';

/// Launch speed of a projectile: two cells per frame, in velocity units.
pub const LAUNCH_SPEED: i64 = 2000;

/// How far ahead of the player the aim is shown, in thousandths of a cell.
pub const AIM_DISTANCE: i64 = 3000;

/// Frames after which a projectile explodes even if it still moves.
pub const EXPLODE_AGE: usize = 100;

/// Cells inside the border of the board.
pub const TOTAL_PIXELS: u8 = 196;

/// A player: a cell on the board, a colour, and the state of aiming.
#[derive(Debug, Clone, Copy, PartialEq, Eq, Structural)]
pub struct Player {
    pub x: i64,
    pub y: i64,
    pub color: RGB,
    pub shoot_timeout: u8,
    pub shoot_btn: bool,
    pub target_x: usize,
    pub target_y: usize,
    pub use_target: bool,
    pub input: ControllerInput,
}

pub open spec fn sign_int(v: int) -> int {
    if v < 0 {
        -1
    } else {
        1
    }
}

/// Length of the joystick offset, rounded down.
pub open spec fn joy_length(input: ControllerInput) -> int {
    floor_sqrt(input.joy_x * input.joy_x + input.joy_y * input.joy_y)
}

/// `amount` scaled by a joystick component over the joystick's length,
/// rounded toward zero; zero when the joystick is centred.
pub open spec fn along(amount: int, j: int, len: int) -> int {
    if len == 0 {
        0
    } else {
        sign_int(j) * ((if j < 0 { -j } else { j }) * amount / len)
    }
}

/// A number of thousandths of a cell, as whole cells rounded toward zero.
pub open spec fn whole_cells(m: int) -> int {
    if m >= 0 {
        m / 1000
    } else {
        -((-m) / 1000)
    }
}

/// The joystick direction in whole steps: one way, the other, or none.
pub open spec fn step_dir(j: int) -> int {
    if j > NUNCHUK_THRES {
        1
    } else if j < -NUNCHUK_THRES {
        -1
    } else {
        0
    }
}

/// A coordinate after a step, when the step keeps it inside the border.
pub open spec fn stepped(p: int, d: int) -> int {
    if 0 < p + d < BOARD_WIDTH - 1 {
        p + d
    } else {
        p
    }
}

/// What a frame does to a player, and the launch (location, velocity) of
/// the projectile it fires, if any.
pub open spec fn player_step(p: Player) -> (Player, Option<(Vector, Vector)>) {
    let input = p.input;
    if p.shoot_timeout > 0 {
        (Player { shoot_timeout: (p.shoot_timeout - 1) as u8, ..p }, None)
    } else if p.shoot_btn {
        let len = joy_length(input);
        if input.btn_z == 0 {
            let location = Vector { x: ((p.x - 1) * UNIT) as i64, y: ((p.y - 1) * UNIT) as i64 };
            let velocity = Vector {
                x: along(LAUNCH_SPEED as int, input.joy_x as int, len) as i64,
                y: along(LAUNCH_SPEED as int, input.joy_y as int, len) as i64,
            };
            (Player { shoot_timeout: DEFAULT_TIMEOUT, shoot_btn: false, use_target: false, ..p }, Some((location, velocity)))
        } else {
            let tx = whole_cells(p.x * 1000 + along(AIM_DISTANCE as int, input.joy_x as int, len));
            let ty = whole_cells(p.y * 1000 + along(AIM_DISTANCE as int, input.joy_y as int, len));
            if 0 < tx < BOARD_WIDTH - 1 && 0 < ty < BOARD_WIDTH - 1 {
                (Player { target_x: tx as usize, target_y: ty as usize, use_target: true, ..p }, None)
            } else {
                (p, None)
            }
        }
    } else if input.btn_z == 1 {
        (Player { shoot_btn: true, ..p }, None)
    } else {
        let dx = step_dir(input.joy_x as int);
        let dy = step_dir(input.joy_y as int);
        if dx != 0 || dy != 0 {
            (Player {
                x: stepped(p.x as int, dx) as i64,
                y: stepped(p.y as int, dy) as i64,
                shoot_timeout: DEFAULT_TIMEOUT / 2,
                ..p
            }, None)
        } else {
            (p, None)
        }
    }
}

impl Player {
    /// A player stands inside the border of the board.
    pub open spec fn wf(&self) -> bool {
        0 < self.x < BOARD_WIDTH - 1 && 0 < self.y < BOARD_WIDTH - 1
    }

    /// A player at column `x`, row `y`, in `color`, waiting a few frames.
    pub fn new(x: i64, y: i64, color: RGB) -> (r: Player)
        requires
            0 < x < BOARD_WIDTH - 1,
            0 < y < BOARD_WIDTH - 1,
        ensures
            r.wf(),
            r.x == x,
            r.y == y,
            r.color == color,
            r.shoot_timeout == 4,
            !r.shoot_btn,
            !r.use_target,
            r.input == (ControllerInput { joy_x: 0, joy_y: 0, accel_x: 0, accel_y: 0, accel_z: 0, btn_z: 0, btn_c: 0 }),
    {
        Player {
            x,
            y,
            color,
            shoot_timeout: 4,
            shoot_btn: false,
            target_x: 0,
            target_y: 0,
            use_target: false,
            input: ControllerInput { joy_x: 0, joy_y: 0, accel_x: 0, accel_y: 0, accel_z: 0, btn_z: 0, btn_c: 0 },
        }
    }

    /// One frame of the player's rules on its latest input: wait out a
    /// timeout; or, with the trigger held, aim, and fire on release; or
    /// press the trigger; or step toward the joystick. Returns the launch
    /// location and velocity of a fired projectile.
    pub fn update(&mut self) -> (r: Option<(Vector, Vector)>)
        requires
            old(self).wf(),
        ensures
            final(self).wf(),
            (*final(self), r) == player_step(*old(self)),
            r matches Some(l) ==> speed_ok(l.1),
    {
        let input = self.input;
        if self.shoot_timeout > 0 {
            self.shoot_timeout = self.shoot_timeout - 1;
            None
        } else if self.shoot_btn {
            let len = joystick_length(input);
            if input.btn_z == 0 {
                self.shoot_timeout = DEFAULT_TIMEOUT;
                self.shoot_btn = false;
                self.use_target = false;
                let location = Vector { x: (self.x - 1) * UNIT, y: (self.y - 1) * UNIT };
                let vx = scaled(LAUNCH_SPEED, input.joy_x, len);
                let vy = scaled(LAUNCH_SPEED, input.joy_y, len);
                proof {
                    let (jx, jy, l) = (input.joy_x as int, input.joy_y as int, len as int);
                    lemma_launch_speed(jx, jy, l);
                }
                Some((location, Vector { x: vx, y: vy }))
            } else {
                let tx = to_whole_cells(self.x * 1000 + scaled(AIM_DISTANCE, input.joy_x, len));
                let ty = to_whole_cells(self.y * 1000 + scaled(AIM_DISTANCE, input.joy_y, len));
                if 0 < tx && tx < (BOARD_WIDTH - 1) as i64 && 0 < ty && ty < (BOARD_WIDTH - 1) as i64 {
                    self.target_x = tx as usize;
                    self.target_y = ty as usize;
                    self.use_target = true;
                }
                None
            }
        } else if input.btn_z == 1 {
            self.shoot_btn = true;
            None
        } else {
            let dx = joystick_step(input.joy_x);
            let dy = joystick_step(input.joy_y);
            if dx != 0 || dy != 0 {
                if 0 < self.x + dx && self.x + dx < (BOARD_WIDTH - 1) as i64 {
                    self.x = self.x + dx;
                }
                if 0 < self.y + dy && self.y + dy < (BOARD_WIDTH - 1) as i64 {
                    self.y = self.y + dy;
                }
                self.shoot_timeout = DEFAULT_TIMEOUT / 2;
            }
            None
        }
    }
}

/// A launch velocity is never faster than the launch speed.
proof fn lemma_launch_speed(jx: int, jy: int, len: int)
    requires
        -128 <= jx <= 127,
        -128 <= jy <= 127,
        len == floor_sqrt(jx * jx + jy * jy),
        len >= 0,
        len * len <= jx * jx + jy * jy,
        jx * jx + jy * jy < (len + 1) * (len + 1),
    ensures
        speed_ok(Vector { x: along(LAUNCH_SPEED as int, jx, len) as i64, y: along(LAUNCH_SPEED as int, jy, len) as i64 }),
{
    if len > 0 {
        let ax = if jx < 0 { -jx } else { jx };
        let ay = if jy < 0 { -jy } else { jy };
        let qx = ax * LAUNCH_SPEED / len;
        let qy = ay * LAUNCH_SPEED / len;
        let s = LAUNCH_SPEED as int;
        assert(ax * ax == jx * jx) by (nonlinear_arith)
            requires ax == jx || ax == -jx;
        assert(ay * ay == jy * jy) by (nonlinear_arith)
            requires ay == jy || ay == -jy;
        assert(ax <= len && ay <= len) by (nonlinear_arith)
            requires jx * jx + jy * jy < (len + 1) * (len + 1), ax * ax == jx * jx, ay * ay == jy * jy,
                ax >= 0, ay >= 0, len >= 0;
        assert(0 <= qx <= s && 0 <= qy <= s) by (nonlinear_arith)
            requires qx == ax * s / len, qy == ay * s / len, len > 0, 0 <= ax <= len, 0 <= ay <= len, s > 0;
        assert(qx * qx + qy * qy <= sq_int(SPEED_LIMIT as int)) by (nonlinear_arith)
            requires 0 <= qx <= s, 0 <= qy <= s, s == 2000;
        let vx = along(s, jx, len);
        let vy = along(s, jy, len);
        assert(vx == sign_int(jx) * qx);
        assert(vy == sign_int(jy) * qy);
        assert(vx * vx + vy * vy == qx * qx + qy * qy) by (nonlinear_arith)
            requires vx == sign_int(jx) * qx, vy == sign_int(jy) * qy, sign_int(jx) * sign_int(jx) == 1, sign_int(jy) * sign_int(jy) == 1;
        assert(vx == sign_int(jx) * qx);
        assert(vy == sign_int(jy) * qy);
        assert(-s <= vx <= s) by (nonlinear_arith)
            requires vx == sign_int(jx) * qx, sign_int(jx) == 1 || sign_int(jx) == -1, 0 <= qx <= s;
        assert(-s <= vy <= s) by (nonlinear_arith)
            requires vy == sign_int(jy) * qy, sign_int(jy) == 1 || sign_int(jy) == -1, 0 <= qy <= s;
        assert(-s <= vx <= s && -s <= vy <= s);
        let v = Vector { x: vx as i64, y: vy as i64 };
        assert(v.x as int == vx && v.y as int == vy);
        assert(norm_sq(v) == vx * vx + vy * vy);
    } else {
        let v = Vector { x: along(LAUNCH_SPEED as int, jx, len) as i64, y: along(LAUNCH_SPEED as int, jy, len) as i64 };
        assert(v.x == 0 && v.y == 0);
        assert(norm_sq(v) == 0) by (nonlinear_arith)
            requires v.x == 0, v.y == 0, norm_sq(v) == (v.x as int) * (v.x as int) + (v.y as int) * (v.y as int);
    }
}

pub open spec fn sq_int(v: int) -> int {
    v * v
}

/// Length of the joystick offset, rounded down.
fn joystick_length(input: ControllerInput) -> (r: i64)
    ensures
        r == joy_length(input),
        0 <= r <= 182,
        r * r <= input.joy_x * input.joy_x + input.joy_y * input.joy_y,
        input.joy_x * input.joy_x + input.joy_y * input.joy_y < (r + 1) * (r + 1),
{
    let jx = input.joy_x as i64;
    let jy = input.joy_y as i64;
    assert(0 <= jx * jx <= 16384 && 0 <= jy * jy <= 16384) by (nonlinear_arith)
        requires -128 <= jx <= 127, -128 <= jy <= 127;
    let n = (jx * jx + jy * jy) as u128;
    let root = fast_sqrt(n);
    proof {
        lemma_floor_sqrt_unique(n as int, root as int);
        assert(root <= 182) by (nonlinear_arith)
            requires root * root <= n, n <= 32768, root >= 0;
    }
    root as i64
}

/// `amount` scaled by joystick component `j` over length `len`, rounded
/// toward zero.
fn scaled(amount: i64, j: i8, len: i64) -> (r: i64)
    requires
        0 <= amount <= 3000,
        0 <= len <= 182,
    ensures
        r == along(amount as int, j as int, len as int),
        -128 * 3000 <= r <= 128 * 3000,
{
    if len == 0 {
        return 0;
    }
    let magnitude: i64 = if j < 0 { -(j as i64) } else { j as i64 };
    assert(0 <= magnitude * amount <= 128 * 3000) by (nonlinear_arith)
        requires 0 <= magnitude <= 128, 0 <= amount <= 3000;
    let q = magnitude * amount / len;
    assert(q <= 128 * 3000) by (nonlinear_arith)
        requires q == magnitude * amount / (len as int), 0 <= magnitude * amount <= 128 * 3000, len >= 1;
    if j < 0 {
        -q
    } else {
        q
    }
}

/// Thousandths of a cell as whole cells, rounded toward zero.
fn to_whole_cells(m: i64) -> (r: i64)
    requires
        -1_000_000_000 <= m <= 1_000_000_000,
    ensures
        r == whole_cells(m as int),
{
    if m >= 0 {
        m / 1000
    } else {
        -((-m) / 1000)
    }
}

fn joystick_step(j: i8) -> (r: i64)
    ensures
        r == step_dir(j as int),
{
    if j > NUNCHUK_THRES {
        1
    } else if j < -NUNCHUK_THRES {
        -1
    } else {
        0
    }
}

/// The first of the first `MAXIMUM_OBJECTS - 1` slots that is empty or
/// holds a cleared projectile.
pub open spec fn slot_free(objs: Seq<Option<MovingObject>>, i: int) -> bool {
    match objs[i] {
        None => true,
        Some(o) => o.symbol == PROJECTILE_NONE,
    }
}

/// The slot a new projectile takes: the first free one among the first
/// `MAXIMUM_OBJECTS - 1`.
pub fn free_slot(objects: &Vec<Option<MovingObject>>) -> (r: Option<usize>)
    requires
        objects@.len() == MAXIMUM_OBJECTS,
    ensures
        r matches Some(i) ==> i < MAXIMUM_OBJECTS - 1 && slot_free(objects@, i as int)
            && forall|j: int| 0 <= j < i ==> !slot_free(objects@, j),
        r is None ==> forall|j: int| 0 <= j < MAXIMUM_OBJECTS - 1 ==> !slot_free(objects@, j),
{
    let mut ii: usize = 0;
    while ii < MAXIMUM_OBJECTS - 1
        invariant
            ii <= MAXIMUM_OBJECTS - 1,
            objects@.len() == MAXIMUM_OBJECTS,
            forall|j: int| 0 <= j < ii ==> !slot_free(objects@, j),
        decreases MAXIMUM_OBJECTS - 1 - ii,
    {
        let free = match &objects[ii] {
            None => true,
            Some(o) => o.symbol == PROJECTILE_NONE,
        };
        if free {
            return Some(ii);
        }
        ii = ii + 1;
    }
    None
}

/// Puts a projectile of player `player` (0 or 1) in the first free slot,
/// raising the count of used slots to cover it. Returns the slot, or `None`
/// when every slot is taken.
pub fn spawn_projectile(objects: &mut Vec<Option<MovingObject>>, number_of_objects: &mut usize, player: usize, location: Vector, velocity: Vector) -> (r: Option<usize>)
    requires
        old(objects)@.len() == MAXIMUM_OBJECTS,
        speed_ok(velocity),
    ensures
        final(objects)@.len() == MAXIMUM_OBJECTS,
        match r {
            None => {
                &&& final(objects)@ == old(objects)@
                &&& *final(number_of_objects) == *old(number_of_objects)
                &&& forall|j: int| 0 <= j < MAXIMUM_OBJECTS - 1 ==> !slot_free(old(objects)@, j)
            },
            Some(i) => {
                &&& i < MAXIMUM_OBJECTS - 1
                &&& slot_free(old(objects)@, i as int)
                &&& forall|j: int| 0 <= j < i ==> !slot_free(old(objects)@, j)
                &&& final(objects)@[i as int] matches Some(o) && o.location == location && o.velocity == velocity
                    && o.symbol == (if player == 1 { PROJECTILE_P2 } else { PROJECTILE_P1 }) && o.age == 0 && o.wf()
                &&& forall|j: int| 0 <= j < MAXIMUM_OBJECTS && j != i ==> final(objects)@[j] == old(objects)@[j]
                &&& *final(number_of_objects) == if i + 1 > *old(number_of_objects) { i + 1 } else { *old(number_of_objects) as int }
            },
        },
{
    match free_slot(objects) {
        None => None,
        Some(ii) => {
            let symbol = if player == 1 { PROJECTILE_P2 } else { PROJECTILE_P1 };
            let object = MovingObject::new(location, velocity, symbol);
            objects.set(ii, Some(object));
            if ii + 1 > *number_of_objects {
                *number_of_objects = ii + 1;
            }
            Some(ii)
        },
    }
}

/// Column `x`, row `y` lies inside the border and within two cells of
/// (`px`, `py`) along each axis.
pub open spec fn in_blast(x: int, y: int, px: int, py: int) -> bool {
    &&& 0 < x < BOARD_WIDTH - 1
    &&& 0 < y < BOARD_WIDTH - 1
    &&& px - 2 <= x <= px + 2
    &&& py - 2 <= y <= py + 2
}

/// Paints the cells of the blast around (`px`, `py`) in `color`, in the
/// grid and on the strip.
pub fn explode(gameboard: &mut Gameboard, px: usize, py: usize, color: RGB)
    requires
        old(gameboard).wf(),
    ensures
        final(gameboard).wf(),
        final(gameboard).ws.clock_speed == old(gameboard).ws.clock_speed,
        forall|x: int, y: int| 0 <= x < WIDTH && 0 <= y < HEIGHT ==> #[trigger] final(gameboard).color(x, y)
            == if in_blast(x, y, px as int, py as int) { color } else { old(gameboard).color(x, y) },
        forall|x: int, y: int| 0 <= x < WIDTH && 0 <= y < HEIGHT ==> final(gameboard).ws.data_buffer@[#[trigger] strip_index(x, y)]
            == if in_blast(x, y, px as int, py as int) { color } else { old(gameboard).ws.data_buffer@[strip_index(x, y)] },
{
    let x0: usize = if px >= 2 { px - 2 } else { 0 };
    let y0: usize = if py >= 2 { py - 2 } else { 0 };
    let x1: usize = if px <= 12 { px + 2 } else { 14 };
    let y1: usize = if py <= 12 { py + 2 } else { 14 };
    let mut x: usize = x0;
    while x <= x1
        invariant
            x0 <= x,
            x <= x1 + 1 || x == x0,
            x1 <= 14,
            x0 == if px >= 2 { px - 2 } else { 0 },
            y0 == if py >= 2 { py - 2 } else { 0 },
            x1 == if px <= 12 { px + 2 } else { 14 },
            y1 == if py <= 12 { py + 2 } else { 14 },
            gameboard.wf(),
            gameboard.ws.clock_speed == old(gameboard).ws.clock_speed,
            forall|a: int, b: int| 0 <= a < WIDTH && 0 <= b < HEIGHT ==> #[trigger] gameboard.color(a, b)
                == if in_blast(a, b, px as int, py as int) && a < x { color } else { old(gameboard).color(a, b) },
            forall|a: int, b: int| 0 <= a < WIDTH && 0 <= b < HEIGHT ==> gameboard.ws.data_buffer@[#[trigger] strip_index(a, b)]
                == if in_blast(a, b, px as int, py as int) && a < x { color } else { old(gameboard).ws.data_buffer@[strip_index(a, b)] },
        decreases x1 + 1 - x,
    {
        let mut y: usize = y0;
        while y <= y1
            invariant
                x0 <= x <= x1,
                y0 <= y,
                y <= y1 + 1 || y == y0,
                x1 <= 14,
                y1 <= 14,
                x0 == if px >= 2 { px - 2 } else { 0 },
                y0 == if py >= 2 { py - 2 } else { 0 },
                x1 == if px <= 12 { px + 2 } else { 14 },
                y1 == if py <= 12 { py + 2 } else { 14 },
                gameboard.wf(),
                gameboard.ws.clock_speed == old(gameboard).ws.clock_speed,
                forall|a: int, b: int| 0 <= a < WIDTH && 0 <= b < HEIGHT ==> #[trigger] gameboard.color(a, b)
                    == if in_blast(a, b, px as int, py as int) && (a < x || (a == x && b < y)) { color } else { old(gameboard).color(a, b) },
                forall|a: int, b: int| 0 <= a < WIDTH && 0 <= b < HEIGHT ==> gameboard.ws.data_buffer@[#[trigger] strip_index(a, b)]
                    == if in_blast(a, b, px as int, py as int) && (a < x || (a == x && b < y)) { color } else { old(gameboard).ws.data_buffer@[strip_index(a, b)] },
            decreases y1 + 1 - y,
        {
            if x > 0 && x < BOARD_WIDTH - 1 && y > 0 && y < BOARD_WIDTH - 1 {
                let ghost before = *gameboard;
                gameboard.set_color(x, y, color);
                proof {
                    assert forall|a: int, b: int| 0 <= a < WIDTH && 0 <= b < HEIGHT implies
                        gameboard.ws.data_buffer@[#[trigger] strip_index(a, b)] == before.ws.data_buffer@[strip_index(a, b)]
                            || (a == x && b == y) by {
                        lemma_strip_index(a, b, x as int, y as int);
                    }
                    assert forall|a: int, b: int| 0 <= a < WIDTH && 0 <= b < HEIGHT implies
                        #[trigger] gameboard.color(a, b) == before.color(a, b) || (a == x && b == y) by {
                        assert(cell(a, b) == cell(x as int, y as int) ==> a == x && b == y);
                    }
                }
            }
            y = y + 1;
        }
        x = x + 1;
    }
}

/// The board cell, along one axis, that `position` reports for a coordinate.
pub open spec fn shown_cell(p: int) -> int {
    if cell_of(p) <= usize::MAX {
        cell_of(p)
    } else {
        usize::MAX as int
    }
}

/// A projectile explodes once it has stopped or grown too old.
pub open spec fn explodes(o: MovingObject) -> bool {
    !o.is_moving() || o.age > EXPLODE_AGE
}

/// A projectile that goes on is shown when its cell lies on the board.
pub open spec fn shown(o: MovingObject) -> bool {
    let (x, y) = (shown_cell(o.location.x as int), shown_cell(o.location.y as int));
    1 <= x <= BOARD_WIDTH - 1 && 1 <= y <= BOARD_WIDTH - 1
}

/// The colour of the owner of a projectile.
pub open spec fn owner_color(o: MovingObject, c0: RGB, c1: RGB) -> RGB {
    if o.symbol == PROJECTILE_P1 {
        c0
    } else {
        c1
    }
}

/// What becomes of a projectile at the end of a frame: it is gone if it
/// explodes, a frame older if it is shown, unchanged otherwise.
pub open spec fn settled(slot: Option<MovingObject>) -> Option<MovingObject> {
    match slot {
        None => None,
        Some(o) => if explodes(o) {
            None
        } else if shown(o) {
            Some(MovingObject { age: (o.age + 1) as usize, ..o })
        } else {
            Some(o)
        },
    }
}

/// The colour that the explosions among the first `k` slots leave on
/// column `x`, row `y`: the last blast that covers it, or `dflt`.
pub open spec fn blast_paint(objs: Seq<Option<MovingObject>>, k: int, x: int, y: int, c0: RGB, c1: RGB, dflt: RGB) -> RGB
    decreases k,
{
    if k <= 0 {
        dflt
    } else {
        let prev = blast_paint(objs, k - 1, x, y, c0, c1, dflt);
        match objs[k - 1] {
            Some(o) => if explodes(o) && in_blast(x, y, shown_cell(o.location.x as int), shown_cell(o.location.y as int)) {
                owner_color(o, c0, c1)
            } else {
                prev
            },
            None => prev,
        }
    }
}

/// The symbol that the projectiles shown among the first `k` slots leave
/// on board cell `c`: the last one shown there, or `dflt`.
pub open spec fn mark(objs: Seq<Option<MovingObject>>, k: int, c: int, dflt: char) -> char
    decreases k,
{
    if k <= 0 {
        dflt
    } else {
        let prev = mark(objs, k - 1, c, dflt);
        match objs[k - 1] {
            Some(o) => if !explodes(o) && shown(o)
                && c == shown_cell(o.location.x as int) + shown_cell(o.location.y as int) * BOARD_WIDTH {
                o.symbol
            } else {
                prev
            },
            None => prev,
        }
    }
}

/// Ends a frame for the first `number_of_objects` slots: projectiles that
/// stopped or grew too old explode, painting the cells within two of theirs
/// in their owner's colour (`c0` for the first player's, `c1` otherwise) and
/// leaving their slot empty; the others that are on the board leave their
/// symbol on it and grow a frame older.
pub fn retire_objects(
    objects: &mut Vec<Option<MovingObject>>,
    number_of_objects: usize,
    board: &mut Board,
    gameboard: &mut Gameboard,
    c0: RGB,
    c1: RGB,
)
    requires
        number_of_objects <= old(objects)@.len(),
        old(board).wf(),
        old(gameboard).wf(),
    ensures
        final(objects)@.len() == old(objects)@.len(),
        forall|i: int| 0 <= i < old(objects)@.len() ==> #[trigger] final(objects)@[i]
            == if i < number_of_objects { settled(old(objects)@[i]) } else { old(objects)@[i] },
        final(board).wf(),
        forall|c: int| 0 <= c < BOARD_SIZE ==> #[trigger] final(board).cells@[c]
            == mark(old(objects)@, number_of_objects as int, c, old(board).cells@[c]),
        final(gameboard).wf(),
        final(gameboard).ws.clock_speed == old(gameboard).ws.clock_speed,
        forall|x: int, y: int| 0 <= x < WIDTH && 0 <= y < HEIGHT ==> #[trigger] final(gameboard).color(x, y)
            == blast_paint(old(objects)@, number_of_objects as int, x, y, c0, c1, old(gameboard).color(x, y)),
        forall|x: int, y: int| 0 <= x < WIDTH && 0 <= y < HEIGHT ==> final(gameboard).ws.data_buffer@[#[trigger] strip_index(x, y)]
            == blast_paint(old(objects)@, number_of_objects as int, x, y, c0, c1, old(gameboard).ws.data_buffer@[strip_index(x, y)]),
{
    let ghost objs = objects@;
    let ghost cells = board.cells@;
    let ghost gb = *gameboard;
    let mut i: usize = 0;
    while i < number_of_objects
        invariant
            i <= number_of_objects <= objs.len(),
            objects@.len() == objs.len(),
            forall|j: int| 0 <= j < objs.len() ==> #[trigger] objects@[j] == if j < i { settled(objs[j]) } else { objs[j] },
            board.wf(),
            forall|c: int| 0 <= c < BOARD_SIZE ==> #[trigger] board.cells@[c] == mark(objs, i as int, c, cells[c]),
            gameboard.wf(),
            gameboard.ws.clock_speed == gb.ws.clock_speed,
            forall|x: int, y: int| 0 <= x < WIDTH && 0 <= y < HEIGHT ==> #[trigger] gameboard.color(x, y)
                == blast_paint(objs, i as int, x, y, c0, c1, gb.color(x, y)),
            forall|x: int, y: int| 0 <= x < WIDTH && 0 <= y < HEIGHT ==> gameboard.ws.data_buffer@[#[trigger] strip_index(x, y)]
                == blast_paint(objs, i as int, x, y, c0, c1, gb.ws.data_buffer@[strip_index(x, y)]),
        decreases number_of_objects - i,
    {
        match objects[i] {
            None => {},
            Some(o) => {
                let pos = o.position();
                if !o.moving() || o.age > EXPLODE_AGE {
                    let color = if o.symbol == PROJECTILE_P1 { c0 } else { c1 };
                    explode(gameboard, pos.0, pos.1, color);
                    objects.set(i, None);
                } else {
                    if pos.0 < 1 || pos.1 < 1 || pos.0 > BOARD_WIDTH - 1 || pos.1 > BOARD_WIDTH - 1 {
                    } else {
                        board.set(pos.0, pos.1, o.symbol);
                        let mut older = o;
                        older.add_age();
                        objects.set(i, Some(older));
                    }
                }
            },
        }
        i = i + 1;
    }
}

/// The number of cells inside the border, among the first `k` in row
/// order, that show `color`.
pub open spec fn count_color(gameboard: Gameboard, color: RGB, k: int) -> int
    decreases k,
{
    if k <= 0 {
        0
    } else {
        let x = 1 + (k - 1) % 14;
        let y = 1 + (k - 1) / 14;
        count_color(gameboard, color, k - 1) + if gameboard.color(x, y) == color { 1int } else { 0 }
    }
}

/// How many cells inside the border each player's colour covers.
pub fn count_scores(gameboard: &Gameboard, c0: RGB, c1: RGB) -> (r: (u8, u8))
    requires
        gameboard.wf(),
    ensures
        r.0 == count_color(*gameboard, c0, 196),
        r.1 == count_color(*gameboard, c1, 196),
{
    let mut s0: u8 = 0;
    let mut s1: u8 = 0;
    let mut y: usize = 1;
    while y < BOARD_WIDTH - 1
        invariant
            1 <= y <= BOARD_WIDTH - 1,
            gameboard.wf(),
            s0 == count_color(*gameboard, c0, (y - 1) * 14),
            s1 == count_color(*gameboard, c1, (y - 1) * 14),
            s0 <= (y - 1) * 14,
            s1 <= (y - 1) * 14,
        decreases BOARD_WIDTH - 1 - y,
    {
        let mut x: usize = 1;
        while x < BOARD_WIDTH - 1
            invariant
                1 <= y < BOARD_WIDTH - 1,
                1 <= x <= BOARD_WIDTH - 1,
                gameboard.wf(),
                s0 == count_color(*gameboard, c0, (y - 1) * 14 + x - 1),
                s1 == count_color(*gameboard, c1, (y - 1) * 14 + x - 1),
                s0 <= (y - 1) * 14 + x - 1,
                s1 <= (y - 1) * 14 + x - 1,
            decreases BOARD_WIDTH - 1 - x,
        {
            let k = (y - 1) * 14 + x;
            proof {
                lemma_fundamental_div_mod_converse(k - 1, 14, (y - 1) as int, (x - 1) as int);
            }
            let color = gameboard.get_color(x, y);
            if color == c0 {
                s0 = s0 + 1;
            }
            if color == c1 {
                s1 = s1 + 1;
            }
            x = x + 1;
        }
        y = y + 1;
    }
    (s0, s1)
}

/// The colour that wins once the two colours cover every cell inside the
/// border: the one that covers more, or green on a tie. `None` while cells
/// remain.
pub fn winner_color(score: (u8, u8), c0: RGB, c1: RGB) -> (r: Option<RGB>)
    ensures
        r == if score.0 + score.1 != TOTAL_PIXELS {
            None
        } else if score.0 > score.1 {
            Some(c0)
        } else if score.0 < score.1 {
            Some(c1)
        } else {
            Some(RGB { r: 0x00, g: 0x80, b: 0x00 })
        },
{
    if score.0 as u16 + score.1 as u16 != TOTAL_PIXELS as u16 {
        None
    } else if score.0 > score.1 {
        Some(c0)
    } else if score.0 < score.1 {
        Some(c1)
    } else {
        Some(RGB { r: 0x00, g: 0x80, b: 0x00 })
    }
}

/// The colour that the trails of the projectiles among the first `k`
/// slots leave on column `x`, row `y`: that of the last one standing on
/// it, or `dflt`.
pub open spec fn trail_paint(objs: Seq<Option<MovingObject>>, k: int, x: int, y: int, c0: RGB, c1: RGB, dflt: RGB) -> RGB
    decreases k,
{
    if k <= 0 {
        dflt
    } else {
        let prev = trail_paint(objs, k - 1, x, y, c0, c1, dflt);
        match objs[k - 1] {
            Some(o) => if x == shown_cell(o.location.x as int) && y == shown_cell(o.location.y as int) {
                owner_color(o, c0, c1)
            } else {
                prev
            },
            None => prev,
        }
    }
}

/// Paints the cell of each projectile among the first `number_of_objects`
/// slots in its owner's colour (`c0` for the first player's), leaving a
/// trail behind it; cells off the board are skipped.
pub fn paint_trails(objects: &Vec<Option<MovingObject>>, number_of_objects: usize, gameboard: &mut Gameboard, c0: RGB, c1: RGB)
    requires
        number_of_objects <= objects@.len(),
        old(gameboard).wf(),
    ensures
        final(gameboard).wf(),
        final(gameboard).ws.clock_speed == old(gameboard).ws.clock_speed,
        forall|x: int, y: int| 0 <= x < WIDTH && 0 <= y < HEIGHT ==> #[trigger] final(gameboard).color(x, y)
            == trail_paint(objects@, number_of_objects as int, x, y, c0, c1, old(gameboard).color(x, y)),
        forall|x: int, y: int| 0 <= x < WIDTH && 0 <= y < HEIGHT ==> final(gameboard).ws.data_buffer@[#[trigger] strip_index(x, y)]
            == trail_paint(objects@, number_of_objects as int, x, y, c0, c1, old(gameboard).ws.data_buffer@[strip_index(x, y)]),
{
    let ghost gb = *gameboard;
    let mut i: usize = 0;
    while i < number_of_objects
        invariant
            i <= number_of_objects <= objects@.len(),
            gameboard.wf(),
            gameboard.ws.clock_speed == gb.ws.clock_speed,
            forall|x: int, y: int| 0 <= x < WIDTH && 0 <= y < HEIGHT ==> #[trigger] gameboard.color(x, y)
                == trail_paint(objects@, i as int, x, y, c0, c1, gb.color(x, y)),
            forall|x: int, y: int| 0 <= x < WIDTH && 0 <= y < HEIGHT ==> gameboard.ws.data_buffer@[#[trigger] strip_index(x, y)]
                == trail_paint(objects@, i as int, x, y, c0, c1, gb.ws.data_buffer@[strip_index(x, y)]),
        decreases number_of_objects - i,
    {
        match &objects[i] {
            None => {},
            Some(o) => {
                let pos = o.position();
                let color = if o.symbol == PROJECTILE_P1 { c0 } else { c1 };
                let ghost before = *gameboard;
                gameboard.set_color(pos.0, pos.1, color);
                proof {
                    if pos.0 < WIDTH && pos.1 < HEIGHT {
                        assert forall|a: int, b: int| 0 <= a < WIDTH && 0 <= b < HEIGHT implies
                            gameboard.ws.data_buffer@[#[trigger] strip_index(a, b)] == (if a == pos.0 && b == pos.1 { color } else { before.ws.data_buffer@[strip_index(a, b)] }) by {
                            lemma_strip_index(a, b, pos.0 as int, pos.1 as int);
                        }
                        assert forall|a: int, b: int| 0 <= a < WIDTH && 0 <= b < HEIGHT implies
                            #[trigger] gameboard.color(a, b) == (if a == pos.0 && b == pos.1 { color } else { before.color(a, b) }) by {
                            assert(cell(a, b) == cell(pos.0 as int, pos.1 as int) ==> a == pos.0 && b == pos.1);
                        }
                    }
                }
            },
        }
        i = i + 1;
    }
}

/// Column `x`, row `y` lies strictly inside the border of the board.
pub open spec fn is_inside(x: int, y: int) -> bool {
    0 < x < BOARD_WIDTH - 1 && 0 < y < BOARD_WIDTH - 1
}

/// Shows `color` on the strip for the cells inside the border: all of
/// them if `every`, else those that hold a symbol on `board`. The grid stays
/// as it is.
fn light_inside(gameboard: &mut Gameboard, board: &Board, every: bool, color: RGB)
    requires
        old(gameboard).wf(),
        board.wf(),
    ensures
        final(gameboard).wf(),
        final(gameboard).matrix@ == old(gameboard).matrix@,
        final(gameboard).ws.clock_speed == old(gameboard).ws.clock_speed,
        forall|x: int, y: int| 0 <= x < WIDTH && 0 <= y < HEIGHT ==> final(gameboard).ws.data_buffer@[#[trigger] strip_index(x, y)]
            == if is_inside(x, y) && (every || board.cells@[x + y * BOARD_WIDTH] != PROJECTILE_NONE) {
                color
            } else {
                old(gameboard).ws.data_buffer@[strip_index(x, y)]
            },
{
    let ghost gb = *gameboard;
    let mut y: usize = 1;
    while y < BOARD_WIDTH - 1
        invariant
            1 <= y <= BOARD_WIDTH - 1,
            board.wf(),
            gameboard.wf(),
            gameboard.matrix@ == gb.matrix@,
            gameboard.ws.clock_speed == gb.ws.clock_speed,
            forall|a: int, b: int| 0 <= a < WIDTH && 0 <= b < HEIGHT ==> gameboard.ws.data_buffer@[#[trigger] strip_index(a, b)]
                == if is_inside(a, b) && b < y && (every || board.cells@[a + b * BOARD_WIDTH] != PROJECTILE_NONE) {
                    color
                } else {
                    gb.ws.data_buffer@[strip_index(a, b)]
                },
        decreases BOARD_WIDTH - 1 - y,
    {
        let mut x: usize = 1;
        while x < BOARD_WIDTH - 1
            invariant
                1 <= y < BOARD_WIDTH - 1,
                1 <= x <= BOARD_WIDTH - 1,
                board.wf(),
                gameboard.wf(),
                gameboard.matrix@ == gb.matrix@,
                gameboard.ws.clock_speed == gb.ws.clock_speed,
                forall|a: int, b: int| 0 <= a < WIDTH && 0 <= b < HEIGHT ==> gameboard.ws.data_buffer@[#[trigger] strip_index(a, b)]
                    == if is_inside(a, b) && (b < y || (b == y && a < x)) && (every || board.cells@[a + b * BOARD_WIDTH] != PROJECTILE_NONE) {
                        color
                    } else {
                        gb.ws.data_buffer@[strip_index(a, b)]
                    },
            decreases BOARD_WIDTH - 1 - x,
        {
            if every || board.get(x, y) != PROJECTILE_NONE {
                gameboard.set_color_in_buffer(x, y, color);
                proof {
                    assert forall|a: int, b: int| 0 <= a < WIDTH && 0 <= b < HEIGHT implies
                        strip_index(a, b) == strip_index(x as int, y as int) ==> a == x && b == y by {
                        lemma_strip_index(a, b, x as int, y as int);
                    }
                }
            }
            x = x + 1;
        }
        y = y + 1;
    }
}

/// Shows `color` on the strip for every cell inside the border that holds
/// a symbol on the board, leaving the grid as it is.
pub fn mark_occupied(gameboard: &mut Gameboard, board: &Board, color: RGB)
    requires
        old(gameboard).wf(),
        board.wf(),
    ensures
        final(gameboard).wf(),
        final(gameboard).matrix@ == old(gameboard).matrix@,
        final(gameboard).ws.clock_speed == old(gameboard).ws.clock_speed,
        forall|x: int, y: int| 0 <= x < WIDTH && 0 <= y < HEIGHT ==> final(gameboard).ws.data_buffer@[#[trigger] strip_index(x, y)]
            == if is_inside(x, y) && board.cells@[x + y * BOARD_WIDTH] != PROJECTILE_NONE {
                color
            } else {
                old(gameboard).ws.data_buffer@[strip_index(x, y)]
            },
{
    light_inside(gameboard, board, false, color);
}

/// Shows `color` on the strip for every cell inside the border, leaving
/// the grid as it is.
pub fn fill_inside(gameboard: &mut Gameboard, color: RGB)
    requires
        old(gameboard).wf(),
    ensures
        final(gameboard).wf(),
        final(gameboard).matrix@ == old(gameboard).matrix@,
        final(gameboard).ws.clock_speed == old(gameboard).ws.clock_speed,
        forall|x: int, y: int| 0 <= x < WIDTH && 0 <= y < HEIGHT ==> final(gameboard).ws.data_buffer@[#[trigger] strip_index(x, y)]
            == if is_inside(x, y) { color } else { old(gameboard).ws.data_buffer@[strip_index(x, y)] },
{
    let board = Board::new();
    light_inside(gameboard, &board, true, color);
}

} // verus!
