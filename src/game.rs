//! The projectile simulation: objects that move across the board, bounce off
//! its walls, collide with each other and slow down.
//!
//! All quantities are integers in fixed-point units:
//! - a position is measured in `UNIT`ths of a board cell;
//! - time is measured in hundredths of a frame (`TICK` of them make a frame),
//!   which is also the granularity of the sub-steps of a frame;
//! - a velocity is measured in position units per hundredth of a frame, that
//!   is in thousandths of a cell per frame;
//! - a collision time is an exact fraction of hundredths of a frame.
use vstd::prelude::*;

use crate::math::{abs, fast_sqrt, is_floor_sqrt, pow2};
use vstd::arithmetic::div_mod::{lemma_fundamental_div_mod, lemma_fundamental_div_mod_converse, lemma_mod_bound};

verus! {

/// Width and height of the board, in cells.
pub const BOARD_WIDTH: usize = 16;

/// Number of cells of the board.
pub const BOARD_SIZE: usize = 256;

/// Position units per board cell.
pub const UNIT: i64 = 100_000;

/// Extent of the playable interior, `BOARD_WIDTH - 3` cells, in position units.
pub const BOARD_INSIDE: i64 = 1_300_000;

/// Sub-steps per frame: time is counted in hundredths of a frame.
pub const TICK: i64 = 100;

/// Change of speed per frame, in thousandths of a cell per frame, shared
/// between the axes by the object's ratios.
pub const DECELERATION: i64 = -80;

/// The fixed-point one of the deceleration ratios.
pub const RATIO_ONE: i64 = 1_000_000;

/// Capacity of the object table.
pub const MAXIMUM_OBJECTS: usize = 10;

/// Largest speed an object may have, in position units per sub-step.
pub const SPEED_LIMIT: i64 = 65_536;

/// Largest coordinate, in absolute value, of an object handed to a frame.
pub const POSITION_LIMIT: i64 = 0x1_0000_0000;

/// Largest coordinate, in absolute value, that the collision detector accepts.
pub const POSITION_REACH: i64 = 0x4_0000_0000;

/// Distance between the centres of two objects when they touch.
pub const COLLISION_RADIUS: i64 = 100_000;

/// Offset from a position to the board cell that shows it (a cell and a half).
pub const CELL_OFFSET: i64 = 150_000;

/// Collision partner that stands for the left wall.
pub const LEFT_WALL: usize = 127;

/// Collision partner that stands for the right wall.
pub const RIGHT_WALL: usize = 126;

/// Collision partner that stands for the top wall.
pub const TOP_WALL: usize = 125;

/// Collision partner that stands for the bottom wall.
pub const BOTTOM_WALL: usize = 124;

/// A position or a velocity.
#[derive(Debug, Clone, Copy, PartialEq, Eq, Structural)]
pub struct Vector {
    pub x: i64,
    pub y: i64,
}

/// A time as an exact fraction `num / den` of sub-steps; `den` is positive.
/// "No collision" is represented by `-1`.
#[derive(Debug, Clone, Copy, PartialEq, Eq, Structural)]
pub struct CollisionTime {
    pub num: i128,
    pub den: i128,
}

/// A collision found during a sub-step: the object in slot `subject_id`
/// meets the object in slot `other_id`, or the wall that `other_id` names,
/// at `time`.
#[derive(Debug, Clone, Copy, PartialEq, Eq, Structural)]
pub struct Collision {
    pub other_id: usize,
    pub time: CollisionTime,
    pub subject_id: usize,
}

/// A projectile on the board.
#[derive(Debug, Clone, Copy, PartialEq, Eq, Structural)]
pub struct MovingObject {
    pub velocity: Vector,
    pub location: Vector,
    /// How the deceleration is shared between the axes, in `RATIO_ONE`ths.
    pub ratios: Vector,
    /// The owner's mark; `'.'` marks a cleared object.
    pub symbol: char,
    /// Frames survived.
    pub age: usize,
}

pub open spec fn sq(x: int) -> int {
    x * x
}

pub open spec fn abs_int(x: int) -> int {
    if x < 0 {
        -x
    } else {
        x
    }
}

/// Both coordinates lie within `bound` of the origin.
pub open spec fn within(v: Vector, bound: int) -> bool {
    abs_int(v.x as int) <= bound && abs_int(v.y as int) <= bound
}

/// The squared length of a vector.
pub open spec fn norm_sq(v: Vector) -> int {
    sq(v.x as int) + sq(v.y as int)
}

/// A velocity no faster than `SPEED_LIMIT`.
pub open spec fn speed_ok(v: Vector) -> bool {
    norm_sq(v) <= sq(SPEED_LIMIT as int)
}

/// The integer square root, rounded down, of a non-negative number.
pub open spec fn floor_sqrt(n: int) -> int {
    choose|r: int| is_floor_sqrt(n, r)
}

/// The length of a velocity, rounded down.
pub open spec fn speed(v: Vector) -> int {
    floor_sqrt(norm_sq(v))
}

pub open spec fn no_collision() -> CollisionTime {
    CollisionTime { num: -1i128, den: 1i128 }
}

/// The deceleration ratios of a launch velocity: the share of each axis in
/// `|vx| + |vy|`, in `RATIO_ONE`ths, the two summing to `RATIO_ONE`; half
/// each for a velocity of zero.
pub open spec fn launch_ratios(v: Vector) -> Vector {
    let sum = abs_int(v.x as int) + abs_int(v.y as int);
    if sum != 0 {
        let rx = abs_int(v.x as int) * RATIO_ONE / sum;
        Vector { x: rx as i64, y: (RATIO_ONE - rx) as i64 }
    } else {
        Vector { x: (RATIO_ONE / 2) as i64, y: (RATIO_ONE / 2) as i64 }
    }
}

/// The amount by which one axis slows down in a frame.
pub open spec fn decel_step(ratio: int) -> int {
    (0 - DECELERATION) * ratio / (RATIO_ONE as int)
}

/// One velocity component after a frame of deceleration: closer to zero by
/// `decel_step`, never past it.
pub open spec fn decelerate(v: int, ratio: int) -> int {
    if v < 0 {
        if v + decel_step(ratio) < 0 {
            v + decel_step(ratio)
        } else {
            0
        }
    } else {
        if v - decel_step(ratio) > 0 {
            v - decel_step(ratio)
        } else {
            0
        }
    }
}

/// The board cell, along one axis, that shows a coordinate.
pub open spec fn cell_of(p: int) -> int {
    if p + CELL_OFFSET < 0 {
        0
    } else {
        (p + CELL_OFFSET) / (UNIT as int)
    }
}

pub proof fn lemma_speed_ok_axes(v: Vector)
    requires
        speed_ok(v),
    ensures
        within(v, SPEED_LIMIT as int),
{
    let s = SPEED_LIMIT as int;
    let x = v.x as int;
    let y = v.y as int;
    assert(abs_int(x) <= s && abs_int(y) <= s) by (nonlinear_arith)
        requires x * x + y * y <= s * s, s > 0;
}

/// A vector no longer than another along either axis is no longer overall.
pub proof fn lemma_norm_shrinks(a: Vector, b: Vector)
    requires
        abs_int(a.x as int) <= abs_int(b.x as int),
        abs_int(a.y as int) <= abs_int(b.y as int),
    ensures
        norm_sq(a) <= norm_sq(b),
{
    let (ax, ay, bx, by) = (a.x as int, a.y as int, b.x as int, b.y as int);
    assert(ax * ax + ay * ay <= bx * bx + by * by) by (nonlinear_arith)
        requires abs_int(ax) <= abs_int(bx), abs_int(ay) <= abs_int(by);
}

pub proof fn lemma_floor_sqrt_unique(n: int, r: int)
    requires
        is_floor_sqrt(n, r),
    ensures
        floor_sqrt(n) == r,
{
    let s = floor_sqrt(n);
    assert(is_floor_sqrt(n, s));
    if s < r {
        assert((s + 1) * (s + 1) <= r * r) by (nonlinear_arith)
            requires 0 <= s + 1 <= r;
    }
    if r < s {
        assert((r + 1) * (r + 1) <= s * s) by (nonlinear_arith)
            requires 0 <= r + 1 <= s;
    }
}

/// Every object of the table keeps its invariant and lies within `bound`.
pub open spec fn table_ok(objs: Seq<Option<MovingObject>>, bound: int) -> bool {
    forall|j: int| 0 <= j < objs.len() ==> (#[trigger] objs[j] matches Some(o) ==> o.wf() && within(o.location, bound))
}

/// A collision record of object `offset` that falls in `[0, max)`.
pub open spec fn record_ok(c: Collision, offset: int, max: int) -> bool {
    &&& c.subject_id == offset
    &&& time_ok(c.time, max)
}

/// A collision time in `[0, max)`, with a denominator that stays small.
pub open spec fn time_ok(t: CollisionTime, max: int) -> bool {
    &&& 0 < t.den <= 0x100_0000_0000
    &&& 0 <= t.num
    &&& t.num < max * t.den
}

/// `a` of the quadratic in time whose roots are the moments at which two
/// objects are `radius` apart: the squared relative speed.
pub open spec fn quad_a(v1: Vector, v2: Vector) -> int {
    sq(v1.x - v2.x) + sq(v1.y - v2.y)
}

/// `b` of the same quadratic.
pub open spec fn quad_b(start1: Vector, v1: Vector, start2: Vector, v2: Vector) -> int {
    -2 * (v1.x - v2.x) * (start2.x - start1.x) - 2 * (v1.y - v2.y) * (start2.y - start1.y)
}

/// `c` of the same quadratic: squared distance less squared radius.
pub open spec fn quad_c(start1: Vector, start2: Vector, radius: int) -> int {
    sq(start1.x - start2.x) + sq(start1.y - start2.y) - sq(radius)
}

/// The earlier root of `a t^2 + b t + c`, with the square root of the
/// discriminant rounded down; no collision when there is no real root.
pub open spec fn earlier_root(a: int, b: int, c: int) -> CollisionTime {
    let det = b * b - 4 * a * c;
    if det < 0 {
        no_collision()
    } else {
        CollisionTime { num: (-b - floor_sqrt(det)) as i128, den: (2 * a) as i128 }
    }
}

/// The time at which two objects first come within `radius` of each other,
/// when they move at constant velocities; no collision when they do not
/// move relative to each other.
pub open spec fn collision_time(start1: Vector, v1: Vector, start2: Vector, v2: Vector, radius: int) -> CollisionTime {
    let a = quad_a(v1, v2);
    if a == 0 {
        no_collision()
    } else {
        earlier_root(a, quad_b(start1, v1, start2, v2), quad_c(start1, start2, radius))
    }
}

/// The record of a wall that the object reaches at `dist / |vel|`, if a
/// frame at its current velocity would carry it across (`crossed`) and it
/// gets there before `max`.
pub open spec fn wall_entry(crossed: bool, dist: int, vel: int, wall: usize, offset: usize, max: int) -> Seq<Collision> {
    if crossed && vel != 0 && dist < max * abs_int(vel) {
        seq![Collision { other_id: wall, time: CollisionTime { num: dist as i128, den: abs_int(vel) as i128 }, subject_id: offset }]
    } else {
        seq![]
    }
}

/// The walls that object `o`, in slot `offset`, reaches before `max`. Whether
/// a wall is tested depends on where a whole frame would carry the object.
pub open spec fn wall_collisions(o: MovingObject, offset: usize, max: int) -> Seq<Collision> {
    let (x, y, vx, vy) = (o.location.x as int, o.location.y as int, o.velocity.x as int, o.velocity.y as int);
    let nx = x + TICK * vx;
    let ny = y + TICK * vy;
    wall_entry(nx < 0, abs_int(x), vx, LEFT_WALL, offset, max)
        + wall_entry(nx > BOARD_INSIDE, abs_int(BOARD_INSIDE - x), vx, RIGHT_WALL, offset, max)
        + wall_entry(ny < 0, abs_int(y), vy, TOP_WALL, offset, max)
        + wall_entry(ny > BOARD_INSIDE, abs_int(BOARD_INSIDE - y), vy, BOTTOM_WALL, offset, max)
}

/// The collisions of object `o`, in slot `offset`, with the objects in the
/// slots after it and before `end`, in slot order, that fall in `(0, max)`.
/// Two resting objects are not tested.
pub open spec fn pair_collisions(o: MovingObject, others: Seq<Option<MovingObject>>, offset: int, max: int, end: int) -> Seq<Collision>
    decreases end - offset,
{
    if end <= offset + 1 {
        seq![]
    } else {
        let prev = pair_collisions(o, others, offset, max, end - 1);
        let found = if 0 <= end - 1 < others.len() {
            match others[end - 1] {
                None => seq![],
                Some(other) => {
                    let t = collision_time(o.location, o.velocity, other.location, other.velocity, COLLISION_RADIUS as int);
                    if (o.is_moving() || other.is_moving()) && 0 < t.num && t.num < max * t.den {
                        seq![Collision { other_id: (end - 1) as usize, time: t, subject_id: offset as usize }]
                    } else {
                        seq![]
                    }
                },
            }
        } else {
            seq![]
        };
        prev + found
    }
}

/// All collisions of object `o`, in slot `offset`, within `max`: walls
/// first, then later slots.
pub open spec fn collisions_of(o: MovingObject, others: Seq<Option<MovingObject>>, offset: usize, max: int) -> Seq<Collision> {
    wall_collisions(o, offset, max) + pair_collisions(o, others, offset as int, max, others.len() as int)
}

/// The earlier root of `a t^2 + b t + c`, the collision time of two objects
/// on a common course; `-1` when the discriminant is negative.
fn solve_quadratic(a: i128, b: i128, c: i128) -> (r: CollisionTime)
    requires
        0 < a <= 0x100_0000_0000,
        abs_int(b as int) <= 0x1000_0000_0000_0000,
        abs_int(c as int) <= 0x1_0000_0000_0000_0000_0000,
    ensures
        r == earlier_root(a as int, b as int, c as int),
        r.den > 0,
        r.den <= 2 * a,
{
    assert(0 <= b * b <= 0x1000_0000_0000_0000 * 0x1000_0000_0000_0000) by (nonlinear_arith)
        requires abs_int(b as int) <= 0x1000_0000_0000_0000;
    let b_sq = b * b;
    let four_a = 4 * a;
    assert(abs_int(four_a * c) <= 0x400_0000_0000 * 0x1_0000_0000_0000_0000_0000) by (nonlinear_arith)
        requires 0 < four_a <= 0x400_0000_0000, abs_int(c as int) <= 0x1_0000_0000_0000_0000_0000;
    let four_ac = four_a * c;
    let determinant: i128 = b_sq - four_ac;
    if determinant < 0 {
        CollisionTime { num: -1, den: 1 }
    } else {
        let root = fast_sqrt(determinant as u128);
        proof {
            lemma_floor_sqrt_unique(determinant as int, root as int);
            assert(root <= 0x4000_0000_0000_0000) by (nonlinear_arith)
                requires root * root <= determinant,
                    determinant <= 0x1000_0000_0000_0000 * 0x1000_0000_0000_0000 + 0x400_0000_0000 * 0x1_0000_0000_0000_0000_0000,
                    root >= 0;
        }
        CollisionTime { num: -b - root as i128, den: 2 * a }
    }
}

/// The time at which two objects, moving at constant velocities from
/// `start1` and `start2`, first come `radius` apart.
fn find_collision_times(start1: Vector, v1: Vector, start2: Vector, v2: Vector, radius: i64) -> (r: CollisionTime)
    requires
        within(start1, POSITION_REACH as int),
        within(start2, POSITION_REACH as int),
        within(v1, SPEED_LIMIT as int),
        within(v2, SPEED_LIMIT as int),
        0 <= radius <= POSITION_REACH,
    ensures
        r == collision_time(start1, v1, start2, v2, radius as int),
        0 < r.den <= 0x100_0000_0000,
{
    let dvx = v1.x - v2.x;
    let dvy = v1.y - v2.y;
    let dx = start1.x - start2.x;
    let dy = start1.y - start2.y;
    let ax = pow2(dvx);
    let ay = pow2(dvy);
    assert(0 <= ax <= 0x2_0000 * 0x2_0000 && 0 <= ay <= 0x2_0000 * 0x2_0000) by (nonlinear_arith)
        requires ax == dvx * dvx, ay == dvy * dvy, abs_int(dvx as int) <= 0x2_0000, abs_int(dvy as int) <= 0x2_0000;
    let a: i128 = ax + ay;
    let ex = -2 * (dvx as i128);
    let ey = -2 * (dvy as i128);
    let gx = start2.x as i128 - start1.x as i128;
    let gy = start2.y as i128 - start1.y as i128;
    assert(abs_int(ex * gx) <= 0x4_0000 * 0x8_0000_0000 && abs_int(ey * gy) <= 0x4_0000 * 0x8_0000_0000) by (nonlinear_arith)
        requires abs_int(ex as int) <= 0x4_0000, abs_int(ey as int) <= 0x4_0000,
            abs_int(gx as int) <= 0x8_0000_0000, abs_int(gy as int) <= 0x8_0000_0000;
    let b: i128 = ex * gx + ey * gy;
    assert(b == quad_b(start1, v1, start2, v2)) by (nonlinear_arith)
        requires b == ex * gx + ey * gy, ex == -2 * (v1.x - v2.x), ey == -2 * (v1.y - v2.y),
            gx == start2.x - start1.x, gy == start2.y - start1.y;
    let cx = pow2(dx);
    let cy = pow2(dy);
    let cr = pow2(radius);
    assert(0 <= cx <= 0x8_0000_0000 * 0x8_0000_0000 && 0 <= cy <= 0x8_0000_0000 * 0x8_0000_0000
        && 0 <= cr <= 0x4_0000_0000 * 0x4_0000_0000)
        by (nonlinear_arith)
        requires cx == dx * dx, cy == dy * dy, cr == radius * radius,
            abs_int(dx as int) <= 0x8_0000_0000, abs_int(dy as int) <= 0x8_0000_0000, 0 <= radius <= 0x4_0000_0000;
    let c: i128 = cx + cy - cr;
    if a == 0 {
        // No relative velocity: `b` is zero as well and the distance never changes.
        return CollisionTime { num: -1, den: 1 };
    }
    solve_quadratic(a, b, c)
}

/// Appends the record of a wall that the object reaches at `dist / |vel|`,
/// if it is to be tested (`crossed`) and is reached before `max`.
fn push_wall(out: &mut Vec<Collision>, crossed: bool, dist: u64, vel: i64, wall: usize, offset: usize, max: i64)
    requires
        abs_int(vel as int) <= SPEED_LIMIT,
        dist <= 0x10_0000_0000,
        0 < max <= TICK,
    ensures
        final(out)@ == old(out)@ + wall_entry(crossed, dist as int, vel as int, wall, offset, max as int),
{
    let speed = abs(vel);
    assert(max * speed <= TICK * SPEED_LIMIT) by (nonlinear_arith)
        requires 0 < max <= TICK, speed <= SPEED_LIMIT;
    if crossed && vel != 0 && (dist as i128) < (max as i128) * (speed as i128) {
        out.push(Collision { other_id: wall, time: CollisionTime { num: dist as i128, den: speed as i128 }, subject_id: offset });
        assert(final(out)@ =~= old(out)@ + wall_entry(crossed, dist as int, vel as int, wall, offset, max as int));
    } else {
        assert(final(out)@ =~= old(out)@ + wall_entry(crossed, dist as int, vel as int, wall, offset, max as int));
    }
}

impl MovingObject {
    /// The invariant of an object: its ratios are non-negative and sum to
    /// `RATIO_ONE`, and its speed is within `SPEED_LIMIT`.
    pub open spec fn wf(&self) -> bool {
        &&& self.ratios.x >= 0
        &&& self.ratios.y >= 0
        &&& self.ratios.x + self.ratios.y == RATIO_ONE
        &&& speed_ok(self.velocity)
    }

    pub open spec fn is_moving(&self) -> bool {
        self.velocity.x != 0 || self.velocity.y != 0
    }

    /// What `tick` makes of the object.
    pub open spec fn ticked(self, time: int, last: bool, collision_velocity: Option<Vector>) -> MovingObject {
        if !self.is_moving() {
            self
        } else {
            let v = match collision_velocity {
                Some(c) => c,
                None => self.velocity,
            };
            MovingObject {
                location: Vector {
                    x: (self.location.x + self.velocity.x * time) as i64,
                    y: (self.location.y + self.velocity.y * time) as i64,
                },
                velocity: if last {
                    Vector {
                        x: decelerate(v.x as int, self.ratios.x as int) as i64,
                        y: decelerate(v.y as int, self.ratios.y as int) as i64,
                    }
                } else {
                    v
                },
                ratios: self.ratios,
                symbol: self.symbol,
                age: self.age,
            }
        }
    }

    /// A new object at `starting_location` that moves with
    /// `starting_velocity`; its ratios come from the launch direction.
    pub fn new(starting_location: Vector, starting_velocity: Vector, symbol: char) -> (r: MovingObject)
        requires
            speed_ok(starting_velocity),
        ensures
            r.location == starting_location,
            r.velocity == starting_velocity,
            r.ratios == launch_ratios(starting_velocity),
            r.symbol == symbol,
            r.age == 0,
            r.wf(),
    {
        proof {
            lemma_speed_ok_axes(starting_velocity);
        }
        let ax = abs(starting_velocity.x);
        let ay = abs(starting_velocity.y);
        let sum = ax + ay;
        let ratios = if sum != 0 {
            assert(ax * (RATIO_ONE as int) <= sum * (RATIO_ONE as int)) by (nonlinear_arith)
                requires ax <= sum;
            let rx = ax * (RATIO_ONE as u64) / sum;
            assert(rx <= RATIO_ONE) by (nonlinear_arith)
                requires rx == ax * (RATIO_ONE as int) / (sum as int), ax * (RATIO_ONE as int) <= sum * (RATIO_ONE as int), sum > 0;
            Vector { x: rx as i64, y: RATIO_ONE - rx as i64 }
        } else {
            Vector { x: RATIO_ONE / 2, y: RATIO_ONE / 2 }
        };
        MovingObject { velocity: starting_velocity, location: starting_location, ratios, symbol, age: 0 }
    }

    /// Advances the object by `time` sub-steps at its current velocity, then
    /// takes `collision_velocity` as its new velocity if one is given, and,
    /// on the last sub-step of a frame, slows it down. A resting object does
    /// not change.
    pub fn tick(&mut self, time: i64, last: bool, collision_velocity: Option<Vector>)
        requires
            old(self).wf(),
            within(old(self).location, POSITION_REACH as int),
            0 <= time <= TICK,
            collision_velocity matches Some(c) ==> speed_ok(c),
        ensures
            *final(self) == old(self).ticked(time as int, last, collision_velocity),
            final(self).wf(),
            abs_int(final(self).location.x as int) <= abs_int(old(self).location.x as int) + SPEED_LIMIT * time,
            abs_int(final(self).location.y as int) <= abs_int(old(self).location.y as int) + SPEED_LIMIT * time,
    {
        if !self.moving() {
            return;
        }
        proof {
            lemma_speed_ok_axes(self.velocity);
            let s = SPEED_LIMIT as int;
            let t = time as int;
            assert(abs_int(self.velocity.x * t) <= s * t && abs_int(self.velocity.y * t) <= s * t) by (nonlinear_arith)
                requires abs_int(self.velocity.x as int) <= s, abs_int(self.velocity.y as int) <= s, 0 <= t;
        }
        self.location = Vector {
            x: self.location.x + self.velocity.x * time,
            y: self.location.y + self.velocity.y * time,
        };
        match collision_velocity {
            Some(v) => self.velocity = v,
            None => (),
        }
        if last {
            let vx = decelerate_component(self.velocity.x, self.ratios.x);
            let vy = decelerate_component(self.velocity.y, self.ratios.y);
            proof {
                lemma_norm_shrinks(Vector { x: vx, y: vy }, self.velocity);
            }
            self.velocity = Vector { x: vx, y: vy };
        }
    }

    /// Every collision of this object, in slot `offset` of `others`, that
    /// happens within `max_duration`: the walls it reaches, then the objects
    /// in later slots that it meets.
    pub fn get_collisions(&self, others: &Vec<Option<MovingObject>>, offset: usize, max_duration: i64) -> (r: Vec<Collision>)
        requires
            self.wf(),
            within(self.location, POSITION_REACH as int),
            others@.len() == MAXIMUM_OBJECTS,
            table_ok(others@, POSITION_REACH as int),
            0 < max_duration <= TICK,
        ensures
            r@ == collisions_of(*self, others@, offset, max_duration as int),
            forall|k: int| 0 <= k < r@.len() ==> record_ok(#[trigger] r@[k], offset as int, max_duration as int),
    {
        proof {
            lemma_speed_ok_axes(self.velocity);
        }
        let loc = self.location;
        let vel = self.velocity;
        let new_x = loc.x + TICK * vel.x;
        let new_y = loc.y + TICK * vel.y;
        let mut collisions: Vec<Collision> = Vec::new();
        push_wall(&mut collisions, new_x < 0, abs(loc.x), vel.x, LEFT_WALL, offset, max_duration);
        push_wall(&mut collisions, new_x > BOARD_INSIDE, abs(BOARD_INSIDE - loc.x), vel.x, RIGHT_WALL, offset, max_duration);
        push_wall(&mut collisions, new_y < 0, abs(loc.y), vel.y, TOP_WALL, offset, max_duration);
        push_wall(&mut collisions, new_y > BOARD_INSIDE, abs(BOARD_INSIDE - loc.y), vel.y, BOTTOM_WALL, offset, max_duration);
        assert(collisions@ =~= wall_collisions(*self, offset, max_duration as int));
        let ghost walls = collisions@;
        if offset >= others.len() {
            assert(collisions@ =~= collisions_of(*self, others@, offset, max_duration as int)) by {
                assert(pair_collisions(*self, others@, offset as int, max_duration as int, others@.len() as int) == Seq::<Collision>::empty());
            }
            return collisions;
        }
        let mut i: usize = offset + 1;
        assert(pair_collisions(*self, others@, offset as int, max_duration as int, i as int) == Seq::<Collision>::empty());
        assert(collisions@ =~= walls + pair_collisions(*self, others@, offset as int, max_duration as int, i as int));
        while i < others.len()
            invariant
                offset < i <= others.len(),
                self.wf(),
                within(self.location, POSITION_REACH as int),
                table_ok(others@, POSITION_REACH as int),
                0 < max_duration <= TICK,
                within(self.velocity, SPEED_LIMIT as int),
                loc == self.location,
                vel == self.velocity,
                collisions@ == walls + pair_collisions(*self, others@, offset as int, max_duration as int, i as int),
                forall|k: int| 0 <= k < collisions@.len() ==> record_ok(#[trigger] collisions@[k], offset as int, max_duration as int),
            decreases others.len() - i,
        {
            match &others[i] {
                None => {},
                Some(other) => {
                    if self.moving() || other.moving() {
                        proof {
                            assert(others@[i as int] matches Some(o) ==> o.wf() && within(o.location, POSITION_REACH as int));
                            lemma_speed_ok_axes(other.velocity);
                        }
                        let t = find_collision_times(loc, vel, other.location, other.velocity, COLLISION_RADIUS);
                        assert(max_duration * t.den <= TICK * 0x100_0000_0000) by (nonlinear_arith)
                            requires 0 < max_duration <= TICK, 0 < t.den <= 0x100_0000_0000;
                        if 0 < t.num && t.num < (max_duration as i128) * t.den {
                            collisions.push(Collision { other_id: i, time: t, subject_id: offset });
                        }
                    }
                },
            }
            assert(collisions@ =~= walls + pair_collisions(*self, others@, offset as int, max_duration as int, i + 1));
            i = i + 1;
        }
        collisions
    }

    /// The board cell that shows the object.
    pub fn position(&self) -> (r: (usize, usize))
        ensures
            r.0 as int == if cell_of(self.location.x as int) <= usize::MAX { cell_of(self.location.x as int) } else { usize::MAX as int },
            r.1 as int == if cell_of(self.location.y as int) <= usize::MAX { cell_of(self.location.y as int) } else { usize::MAX as int },
    {
        (board_cell(self.location.x), board_cell(self.location.y))
    }

    /// Whether the object has any velocity.
    pub fn moving(&self) -> (r: bool)
        ensures
            r == self.is_moving(),
    {
        self.velocity.x != 0 || self.velocity.y != 0
    }

    /// Marks the object as cleared.
    pub fn clear_symbol(&mut self)
        ensures
            *final(self) == (MovingObject { symbol: '.', ..*old(self) }),
    {
        self.symbol = '.';
    }

    /// Counts one more frame survived.
    pub fn add_age(&mut self)
        requires
            old(self).age < usize::MAX,
        ensures
            *final(self) == (MovingObject { age: (old(self).age + 1) as usize, ..*old(self) }),
    {
        self.age = self.age + 1;
    }

    /// Frames survived.
    pub fn get_age(&self) -> (r: usize)
        ensures
            r == self.age,
    {
        self.age
    }
}

/// One velocity component after a frame of deceleration.
fn decelerate_component(v: i64, ratio: i64) -> (r: i64)
    requires
        0 <= ratio <= RATIO_ONE,
    ensures
        r == decelerate(v as int, ratio as int),
        abs_int(r as int) <= abs_int(v as int),
{
    let step = (0 - DECELERATION) * ratio / RATIO_ONE;
    assert(0 <= step <= 80) by (nonlinear_arith)
        requires step == 80 * ratio / 1_000_000, 0 <= ratio <= 1_000_000;
    if v < 0 {
        if v + step < 0 {
            v + step
        } else {
            0
        }
    } else {
        if v - step > 0 {
            v - step
        } else {
            0
        }
    }
}

/// The board cell, along one axis, that shows coordinate `p`.
fn board_cell(p: i64) -> (r: usize)
    ensures
        r as int == if cell_of(p as int) <= usize::MAX { cell_of(p as int) } else { usize::MAX as int },
{
    let shifted = p as i128 + CELL_OFFSET as i128;
    if shifted < 0 {
        0
    } else {
        let c = shifted / UNIT as i128;
        if c > usize::MAX as i128 {
            usize::MAX
        } else {
            c as usize
        }
    }
}

/// The shared board of symbols, `BOARD_WIDTH` by `BOARD_WIDTH`, row after row.
pub struct Board {
    pub cells: Vec<char>,
}

impl Board {
    pub open spec fn wf(&self) -> bool {
        self.cells@.len() == BOARD_SIZE
    }

    /// A board with every cell set to `'X'`.
    pub fn new() -> (r: Board)
        ensures
            r.wf(),
            forall|i: int| 0 <= i < BOARD_SIZE ==> r.cells@[i] == 'X',
    {
        let mut cells: Vec<char> = Vec::new();
        let mut i: usize = 0;
        while i < BOARD_SIZE
            invariant
                i <= BOARD_SIZE,
                cells@.len() == i,
                forall|j: int| 0 <= j < i ==> cells@[j] == 'X',
            decreases BOARD_SIZE - i,
        {
            cells.push('X');
            i = i + 1;
        }
        Board { cells }
    }

    /// The symbol in column `x` of row `y`.
    pub fn get(&self, x: usize, y: usize) -> (r: char)
        requires
            self.wf(),
            x < BOARD_WIDTH,
            y < BOARD_WIDTH,
        ensures
            r == self.cells@[x + y * BOARD_WIDTH],
    {
        self.cells[x + y * BOARD_WIDTH]
    }

    /// Puts `symbol` in column `x` of row `y`.
    pub fn set(&mut self, x: usize, y: usize, symbol: char)
        requires
            old(self).wf(),
            x < BOARD_WIDTH,
            y < BOARD_WIDTH,
        ensures
            final(self).cells@ == old(self).cells@.update(x + y * BOARD_WIDTH, symbol),
            final(self).wf(),
    {
        self.cells[x + y * BOARD_WIDTH] = symbol;
    }
}

/// A cell strictly inside the border of the board.
pub open spec fn is_inner_cell(i: int) -> bool {
    let (x, y) = (i % BOARD_WIDTH as int, i / BOARD_WIDTH as int);
    1 <= x < BOARD_WIDTH - 1 && 1 <= y < BOARD_WIDTH - 1
}

/// Marks every cell inside the border as empty (`'.'`); the border keeps
/// its symbols.
pub fn clear_board(board: &mut Board)
    requires
        old(board).wf(),
    ensures
        final(board).wf(),
        forall|i: int| 0 <= i < BOARD_SIZE ==> #[trigger] final(board).cells@[i] == if is_inner_cell(i) { '.' } else { old(board).cells@[i] },
{
    let mut y: usize = 1;
    while y < BOARD_WIDTH - 1
        invariant
            1 <= y <= BOARD_WIDTH - 1,
            board.wf(),
            forall|i: int| 0 <= i < BOARD_SIZE ==> #[trigger] board.cells@[i] == if is_inner_cell(i) && i / (BOARD_WIDTH as int) < y { '.' } else { old(board).cells@[i] },
        decreases BOARD_WIDTH - 1 - y,
    {
        let mut x: usize = 1;
        while x < BOARD_WIDTH - 1
            invariant
                1 <= y < BOARD_WIDTH - 1,
                1 <= x <= BOARD_WIDTH - 1,
                board.wf(),
                forall|i: int| 0 <= i < BOARD_SIZE ==> #[trigger] board.cells@[i] == if is_inner_cell(i) && (i / (BOARD_WIDTH as int) < y || (i / (BOARD_WIDTH as int) == y && i % (BOARD_WIDTH as int) < x)) { '.' } else { old(board).cells@[i] },
            decreases BOARD_WIDTH - 1 - x,
        {
            board.cells[x + y * BOARD_WIDTH] = '.';
            x = x + 1;
        }
        y = y + 1;
    }
}

/// The text of the board: each row's symbols, each followed by a space,
/// and a line break after each row.
pub open spec fn board_text(cells: Seq<char>) -> Seq<char> {
    Seq::new((BOARD_SIZE * 2 + BOARD_WIDTH) as nat, |k: int| {
        let row = k / (BOARD_WIDTH * 2 + 1) as int;
        let col = k % (BOARD_WIDTH * 2 + 1) as int;
        if col == BOARD_WIDTH * 2 {
            '\n'
        } else if col % 2 == 1 {
            ' '
        } else {
            cells[row * BOARD_WIDTH + col / 2]
        }
    })
}

/// The board as text, ready to be printed.
pub fn print_board(board: &Board) -> (r: Vec<char>)
    requires
        board.wf(),
    ensures
        r@ == board_text(board.cells@),
{
    let mut out: Vec<char> = Vec::new();
    let mut y: usize = 0;
    while y < BOARD_WIDTH
        invariant
            y <= BOARD_WIDTH,
            board.wf(),
            out@ =~= board_text(board.cells@).subrange(0, y * (BOARD_WIDTH * 2 + 1)),
        decreases BOARD_WIDTH - y,
    {
        let mut x: usize = 0;
        while x < BOARD_WIDTH
            invariant
                y < BOARD_WIDTH,
                x <= BOARD_WIDTH,
                board.wf(),
                out@ =~= board_text(board.cells@).subrange(0, y * (BOARD_WIDTH * 2 + 1) + 2 * x),
            decreases BOARD_WIDTH - x,
        {
            proof {
                let w: int = 33;
                lemma_fundamental_div_mod_converse(y * w + 2 * x, w, y as int, 2 * x);
                lemma_fundamental_div_mod_converse(y * w + 2 * x + 1, w, y as int, 2 * x + 1);
                assert((2 * x) % 2 == 0 && (2 * x) / 2 == x && (2 * x + 1) % 2 == 1) by (nonlinear_arith);
                assert(board_text(board.cells@)[y * w + 2 * x] == board.cells@[x + y * BOARD_WIDTH]);
                assert(board_text(board.cells@)[y * w + 2 * x + 1] == ' ');
            }
            out.push(board.cells[x + y * BOARD_WIDTH]);
            out.push(' ');
            x = x + 1;
        }
        proof {
            let w: int = 33;
            lemma_fundamental_div_mod_converse(y * w + 2 * BOARD_WIDTH, w, y as int, 2 * BOARD_WIDTH);
            assert(board_text(board.cells@)[y * w + 2 * BOARD_WIDTH] == '\n');
        }
        out.push('\n');
        y = y + 1;
    }
    assert(y == 16);
    assert(y * (BOARD_WIDTH * 2 + 1) == 528);
    assert(board_text(board.cells@).len() == 528);
    assert(out@ =~= board_text(board.cells@).subrange(0, 528));
    assert(out@ =~= board_text(board.cells@));
    out
}

/// The collisions of every live object among the first `n` slots within
/// `remaining`, slot by slot.
pub open spec fn all_collisions(objs: Seq<Option<MovingObject>>, n: int, remaining: int) -> Seq<Collision>
    decreases n,
{
    if n <= 0 {
        seq![]
    } else {
        let own = if n - 1 < objs.len() {
            match objs[n - 1] {
                None => seq![],
                Some(o) => collisions_of(o, objs, (n - 1) as usize, remaining),
            }
        } else {
            seq![]
        };
        all_collisions(objs, n - 1, remaining) + own
    }
}

/// A collision time rounded up to a whole number of sub-steps.
pub open spec fn ceil_time(t: CollisionTime) -> int {
    (t.num + t.den - 1) / (t.den as int)
}

/// The least of the first `k` collision times rounded up to whole
/// sub-steps, or a whole frame if there are none.
pub open spec fn min_ceil(cs: Seq<Collision>, k: int) -> int
    decreases k,
{
    if k <= 0 {
        TICK as int
    } else {
        let m = min_ceil(cs, k - 1);
        let c = ceil_time(cs[k - 1].time);
        if c < m {
            c
        } else {
            m
        }
    }
}

/// The length of a sub-step: the earliest collision time rounded up to a
/// whole sub-step (a time that falls on one stays as it is), but at least
/// one sub-step; or what is left of the frame if there is no collision.
pub open spec fn substep_length(cs: Seq<Collision>, remaining: int) -> int {
    if cs.len() == 0 {
        remaining
    } else if min_ceil(cs, cs.len() as int) < 1 {
        1
    } else {
        min_ceil(cs, cs.len() as int)
    }
}

/// The first `k` collisions that happen no later than `limit`, in order.
pub open spec fn used_collisions(cs: Seq<Collision>, limit: int, k: int) -> Seq<Collision>
    decreases k,
{
    if k <= 0 {
        seq![]
    } else {
        let keep = if cs[k - 1].time.num <= limit * cs[k - 1].time.den {
            seq![cs[k - 1]]
        } else {
            seq![]
        };
        used_collisions(cs, limit, k - 1) + keep
    }
}

pub open spec fn sign_of(v: int) -> int {
    if v < 0 {
        -1
    } else {
        1
    }
}

/// The part of `total` that a ratio gives to one axis.
pub open spec fn share(total: int, ratio: int) -> int {
    total * ratio / (RATIO_ONE as int)
}

/// A velocity of length `total` shared between the axes by `ratios`, each
/// axis pointing the way `dir` points along it.
pub open spec fn redirected(total: int, ratios: Vector, dir: Vector) -> Vector {
    Vector {
        x: (share(total, ratios.x as int) * sign_of(dir.x as int)) as i64,
        y: (share(total, ratios.y as int) * sign_of(dir.y as int)) as i64,
    }
}

pub open spec fn negated(v: Vector) -> Vector {
    Vector { x: -v.x as i64, y: -v.y as i64 }
}

/// The pending velocities after collision `c` is resolved against the
/// objects as they were at the start of the sub-step. A wall reflects one
/// component. Two moving objects both take the average of their speeds: each
/// follows the other's ratios, in the direction the other was going. When
/// only one of them moves, it turns back.
pub open spec fn apply_collision(ov: Seq<Option<Vector>>, c: Collision, objs: Seq<Option<MovingObject>>) -> Seq<Option<Vector>> {
    let f = c.subject_id as int;
    let g = c.other_id as int;
    if f >= objs.len() || f >= ov.len() {
        ov
    } else {
        match objs[f] {
            None => ov,
            Some(first) => {
                let v = first.velocity;
                if c.other_id == RIGHT_WALL || c.other_id == LEFT_WALL {
                    ov.update(f, Some(Vector { x: -v.x as i64, y: v.y }))
                } else if c.other_id == TOP_WALL || c.other_id == BOTTOM_WALL {
                    ov.update(f, Some(Vector { x: v.x, y: -v.y as i64 }))
                } else if g >= objs.len() || g >= ov.len() {
                    ov
                } else {
                    match objs[g] {
                        None => ov,
                        Some(other) => {
                            if other.is_moving() && first.is_moving() {
                                let total = (speed(first.velocity) + speed(other.velocity)) / 2;
                                ov.update(g, Some(redirected(total, first.ratios, first.velocity)))
                                    .update(f, Some(redirected(total, other.ratios, other.velocity)))
                            } else if first.is_moving() {
                                ov.update(f, Some(negated(v)))
                            } else {
                                ov.update(g, Some(negated(other.velocity)))
                            }
                        },
                    }
                }
            },
        }
    }
}

/// The pending velocities after the first `k` collisions; a later
/// collision of the same object wins.
pub open spec fn overrides(used: Seq<Collision>, objs: Seq<Option<MovingObject>>, k: int) -> Seq<Option<Vector>>
    decreases k,
{
    if k <= 0 {
        Seq::new(objs.len(), |i: int| None)
    } else {
        apply_collision(overrides(used, objs, k - 1), used[k - 1], objs)
    }
}

/// The table after every live object of the first `n` slots has moved for
/// `time` and taken its pending velocity.
pub open spec fn advanced(objs: Seq<Option<MovingObject>>, n: int, time: int, last: bool, ov: Seq<Option<Vector>>) -> Seq<Option<MovingObject>> {
    Seq::new(objs.len(), |i: int| if i < n {
        match objs[i] {
            Some(o) => Some(o.ticked(time, last, ov[i])),
            None => None,
        }
    } else {
        objs[i]
    })
}

/// The board after an object's wall collision leaves its symbol on the
/// border cell it reached.
pub open spec fn stamp_one(board: Seq<char>, c: Collision, objs: Seq<Option<MovingObject>>) -> Seq<char> {
    let f = c.subject_id as int;
    let w = BOARD_WIDTH as int;
    if f >= objs.len() {
        board
    } else {
        match objs[f] {
            None => board,
            Some(o) => {
                let row = cell_of(o.location.y as int);
                let col = cell_of(o.location.x as int);
                if c.other_id == LEFT_WALL && row < w {
                    board.update(row * w, o.symbol)
                } else if c.other_id == RIGHT_WALL && row < w {
                    board.update(w - 1 + row * w, o.symbol)
                } else if c.other_id == TOP_WALL && col < w {
                    board.update(col, o.symbol)
                } else if c.other_id == BOTTOM_WALL && col < w {
                    board.update(col + (w - 1) * w, o.symbol)
                } else {
                    board
                }
            },
        }
    }
}

pub open spec fn stamped(board: Seq<char>, used: Seq<Collision>, objs: Seq<Option<MovingObject>>, k: int) -> Seq<char>
    decreases k,
{
    if k <= 0 {
        board
    } else {
        stamp_one(stamped(board, used, objs, k - 1), used[k - 1], objs)
    }
}

/// The rest of a frame, from `elapsed` sub-steps on: sub-step after
/// sub-step, find the collisions, advance to the earliest, resolve every
/// collision up to it, until the frame is over.
pub open spec fn frame_from(objs: Seq<Option<MovingObject>>, board: Seq<char>, n: int, elapsed: int) -> (Seq<Option<MovingObject>>, Seq<char>)
    decreases TICK - elapsed,
{
    if elapsed >= TICK {
        (objs, board)
    } else {
        let remaining = TICK - elapsed;
        let cs = all_collisions(objs, n, remaining);
        let len = substep_length(cs, remaining);
        if len <= 0 || len > remaining {
            (objs, board)
        } else {
            let used = used_collisions(cs, len, cs.len() as int);
            let ov = overrides(used, objs, used.len() as int);
            let next = advanced(objs, n, len, elapsed + len >= TICK, ov);
            frame_from(next, stamped(board, used, next, used.len() as int), n, elapsed + len)
        }
    }
}

/// One whole frame of the simulation.
pub open spec fn frame(objs: Seq<Option<MovingObject>>, board: Seq<char>, n: int) -> (Seq<Option<MovingObject>>, Seq<char>) {
    frame_from(objs, board, n, 0)
}

/// Every collision of the live objects among the first `n` slots within
/// `remaining`.
fn collect_collisions(objects: &Vec<Option<MovingObject>>, n: usize, remaining: i64) -> (r: Vec<Collision>)
    requires
        n <= objects.len(),
        objects@.len() == MAXIMUM_OBJECTS,
        table_ok(objects@, POSITION_REACH as int),
        0 < remaining <= TICK,
    ensures
        r@ == all_collisions(objects@, n as int, remaining as int),
        forall|k: int| 0 <= k < r@.len() ==> time_ok(#[trigger] r@[k].time, remaining as int),
{
    let mut all: Vec<Collision> = Vec::new();
    let mut i: usize = 0;
    while i < n
        invariant
            i <= n <= objects.len(),
            objects@.len() == MAXIMUM_OBJECTS,
            table_ok(objects@, POSITION_REACH as int),
            0 < remaining <= TICK,
            all@ == all_collisions(objects@, i as int, remaining as int),
            forall|k: int| 0 <= k < all@.len() ==> time_ok(#[trigger] all@[k].time, remaining as int),
        decreases n - i,
    {
        match &objects[i] {
            None => {
                assert(all@ =~= all_collisions(objects@, i + 1, remaining as int));
            },
            Some(ob) => {
                proof {
                    assert(objects@[i as int] matches Some(o) ==> o.wf() && within(o.location, POSITION_REACH as int));
                }
                let mut found = ob.get_collisions(objects, i, remaining);
                let ghost before = all@;
                let ghost own = found@;
                all.append(&mut found);
                assert(all@ =~= all_collisions(objects@, i + 1, remaining as int));
                assert forall|k: int| 0 <= k < all@.len() implies time_ok(#[trigger] all@[k].time, remaining as int) by {
                    if k >= before.len() {
                        assert(record_ok(own[k - before.len()], i as int, remaining as int));
                    }
                }
            },
        }
        i = i + 1;
    }
    all
}

proof fn lemma_ceil_within(num: int, den: int, max: int)
    requires
        0 < den,
        0 <= num < max * den,
    ensures
        0 <= (num + den - 1) / den <= max,
{
    let x = num + den - 1;
    lemma_fundamental_div_mod(x, den);
    let q = x / den;
    let r = x % den;
    assert(0 <= r < den) by {
        lemma_mod_bound(x, den);
    }
    assert(0 <= q <= max) by (nonlinear_arith)
        requires x == den * q + r, 0 <= r < den, 0 <= num < max * den, 0 < den, x == num + den - 1;
}

/// The length of the next sub-step.
fn substep_duration(cs: &Vec<Collision>, remaining: i64) -> (r: i64)
    requires
        0 < remaining <= TICK,
        forall|k: int| 0 <= k < cs@.len() ==> time_ok(#[trigger] cs@[k].time, remaining as int),
    ensures
        r == substep_length(cs@, remaining as int),
        1 <= r <= remaining,
{
    if cs.len() == 0 {
        return remaining;
    }
    let mut first: i64 = TICK;
    let mut k: usize = 0;
    while k < cs.len()
        invariant
            k <= cs.len(),
            0 < remaining <= TICK,
            forall|j: int| 0 <= j < cs@.len() ==> time_ok(#[trigger] cs@[j].time, remaining as int),
            first == min_ceil(cs@, k as int),
            0 <= first <= TICK,
            k > 0 ==> first <= remaining,
        decreases cs.len() - k,
    {
        let t = cs[k].time;
        proof {
            assert(time_ok(cs@[k as int].time, remaining as int));
            lemma_ceil_within(t.num as int, t.den as int, remaining as int);
        }
        let c = ((t.num as u128 + t.den as u128 - 1) / (t.den as u128)) as i64;
        if c < first {
            first = c;
        }
        k = k + 1;
    }
    if first < 1 {
        1
    } else {
        first
    }
}

/// The collisions that happen no later than `limit`.
fn select_used(cs: &Vec<Collision>, limit: i64) -> (r: Vec<Collision>)
    requires
        0 < limit <= TICK,
        forall|k: int| 0 <= k < cs@.len() ==> 0 < (#[trigger] cs@[k]).time.den <= 0x100_0000_0000,
    ensures
        r@ == used_collisions(cs@, limit as int, cs@.len() as int),
{
    let mut used: Vec<Collision> = Vec::new();
    let mut k: usize = 0;
    while k < cs.len()
        invariant
            k <= cs.len(),
            0 < limit <= TICK,
            forall|j: int| 0 <= j < cs@.len() ==> 0 < (#[trigger] cs@[j]).time.den <= 0x100_0000_0000,
            used@ == used_collisions(cs@, limit as int, k as int),
        decreases cs.len() - k,
    {
        let c = cs[k];
        proof {
            assert(0 < cs@[k as int].time.den <= 0x100_0000_0000);
            assert(abs_int(limit * c.time.den) <= TICK * 0x100_0000_0000) by (nonlinear_arith)
                requires 0 < limit <= TICK, abs_int(c.time.den as int) <= 0x100_0000_0000;
        }
        if c.time.num <= (limit as i128) * c.time.den {
            used.push(c);
        }
        assert(used@ =~= used_collisions(cs@, limit as int, k + 1));
        k = k + 1;
    }
    used
}

/// The length of a velocity, rounded down.
fn speed_of(v: Vector) -> (r: i64)
    requires
        speed_ok(v),
    ensures
        r == speed(v),
        0 <= r <= SPEED_LIMIT,
{
    let x2 = pow2(v.x);
    let y2 = pow2(v.y);
    assert(0 <= x2 && 0 <= y2) by (nonlinear_arith)
        requires x2 == v.x * v.x, y2 == v.y * v.y;
    let root = fast_sqrt((x2 + y2) as u128);
    proof {
        lemma_floor_sqrt_unique(norm_sq(v), root as int);
        let s = SPEED_LIMIT as int;
        assert(root <= s) by (nonlinear_arith)
            requires root * root <= norm_sq(v), norm_sq(v) <= s * s, root >= 0, s > 0;
    }
    root as i64
}

/// A velocity of length `total` shared between the axes by `ratios`, each
/// axis pointing the way `dir` points.
fn redirect(total: i64, ratios: Vector, dir: Vector) -> (r: Vector)
    requires
        0 <= total <= SPEED_LIMIT,
        ratios.x >= 0,
        ratios.y >= 0,
        ratios.x + ratios.y == RATIO_ONE,
    ensures
        r == redirected(total as int, ratios, dir),
        speed_ok(r),
{
    assert(0 <= total * ratios.x <= SPEED_LIMIT * RATIO_ONE && 0 <= total * ratios.y <= SPEED_LIMIT * RATIO_ONE) by (nonlinear_arith)
        requires 0 <= total <= SPEED_LIMIT, 0 <= ratios.x <= RATIO_ONE, 0 <= ratios.y <= RATIO_ONE;
    let sx = total * ratios.x / RATIO_ONE;
    let sy = total * ratios.y / RATIO_ONE;
    proof {
        let one = RATIO_ONE as int;
        lemma_fundamental_div_mod(total * ratios.x, one);
        lemma_fundamental_div_mod(total * ratios.y, one);
        lemma_mod_bound(total * ratios.x, one);
        lemma_mod_bound(total * ratios.y, one);
        assert(0 <= sx && 0 <= sy && sx + sy <= total) by (nonlinear_arith)
            requires total * ratios.x == one * sx + (total * ratios.x) % one,
                total * ratios.y == one * sy + (total * ratios.y) % one,
                0 <= (total * ratios.x) % one < one,
                0 <= (total * ratios.y) % one < one,
                ratios.x + ratios.y == one, one > 0, total >= 0, ratios.x >= 0, ratios.y >= 0;
        let s = SPEED_LIMIT as int;
        assert(sx * sx + sy * sy <= s * s) by (nonlinear_arith)
            requires 0 <= sx, 0 <= sy, sx + sy <= total, total <= s;
    }
    let x = if dir.x < 0 { -sx } else { sx };
    let y = if dir.y < 0 { -sy } else { sy };
    assert(sx == share(total as int, ratios.x as int));
    assert(sy == share(total as int, ratios.y as int));
    assert(x == share(total as int, ratios.x as int) * sign_of(dir.x as int));
    assert(y == share(total as int, ratios.y as int) * sign_of(dir.y as int));
    proof {
        lemma_norm_shrinks(Vector { x, y }, Vector { x: sx, y: sy });
    }
    Vector { x, y }
}

/// Every pending velocity is within the speed limit.
pub open spec fn overrides_ok(ov: Seq<Option<Vector>>) -> bool {
    forall|i: int| 0 <= i < ov.len() ==> (#[trigger] ov[i] matches Some(v) ==> speed_ok(v))
}

/// Resolves collision `c` into the pending velocities `ov`.
fn resolve_one(ov: &mut Vec<Option<Vector>>, c: Collision, objects: &Vec<Option<MovingObject>>)
    requires
        old(ov)@.len() == objects@.len(),
        table_ok(objects@, POSITION_REACH as int),
        overrides_ok(old(ov)@),
    ensures
        final(ov)@ == apply_collision(old(ov)@, c, objects@),
        final(ov)@.len() == objects@.len(),
        overrides_ok(final(ov)@),
{
    let f = c.subject_id;
    let g = c.other_id;
    if f >= objects.len() {
        return;
    }
    let first = match &objects[f] {
        None => return,
        Some(o) => *o,
    };
    proof {
        assert(objects@[f as int] matches Some(o) ==> o.wf() && within(o.location, POSITION_REACH as int));
        lemma_speed_ok_axes(first.velocity);
    }
    let v = first.velocity;
    if g == RIGHT_WALL || g == LEFT_WALL {
        let nv = Vector { x: -v.x, y: v.y };
        proof {
            lemma_norm_shrinks(nv, v);
        }
        ov.set(f, Some(nv));
    } else if g == TOP_WALL || g == BOTTOM_WALL {
        let nv = Vector { x: v.x, y: -v.y };
        proof {
            lemma_norm_shrinks(nv, v);
        }
        ov.set(f, Some(nv));
    } else if g >= objects.len() {
        return;
    } else {
        let other = match &objects[g] {
            None => return,
            Some(o) => *o,
        };
        proof {
            assert(objects@[g as int] matches Some(o) ==> o.wf() && within(o.location, POSITION_REACH as int));
            lemma_speed_ok_axes(other.velocity);
        }
        if other.moving() && first.moving() {
            let total = (speed_of(first.velocity) + speed_of(other.velocity)) / 2;
            let for_other = redirect(total, first.ratios, first.velocity);
            let for_first = redirect(total, other.ratios, other.velocity);
            ov.set(g, Some(for_other));
            ov.set(f, Some(for_first));
        } else if first.moving() {
            let nv = Vector { x: -v.x, y: -v.y };
            proof {
                lemma_norm_shrinks(nv, v);
            }
            ov.set(f, Some(nv));
        } else {
            let ow = other.velocity;
            let nv = Vector { x: -ow.x, y: -ow.y };
            proof {
                lemma_norm_shrinks(nv, ow);
            }
            ov.set(g, Some(nv));
        }
    }
}

/// The velocities that the collisions of a sub-step give, slot by slot.
fn resolve_collisions(used: &Vec<Collision>, objects: &Vec<Option<MovingObject>>) -> (r: Vec<Option<Vector>>)
    requires
        table_ok(objects@, POSITION_REACH as int),
    ensures
        r@ == overrides(used@, objects@, used@.len() as int),
        r@.len() == objects@.len(),
        overrides_ok(r@),
{
    let mut ov: Vec<Option<Vector>> = Vec::new();
    let mut i: usize = 0;
    while i < objects.len()
        invariant
            i <= objects.len(),
            ov@ =~= Seq::new(i as nat, |j: int| None::<Vector>),
        decreases objects.len() - i,
    {
        ov.push(None);
        i = i + 1;
    }
    assert(ov@ =~= overrides(used@, objects@, 0));
    let mut k: usize = 0;
    while k < used.len()
        invariant
            k <= used.len(),
            table_ok(objects@, POSITION_REACH as int),
            ov@ == overrides(used@, objects@, k as int),
            ov@.len() == objects@.len(),
            overrides_ok(ov@),
        decreases used.len() - k,
    {
        resolve_one(&mut ov, used[k], objects);
        k = k + 1;
    }
    ov
}

/// Moves every live object of the first `n` slots on by `time`, with its
/// pending velocity.
fn advance_objects(objects: &mut Vec<Option<MovingObject>>, n: usize, time: i64, last: bool, ov: &Vec<Option<Vector>>, bound: Ghost<int>)
    requires
        n <= old(objects)@.len(),
        ov@.len() == old(objects)@.len(),
        overrides_ok(ov@),
        0 <= time <= TICK,
        0 <= bound@,
        bound@ + SPEED_LIMIT * time <= POSITION_REACH,
        table_ok(old(objects)@, bound@),
    ensures
        final(objects)@ == advanced(old(objects)@, n as int, time as int, last, ov@),
        table_ok(final(objects)@, bound@ + SPEED_LIMIT * time),
{
    let ghost start = objects@;
    let mut i: usize = 0;
    while i < n
        invariant
            i <= n <= start.len(),
            objects@.len() == start.len(),
            ov@.len() == start.len(),
            overrides_ok(ov@),
            0 <= time <= TICK,
            0 <= bound@,
            bound@ + SPEED_LIMIT * time <= POSITION_REACH,
            table_ok(start, bound@),
            forall|j: int| 0 <= j < start.len() ==> #[trigger] objects@[j] == if j < i {
                advanced(start, n as int, time as int, last, ov@)[j]
            } else {
                start[j]
            },
            table_ok(objects@, bound@ + SPEED_LIMIT * time),
        decreases n - i,
    {
        match objects[i] {
            None => {},
            Some(o) => {
                proof {
                    assert(start[i as int] matches Some(p) ==> p.wf() && within(p.location, bound@));
                    assert(ov@[i as int] matches Some(v) ==> speed_ok(v));
                }
                let mut moved = o;
                moved.tick(time, last, ov[i]);
                objects.set(i, Some(moved));
            },
        }
        i = i + 1;
    }
    assert(objects@ =~= advanced(start, n as int, time as int, last, ov@));
}

/// Leaves the symbol of each object that met a wall on the border cell it
/// reached.
fn stamp_walls(board: &mut Board, used: &Vec<Collision>, objects: &Vec<Option<MovingObject>>)
    requires
        old(board).wf(),
    ensures
        final(board).wf(),
        final(board).cells@ == stamped(old(board).cells@, used@, objects@, used@.len() as int),
{
    let ghost start = board.cells@;
    let mut k: usize = 0;
    while k < used.len()
        invariant
            k <= used.len(),
            board.wf(),
            board.cells@ == stamped(start, used@, objects@, k as int),
        decreases used.len() - k,
    {
        let c = used[k];
        let f = c.subject_id;
        if f < objects.len() {
            match &objects[f] {
                None => {},
                Some(o) => {
                    let row = board_cell(o.location.y);
                    let col = board_cell(o.location.x);
                    if c.other_id == LEFT_WALL && row < BOARD_WIDTH {
                        board.set(0, row, o.symbol);
                    } else if c.other_id == RIGHT_WALL && row < BOARD_WIDTH {
                        board.set(BOARD_WIDTH - 1, row, o.symbol);
                    } else if c.other_id == TOP_WALL && col < BOARD_WIDTH {
                        board.set(col, 0, o.symbol);
                    } else if c.other_id == BOTTOM_WALL && col < BOARD_WIDTH {
                        board.set(col, BOARD_WIDTH - 1, o.symbol);
                    }
                },
            }
        }
        k = k + 1;
    }
}

proof fn lemma_table_ok_weaken(objs: Seq<Option<MovingObject>>, b1: int, b2: int)
    requires
        table_ok(objs, b1),
        b1 <= b2,
    ensures
        table_ok(objs, b2),
{
    assert forall|j: int| 0 <= j < objs.len() implies (#[trigger] objs[j] matches Some(o) ==> o.wf() && within(o.location, b2)) by {
        assert(objs[j] matches Some(o) ==> o.wf() && within(o.location, b1));
    }
}

/// Runs one frame of the simulation on the first `number_of_objects` slots
/// of the table: sub-step by sub-step, every live object moves up to the
/// earliest collision (rounded up to a whole sub-step), collisions up to
/// that moment change the velocities, walls that were met get the object's
/// symbol on the board, and on the last sub-step every object slows down.
pub fn game_tick(objects: &mut Vec<Option<MovingObject>>, number_of_objects: usize, board: &mut Board)
    requires
        old(objects)@.len() == MAXIMUM_OBJECTS,
        number_of_objects <= MAXIMUM_OBJECTS,
        table_ok(old(objects)@, POSITION_LIMIT as int),
        old(board).wf(),
    ensures
        (final(objects)@, final(board).cells@) == frame(old(objects)@, old(board).cells@, number_of_objects as int),
        final(objects)@.len() == MAXIMUM_OBJECTS,
        table_ok(final(objects)@, POSITION_LIMIT + TICK * SPEED_LIMIT),
        final(board).wf(),
{
    let ghost start = (objects@, board.cells@);
    let n = number_of_objects;
    let mut tick_so_far: i64 = 0;
    while tick_so_far < TICK
        invariant
            0 <= tick_so_far <= TICK,
            objects@.len() == MAXIMUM_OBJECTS,
            n <= MAXIMUM_OBJECTS,
            board.wf(),
            table_ok(objects@, POSITION_LIMIT + SPEED_LIMIT * tick_so_far),
            frame_from(objects@, board.cells@, n as int, tick_so_far as int) == frame(start.0, start.1, n as int),
        decreases TICK - tick_so_far,
    {
        let ghost before = (objects@, board.cells@);
        proof {
            lemma_table_ok_weaken(objects@, POSITION_LIMIT + SPEED_LIMIT * tick_so_far, POSITION_REACH as int);
        }
        let remaining = TICK - tick_so_far;
        let all = collect_collisions(objects, n, remaining);
        let duration = substep_duration(&all, remaining);
        let used = select_used(&all, duration);
        let velocities = resolve_collisions(&used, objects);
        let last = tick_so_far + duration >= TICK;
        advance_objects(objects, n, duration, last, &velocities, Ghost(POSITION_LIMIT + SPEED_LIMIT * tick_so_far));
        stamp_walls(board, &used, objects);
        assert(frame_from(before.0, before.1, n as int, tick_so_far as int)
            == frame_from(objects@, board.cells@, n as int, tick_so_far + duration));
        tick_so_far = tick_so_far + duration;
    }
}

/// Every object of the table is at rest.
pub open spec fn all_resting(objs: Seq<Option<MovingObject>>) -> bool {
    forall|j: int| 0 <= j < objs.len() ==> (#[trigger] objs[j] matches Some(o) ==> !o.is_moving())
}

/// `k` frames in a row.
pub open spec fn frames(objs: Seq<Option<MovingObject>>, board: Seq<char>, n: int, k: nat) -> (Seq<Option<MovingObject>>, Seq<char>)
    decreases k,
{
    if k == 0 {
        (objs, board)
    } else {
        let (o, b) = frame(objs, board, n);
        frames(o, b, n, (k - 1) as nat)
    }
}

/// A launch velocity's ratios each lie in `[0, RATIO_ONE]` and together make
/// up `RATIO_ONE`.
pub proof fn launch_ratios_split(v: Vector)
    requires
        speed_ok(v),
    ensures
        0 <= launch_ratios(v).x <= RATIO_ONE,
        0 <= launch_ratios(v).y <= RATIO_ONE,
        launch_ratios(v).x + launch_ratios(v).y == RATIO_ONE,
{
    lemma_speed_ok_axes(v);
    let ax = abs_int(v.x as int);
    let sum = ax + abs_int(v.y as int);
    if sum != 0 {
        let rx = ax * RATIO_ONE / sum;
        assert(0 <= rx <= RATIO_ONE) by (nonlinear_arith)
            requires rx == ax * (RATIO_ONE as int) / sum, 0 <= ax <= sum, sum > 0;
    }
}

proof fn lemma_resting_pairs(o: MovingObject, objs: Seq<Option<MovingObject>>, offset: int, max: int, end: int)
    requires
        !o.is_moving(),
        all_resting(objs),
    ensures
        pair_collisions(o, objs, offset, max, end) == Seq::<Collision>::empty(),
    decreases end - offset,
{
    if end > offset + 1 {
        lemma_resting_pairs(o, objs, offset, max, end - 1);
        if 0 <= end - 1 < objs.len() {
            assert(objs[end - 1] matches Some(p) ==> !p.is_moving());
        }
        assert(pair_collisions(o, objs, offset, max, end) =~= Seq::<Collision>::empty());
    }
}

proof fn lemma_resting_collisions(objs: Seq<Option<MovingObject>>, n: int, remaining: int)
    requires
        all_resting(objs),
    ensures
        all_collisions(objs, n, remaining) == Seq::<Collision>::empty(),
    decreases n,
{
    if n > 0 {
        lemma_resting_collisions(objs, n - 1, remaining);
        if n - 1 < objs.len() {
            assert(objs[n - 1] matches Some(p) ==> !p.is_moving());
            match objs[n - 1] {
                None => {},
                Some(o) => {
                    lemma_resting_pairs(o, objs, ((n - 1) as usize) as int, remaining, objs.len() as int);
                    assert(wall_collisions(o, (n - 1) as usize, remaining) =~= Seq::<Collision>::empty());
                },
            }
        }
        assert(all_collisions(objs, n, remaining) =~= Seq::<Collision>::empty());
    }
}

/// A frame leaves a table in which nothing moves, and the board, as they
/// were.
pub proof fn resting_table_stays(objs: Seq<Option<MovingObject>>, board: Seq<char>, n: int)
    requires
        all_resting(objs),
    ensures
        frame(objs, board, n) == (objs, board),
{
    lemma_resting_collisions(objs, n, TICK as int);
    let cs = all_collisions(objs, n, TICK as int);
    let used = used_collisions(cs, TICK as int, 0);
    let ov = overrides(used, objs, 0);
    let next = advanced(objs, n, TICK as int, true, ov);
    assert forall|i: int| 0 <= i < objs.len() implies next[i] == objs[i] by {
        assert(objs[i] matches Some(p) ==> !p.is_moving());
    }
    assert(next =~= objs);
    assert(frame_from(next, board, n, TICK as int) == (next, board));
}

/// A table in which nothing moves, and the board, stay as they are over any
/// number of frames.
pub proof fn resting_table_stays_for_frames(objs: Seq<Option<MovingObject>>, board: Seq<char>, n: int, k: nat)
    requires
        all_resting(objs),
    ensures
        frames(objs, board, n, k) == (objs, board),
    decreases k,
{
    if k > 0 {
        resting_table_stays(objs, board, n);
        resting_table_stays_for_frames(objs, board, n, (k - 1) as nat);
    }
}

/// A frame over no slots changes neither the table nor the board.
pub proof fn empty_frame_is_identity(objs: Seq<Option<MovingObject>>, board: Seq<char>)
    ensures
        frame(objs, board, 0) == (objs, board),
{
    let cs = all_collisions(objs, 0, TICK as int);
    let used = used_collisions(cs, TICK as int, 0);
    let ov = overrides(used, objs, 0);
    let next = advanced(objs, 0, TICK as int, true, ov);
    assert(next =~= objs);
    assert(frame_from(next, board, 0, TICK as int) == (next, board));
}

/// Two objects on one row, `2 * d` apart, moving straight at each other
/// at speed `s` each, meet when the gap has closed to the collision
/// radius: at `(2 * d - COLLISION_RADIUS) / (2 * s)`, which the detector
/// finds exactly.
pub proof fn head_on_collision_time(a: MovingObject, b: MovingObject, d: int, s: int)
    requires
        a.location.y == b.location.y,
        b.location.x - a.location.x == 2 * d,
        a.velocity == (Vector { x: s as i64, y: 0 }),
        b.velocity == (Vector { x: -s as i64, y: 0 }),
        0 < s <= SPEED_LIMIT,
        0 <= d <= POSITION_REACH,
    ensures
        collision_time(a.location, a.velocity, b.location, b.velocity, COLLISION_RADIUS as int)
            == (CollisionTime { num: (4 * s * (2 * d - COLLISION_RADIUS)) as i128, den: (8 * s * s) as i128 }),
{
    let r = COLLISION_RADIUS as int;
    let qa = quad_a(a.velocity, b.velocity);
    let qb = quad_b(a.location, a.velocity, b.location, b.velocity);
    let qc = quad_c(a.location, b.location, r);
    assert(qa == 4 * s * s) by (nonlinear_arith)
        requires qa == (s - (-s)) * (s - (-s)) + (0 - 0) * (0 - 0);
    assert(qb == -8 * s * d) by (nonlinear_arith)
        requires qb == -2 * (s - (-s)) * (2 * d) - 2 * (0 - 0) * 0;
    assert(qc == 4 * d * d - r * r) by (nonlinear_arith)
        requires qc == (-2 * d) * (-2 * d) + 0 * 0 - r * r;
    let det = qb * qb - 4 * qa * qc;
    let ss = s * s;
    let dd = d * d;
    let rr = r * r;
    assert(qb * qb == 64 * (ss * dd)) by (nonlinear_arith)
        requires qb == -8 * s * d, ss == s * s, dd == d * d;
    assert(qa == 4 * ss && qc == 4 * dd - rr) by (nonlinear_arith)
        requires qa == 4 * s * s, qc == 4 * d * d - r * r, ss == s * s, dd == d * d, rr == r * r;
    assert(4 * qa * qc == 64 * (ss * dd) - 16 * (ss * rr)) by (nonlinear_arith)
        requires qa == 4 * ss, qc == 4 * dd - rr;
    assert((4 * s * r) * (4 * s * r) == 16 * (ss * rr)) by (nonlinear_arith)
        requires ss == s * s, rr == r * r;
    assert(det == (4 * s * r) * (4 * s * r));
    assert(is_floor_sqrt(det, 4 * s * r)) by (nonlinear_arith)
        requires det == (4 * s * r) * (4 * s * r), s > 0, r > 0;
    lemma_floor_sqrt_unique(det, 4 * s * r);
    assert(-qb - 4 * s * r == 4 * s * (2 * d - r)) by (nonlinear_arith)
        requires qb == -8 * s * d;
    assert(qa != 0 && 2 * qa == 8 * s * s) by (nonlinear_arith)
        requires qa == 4 * s * s, s > 0;
    assert(-0x1_0000_0000_0000_0000 <= 4 * s * (2 * d - r) <= 0x1_0000_0000_0000_0000 && 0 < 8 * s * s <= 0x1_0000_0000_0000)
        by (nonlinear_arith)
        requires 0 < s <= 0x1_0000, 0 <= d <= 0x4_0000_0000, r == 100_000;
    assert(earlier_root(qa, qb, qc).num == 4 * s * (2 * d - r));
    assert(earlier_root(qa, qb, qc).den == 8 * s * s);
}

/// Rounding the meeting time of two head-on objects up to a whole
/// sub-step, as a frame does, moves them past the moment they touch by
/// less than one sub-step: after it their centres are at most the
/// collision radius apart, and more than the radius less the `2 * s` they
/// close in one sub-step. So at speeds below half the radius per sub-step
/// neither reaches the point where they would have met head to head.
pub proof fn head_on_pair_stops_short(a: MovingObject, b: MovingObject, d: int, s: int)
    requires
        a.location.y == b.location.y,
        b.location.x - a.location.x == 2 * d,
        a.velocity == (Vector { x: s as i64, y: 0 }),
        b.velocity == (Vector { x: -s as i64, y: 0 }),
        0 < s <= SPEED_LIMIT,
        COLLISION_RADIUS < 2 * d <= 2 * POSITION_REACH,
    ensures
        ({
            let len = ceil_time(collision_time(a.location, a.velocity, b.location, b.velocity, COLLISION_RADIUS as int));
            &&& 1 <= len
            &&& COLLISION_RADIUS - 2 * s < 2 * d - 2 * s * len
            &&& 2 * d - 2 * s * len <= COLLISION_RADIUS
            &&& 2 * s < COLLISION_RADIUS ==> s * len < d
        }),
{
    head_on_collision_time(a, b, d, s);
    let r = COLLISION_RADIUS as int;
    let gap = 2 * d - r;
    let num = 4 * s * gap;
    let den = 8 * s * s;
    assert(den > 0) by (nonlinear_arith)
        requires den == 8 * s * s, s > 0;
    assert(-0x1_0000_0000_0000_0000 <= num <= 0x1_0000_0000_0000_0000 && den <= 0x1_0000_0000_0000) by (nonlinear_arith)
        requires num == 4 * s * gap, den == 8 * s * s, 0 < s <= 0x1_0000, -0x1_0000_0000 <= gap <= 0x8_0000_0000;
    let t = collision_time(a.location, a.velocity, b.location, b.velocity, r);
    assert(t.num == num && t.den == den);
    let x = num + den - 1;
    let len = x / den;
    lemma_fundamental_div_mod(x, den);
    lemma_mod_bound(x, den);
    assert(ceil_time(t) == len);
    assert(x == den * len + x % den);
    assert(2 * s * (len - 1) < gap <= 2 * s * len) by (nonlinear_arith)
        requires x == den * len + x % den, 0 <= x % den < den, x == num + den - 1, num == 4 * s * gap,
            den == 8 * s * s, s > 0, gap > 0;
    assert(1 <= len) by (nonlinear_arith)
        requires gap <= 2 * s * len, gap > 0, s > 0;
    assert(2 * s * (len - 1) == 2 * s * len - 2 * s) by (nonlinear_arith);
    assert(2 * s * len == 2 * (s * len)) by (nonlinear_arith);
}

/// A resting object is left exactly as it is by `tick`, whatever the time,
/// the end of frame or the velocity handed to it.
pub proof fn resting_object_ignores_tick(o: MovingObject, time: int, last: bool, collision_velocity: Option<Vector>)
    requires
        !o.is_moving(),
    ensures
        o.ticked(time, last, collision_velocity) == o,
{
}

proof fn lemma_no_pairs(o: MovingObject, objs: Seq<Option<MovingObject>>, offset: int, max: int, end: int)
    requires
        forall|j: int| 0 <= j < objs.len() ==> #[trigger] objs[j] is None,
    ensures
        pair_collisions(o, objs, offset, max, end) == Seq::<Collision>::empty(),
    decreases end - offset,
{
    if end > offset + 1 {
        lemma_no_pairs(o, objs, offset, max, end - 1);
        if 0 <= end - 1 < objs.len() {
            assert(objs[end - 1] is None);
        }
        assert(pair_collisions(o, objs, offset, max, end) =~= Seq::<Collision>::empty());
    }
}

/// An object alone on the board, inside it and less than five cells from
/// the left wall, moving left at five cells per frame, meets exactly one
/// thing within `max`, once `max` is past the moment `x / 5` frames (that is
/// `x / 5000` sub-steps) at which it reaches the wall: the left wall, then.
pub proof fn lone_object_meets_left_wall(o: MovingObject, others: Seq<Option<MovingObject>>, offset: usize, max: int)
    requires
        0 < o.location.x < 500_000,
        0 <= o.location.y <= BOARD_INSIDE,
        o.velocity == (Vector { x: -5000i64, y: 0 }),
        forall|j: int| 0 <= j < others.len() ==> #[trigger] others[j] is None,
        o.location.x < max * 5000,
    ensures
        collisions_of(o, others, offset, max) == seq![Collision {
            other_id: LEFT_WALL,
            time: CollisionTime { num: o.location.x as i128, den: 5000 },
            subject_id: offset,
        }],
{
    lemma_no_pairs(o, others, offset as int, max, others.len() as int);
    assert(collisions_of(o, others, offset, max) =~= seq![Collision {
        other_id: LEFT_WALL,
        time: CollisionTime { num: o.location.x as i128, den: 5000 },
        subject_id: offset,
    }]);
}

/// With no slots to look at there is no collision, so the first sub-step of
/// the frame is the whole frame.
pub proof fn empty_frame_is_one_substep(objs: Seq<Option<MovingObject>>)
    ensures
        all_collisions(objs, 0, TICK as int) == Seq::<Collision>::empty(),
        substep_length(all_collisions(objs, 0, TICK as int), TICK as int) == TICK,
{
}

proof fn lemma_floor_sqrt_exists(n: int)
    requires
        0 <= n,
    ensures
        is_floor_sqrt(n, floor_sqrt(n)),
    decreases n,
{
    if n == 0 {
        assert(is_floor_sqrt(0, 0));
    } else {
        lemma_floor_sqrt_exists(n - 1);
        let r = floor_sqrt(n - 1);
        if (r + 1) * (r + 1) <= n {
            assert(n < (r + 2) * (r + 2)) by (nonlinear_arith)
                requires n - 1 < (r + 1) * (r + 1), r >= 0;
            assert(is_floor_sqrt(n, r + 1));
        } else {
            assert(is_floor_sqrt(n, r));
        }
    }
}

/// Two objects on a common line, moving at `v` and `-v` toward each other
/// from `k * v` on either side of a midpoint, in any direction: with `n`
/// their squared speed, the detector's time has denominator `8 * n`, the
/// objects are at most the collision radius apart then, and were more
/// than the radius apart `1 / (8 * n)` sub-step earlier. So the time found
/// is the moment they touch, late by less than an eighth of a sub-step.
pub proof fn head_on_collision_time_any_direction(a: MovingObject, b: MovingObject, v: Vector, k: int)
    requires
        a.velocity == v,
        b.velocity == negated(v),
        v.x != 0 || v.y != 0,
        within(v, SPEED_LIMIT as int),
        0 <= k,
        abs_int(k * v.x) <= POSITION_REACH,
        abs_int(k * v.y) <= POSITION_REACH,
        b.location.x - a.location.x == 2 * k * v.x,
        b.location.y - a.location.y == 2 * k * v.y,
    ensures
        ({
            let n = norm_sq(v);
            let r = COLLISION_RADIUS as int;
            let t = collision_time(a.location, a.velocity, b.location, b.velocity, r);
            &&& t.den == 8 * n
            &&& sq(8 * k * n - t.num) <= 16 * n * sq(r)
            &&& 16 * n * sq(r) < sq(8 * k * n - t.num + 1)
        }),
{
    let n = norm_sq(v);
    let r = COLLISION_RADIUS as int;
    let (vx, vy) = (v.x as int, v.y as int);
    assert(b.velocity.x == -vx && b.velocity.y == -vy);
    let qa = quad_a(a.velocity, b.velocity);
    let qb = quad_b(a.location, a.velocity, b.location, b.velocity);
    let qc = quad_c(a.location, b.location, r);
    assert(n == vx * vx + vy * vy);
    assert(n > 0) by (nonlinear_arith)
        requires n == vx * vx + vy * vy, vx != 0 || vy != 0;
    assert(qa == 4 * n) by (nonlinear_arith)
        requires qa == (vx - (-vx)) * (vx - (-vx)) + (vy - (-vy)) * (vy - (-vy)), n == vx * vx + vy * vy;
    assert(qb == -8 * k * n) by (nonlinear_arith)
        requires qb == -2 * (vx - (-vx)) * (2 * k * vx) - 2 * (vy - (-vy)) * (2 * k * vy), n == vx * vx + vy * vy;
    let dx = a.location.x - b.location.x;
    let dy = a.location.y - b.location.y;
    assert(dx == -(2 * k * vx) && dy == -(2 * k * vy));
    assert(qc == dx * dx + dy * dy - r * r);
    assert(qc == 4 * k * k * n - r * r) by (nonlinear_arith)
        requires qc == dx * dx + dy * dy - r * r, dx == -(2 * k * vx), dy == -(2 * k * vy), n == vx * vx + vy * vy;
    let det = qb * qb - 4 * qa * qc;
    assert(det == 16 * n * (r * r)) by (nonlinear_arith)
        requires det == qb * qb - 4 * qa * qc, qa == 4 * n, qb == -8 * k * n, qc == 4 * k * k * n - r * r;
    assert(det >= 0) by (nonlinear_arith)
        requires det == 16 * n * (r * r), n > 0;
    lemma_floor_sqrt_exists(det);
    let root = floor_sqrt(det);
    assert(0 <= k * n <= 0x8_0000_0000_0000_0000) by (nonlinear_arith)
        requires n == vx * vx + vy * vy, 0 <= k, abs_int(k * vx) <= 0x4_0000_0000, abs_int(k * vy) <= 0x4_0000_0000,
            abs_int(vx) <= 0x1_0000, abs_int(vy) <= 0x1_0000;
    assert(n <= 0x2_0000_0000) by (nonlinear_arith)
        requires n == vx * vx + vy * vy, abs_int(vx) <= 0x1_0000, abs_int(vy) <= 0x1_0000;
    assert(root <= 0x100_0000_0000) by (nonlinear_arith)
        requires root * root <= det, det == 16 * n * (r * r), n <= 0x2_0000_0000, r == 100_000, root >= 0;
    assert(-qb - root == 8 * k * n - root) by (nonlinear_arith)
        requires qb == -8 * k * n;
    assert(-0x1000_0000_0000_0000_0000 <= 8 * k * n - root <= 0x1000_0000_0000_0000_0000
        && 0 < 2 * qa <= 0x1000_0000_0000_0000_0000) by (nonlinear_arith)
        requires 0 <= k * n <= 0x8_0000_0000_0000_0000, 0 <= root <= 0x100_0000_0000, qa == 4 * n,
            0 < n <= 0x2_0000_0000;
    let t = collision_time(a.location, a.velocity, b.location, b.velocity, r);
    assert(t.num == 8 * k * n - root);
    assert(t.den == 8 * n);
    assert(8 * k * n - t.num == root);
}

} // verus!
