//! Firmware logic of a two-player LED-matrix game. Each player aims and
//! fires projectiles that move over a 16 by 16 board, bounce off its walls
//! and off each other, slow down and finally explode, painting the board in
//! their owner's colour.
//!
//! - `game`: the collision simulation, in fixed-point integers, with the
//!   frame as a whole stated as a function of the table and the board;
//! - `play`: the rules around it: players, launching, explosions, scores;
//! - `gameboard`, `ws2812`, `scoreboard`: the LED matrix, the pixel buffers
//!   and the waveforms that send them;
//! - `nunchuk`, `remote`: the controller's readings, locally and over the
//!   serial link from the other board;
//! - `esp`: the logic of the Wi-Fi adapter that relays that link;
//! - `pwm`: period and duty-cycle values of a PWM timer;
//! - `math`: absolute values, squares and the integer square root.
use vstd::prelude::*;

pub mod esp;
pub mod game;
pub mod gameboard;
pub mod math;
pub mod nunchuk;
pub mod play;
pub mod pwm;
pub mod remote;
pub mod scoreboard;
pub mod ws2812;

verus! {

} // verus!
