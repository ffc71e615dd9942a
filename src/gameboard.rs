//! The LED matrix that shows the board: a grid of colours kept beside the
//! strip's buffer. The strip runs back and forth across the rows, so odd
//! rows are stored right to left.
use vstd::prelude::*;

use crate::ws2812::{waveform, Pulse, Ws2812, RGB};

verus! {

/// Columns of the matrix.
pub const WIDTH: usize = 16;

/// Rows of the matrix.
pub const HEIGHT: usize = 16;

/// LEDs of the matrix.
pub const PIXEL_COUNT: usize = 256;

/// The position on the strip of the LED in column `x` of row `y`.
pub open spec fn strip_index(x: int, y: int) -> int {
    if y % 2 == 0 {
        y * WIDTH + x
    } else {
        y * WIDTH + 15 - x
    }
}

/// The place in the grid of the colour of column `x`, row `y`.
pub open spec fn cell(x: int, y: int) -> int {
    x * HEIGHT + y
}

pub open spec fn black() -> RGB {
    RGB { r: 0, g: 0, b: 0 }
}

pub proof fn lemma_strip_index(x1: int, y1: int, x2: int, y2: int)
    requires
        0 <= x1 < WIDTH,
        0 <= y1 < HEIGHT,
        0 <= x2 < WIDTH,
        0 <= y2 < HEIGHT,
    ensures
        0 <= strip_index(x1, y1) < PIXEL_COUNT,
        strip_index(x1, y1) == strip_index(x2, y2) ==> x1 == x2 && y1 == y2,
{
}

/// The board's LED matrix.
pub struct Gameboard {
    /// Colour of each cell, column after column.
    pub matrix: Vec<RGB>,
    pub ws: Ws2812,
}

impl Gameboard {
    pub open spec fn wf(&self) -> bool {
        &&& self.matrix@.len() == PIXEL_COUNT
        &&& self.ws.data_buffer@.len() == PIXEL_COUNT
    }

    /// The colour of column `x`, row `y`.
    pub open spec fn color(&self, x: int, y: int) -> RGB {
        self.matrix@[cell(x, y)]
    }

    /// A black matrix shown on the strip `ws`.
    pub fn new(ws: Ws2812) -> (r: Gameboard)
        requires
            ws.data_buffer@.len() == PIXEL_COUNT,
        ensures
            r.wf(),
            r.ws == ws,
            forall|i: int| 0 <= i < PIXEL_COUNT ==> r.matrix@[i] == black(),
    {
        let mut matrix: Vec<RGB> = Vec::new();
        let mut i: usize = 0;
        while i < PIXEL_COUNT
            invariant
                i <= PIXEL_COUNT,
                matrix@.len() == i,
                forall|j: int| 0 <= j < i ==> matrix@[j] == black(),
            decreases PIXEL_COUNT - i,
        {
            matrix.push(RGB::zero());
            i = i + 1;
        }
        Gameboard { matrix, ws }
    }

    /// Exchanges the colours of two cells, when both are on the board and
    /// they differ.
    pub fn swap(&mut self, s_x: usize, s_y: usize, d_x: usize, d_y: usize)
        requires
            old(self).wf(),
        ensures
            final(self).wf(),
            if s_x >= WIDTH || d_x >= WIDTH || s_y >= HEIGHT || d_y >= HEIGHT || (s_x == d_x && s_y == d_y) {
                *final(self) == *old(self)
            } else {
                &&& final(self).matrix@ == old(self).matrix@.update(cell(s_x as int, s_y as int), old(self).color(d_x as int, d_y as int))
                    .update(cell(d_x as int, d_y as int), old(self).color(s_x as int, s_y as int))
                &&& final(self).ws.data_buffer@ == old(self).ws.data_buffer@.update(strip_index(s_x as int, s_y as int), old(self).color(d_x as int, d_y as int))
                    .update(strip_index(d_x as int, d_y as int), old(self).color(s_x as int, s_y as int))
                &&& final(self).ws.clock_speed == old(self).ws.clock_speed
            },
    {
        if s_x >= WIDTH || d_x >= WIDTH || s_y >= HEIGHT || d_y >= HEIGHT {
        } else if s_x == d_x && s_y == d_y {
        } else {
            let temp_color = self.matrix[s_x * HEIGHT + s_y];
            let other = self.matrix[d_x * HEIGHT + d_y];
            self.set_color(s_x, s_y, other);
            self.set_color(d_x, d_y, temp_color);
        }
    }

    /// Sets the colour of column `x`, row `y`, in the grid and on the strip;
    /// a cell off the board is ignored.
    pub fn set_color(&mut self, x: usize, y: usize, new_color: RGB)
        requires
            old(self).wf(),
        ensures
            final(self).wf(),
            final(self).ws.clock_speed == old(self).ws.clock_speed,
            if x >= WIDTH || y >= HEIGHT {
                *final(self) == *old(self)
            } else {
                &&& final(self).matrix@ == old(self).matrix@.update(cell(x as int, y as int), new_color)
                &&& final(self).ws.data_buffer@ == old(self).ws.data_buffer@.update(strip_index(x as int, y as int), new_color)
            },
    {
        if x >= WIDTH || y >= HEIGHT {
        } else {
            self.matrix.set(x * HEIGHT + y, new_color);
            self.set_color_in_buffer(x, y, new_color);
        }
    }

    /// The colour of column `x`, row `y`; black off the board.
    pub fn get_color(&self, x: usize, y: usize) -> (r: RGB)
        requires
            self.wf(),
        ensures
            r == if x >= WIDTH || y >= HEIGHT { black() } else { self.color(x as int, y as int) },
    {
        if x >= WIDTH || y >= HEIGHT {
            RGB { r: 0x00, g: 0x00, b: 0x00 }
        } else {
            self.matrix[x * HEIGHT + y]
        }
    }

    /// Blanks the strip, then shows the grid again: the waveform of the
    /// blank strip followed by that of the grid.
    pub fn flush(&mut self) -> (r: Vec<Pulse>)
        requires
            old(self).wf(),
        ensures
            final(self).wf(),
            final(self).matrix@ == old(self).matrix@,
            final(self).ws.clock_speed == old(self).ws.clock_speed,
            forall|x: int, y: int| 0 <= x < WIDTH && 0 <= y < HEIGHT
                ==> final(self).ws.data_buffer@[#[trigger] strip_index(x, y)] == final(self).color(x, y),
            r@ == waveform(Seq::new(PIXEL_COUNT as nat, |i: int| black())) + waveform(final(self).ws.data_buffer@),
    {
        let mut i: usize = 0;
        while i < PIXEL_COUNT
            invariant
                i <= PIXEL_COUNT,
                self.wf(),
                self.matrix@ == old(self).matrix@,
                self.ws.clock_speed == old(self).ws.clock_speed,
                forall|j: int| 0 <= j < i ==> self.ws.data_buffer@[j] == black(),
            decreases PIXEL_COUNT - i,
        {
            self.ws.set_color(RGB::zero(), i as u32);
            i = i + 1;
        }
        assert(self.ws.data_buffer@ =~= Seq::new(PIXEL_COUNT as nat, |i: int| black()));
        let mut out = self.update_matrix();
        let mut y: usize = 0;
        while y < HEIGHT
            invariant
                y <= HEIGHT,
                self.wf(),
                self.matrix@ == old(self).matrix@,
                self.ws.clock_speed == old(self).ws.clock_speed,
                forall|a: int, b: int| 0 <= a < WIDTH && 0 <= b < y
                    ==> self.ws.data_buffer@[#[trigger] strip_index(a, b)] == self.color(a, b),
            decreases HEIGHT - y,
        {
            let mut x: usize = 0;
            while x < WIDTH
                invariant
                    x <= WIDTH,
                    y < HEIGHT,
                    self.wf(),
                    self.matrix@ == old(self).matrix@,
                    self.ws.clock_speed == old(self).ws.clock_speed,
                    forall|a: int, b: int| 0 <= a < WIDTH && 0 <= b < HEIGHT && (b < y || (b == y && a < x))
                        ==> self.ws.data_buffer@[#[trigger] strip_index(a, b)] == self.color(a, b),
                decreases WIDTH - x,
            {
                let c = self.matrix[x * HEIGHT + y];
                self.set_color_in_buffer(x, y, c);
                proof {
                    assert forall|a: int, b: int| 0 <= a < WIDTH && 0 <= b < HEIGHT && (b < y || (b == y && a < x + 1))
                        implies self.ws.data_buffer@[#[trigger] strip_index(a, b)] == self.color(a, b) by {
                        lemma_strip_index(a, b, x as int, y as int);
                    }
                }
                x = x + 1;
            }
            y = y + 1;
        }
        let mut second = self.update_matrix();
        out.append(&mut second);
        out
    }

    /// The waveform that shows the strip's buffer.
    pub fn update_matrix(&self) -> (r: Vec<Pulse>)
        requires
            self.wf(),
        ensures
            r@ == waveform(self.ws.data_buffer@),
    {
        self.ws.write_leds()
    }

    /// Puts a colour on the strip's LED for column `x`, row `y`, leaving
    /// the grid as it is.
    pub fn set_color_in_buffer(&mut self, x: usize, y: usize, new_color: RGB)
        requires
            old(self).wf(),
            x < WIDTH,
            y < HEIGHT,
        ensures
            final(self).wf(),
            final(self).matrix@ == old(self).matrix@,
            final(self).ws.clock_speed == old(self).ws.clock_speed,
            final(self).ws.data_buffer@ == old(self).ws.data_buffer@.update(strip_index(x as int, y as int), new_color),
    {
        proof {
            lemma_strip_index(x as int, y as int, x as int, y as int);
        }
        let index: u32 = if y % 2 == 0 {
            (y * WIDTH + x) as u32
        } else {
            (y * WIDTH + 15 - x) as u32
        };
        self.ws.set_color(new_color, index);
    }
}

} // verus!
