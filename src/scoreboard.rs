//! A player's score, shown on a short strip of LEDs: the more of the
//! maximum score reached, the more LEDs are lit.
use vstd::prelude::*;

use crate::ws2812::{waveform, Pulse, Ws2812, RGB};

verus! {

/// LEDs of a score strip.
pub const LED_COUNT: usize = 5;

/// Clock speed of the controller that drives the strip, in hertz.
pub const CLOCK_SPEED: u32 = 108_000_000;

/// How many of the strip's LEDs a score stands for: the score's share of
/// the maximum, in fifths, rounded down. With a maximum of zero any score
/// counts as past the end of the strip.
pub open spec fn lit_leds(score: int, max_score: int) -> int {
    if max_score == 0 {
        if score == 0 {
            0
        } else {
            255
        }
    } else {
        score * LED_COUNT / max_score
    }
}

/// The colours that show a score: LED `i` is red when `i` is at most
/// `lit_leds`, dark otherwise.
pub open spec fn score_colors(score: int, max_score: int) -> Seq<RGB> {
    Seq::new(LED_COUNT as nat, |i: int| if i <= lit_leds(score, max_score) {
        RGB { r: 255, g: 0, b: 0 }
    } else {
        RGB { r: 0, g: 0, b: 0 }
    })
}

/// A score between zero and a maximum, and the strip that shows it.
pub struct ScoreBoard {
    pub score: u8,
    pub ws: Ws2812,
    pub max_score: u8,
}

impl ScoreBoard {
    pub open spec fn wf(&self) -> bool {
        &&& self.score <= self.max_score
        &&& self.ws.data_buffer@.len() == LED_COUNT
    }

    /// A score of zero out of `max_score`, on a dark strip.
    pub fn new(max_score: u8) -> (r: ScoreBoard)
        ensures
            r.wf(),
            r.score == 0,
            r.max_score == max_score,
            r.ws.clock_speed == CLOCK_SPEED,
            r.ws.data_buffer@ == Seq::new(LED_COUNT as nat, |i: int| RGB { r: 0, g: 0, b: 0 }),
    {
        let ws = Ws2812::new(CLOCK_SPEED, LED_COUNT);
        ScoreBoard { score: 0, ws, max_score }
    }

    /// Raises the score by `incr`, no higher than the maximum, and returns
    /// the waveform that shows it.
    pub fn add_score(&mut self, incr: u8) -> (r: Vec<Pulse>)
        requires
            old(self).wf(),
        ensures
            final(self).wf(),
            final(self).max_score == old(self).max_score,
            final(self).score == if old(self).score + incr > old(self).max_score { old(self).max_score as int } else { old(self).score + incr },
            final(self).ws.data_buffer@ == score_colors(final(self).score as int, final(self).max_score as int),
            r@ == waveform(final(self).ws.data_buffer@),
    {
        let sum: u16 = self.score as u16 + incr as u16;
        if sum > self.max_score as u16 {
            self.score = self.max_score;
        } else {
            self.score = sum as u8;
        }
        self.update_scoreboard()
    }

    /// Lowers the score by `decr`, no lower than zero, and returns the
    /// waveform that shows it.
    pub fn delete_score(&mut self, decr: u8) -> (r: Vec<Pulse>)
        requires
            old(self).wf(),
        ensures
            final(self).wf(),
            final(self).max_score == old(self).max_score,
            final(self).score == if old(self).score < decr { 0 } else { old(self).score - decr },
            final(self).ws.data_buffer@ == score_colors(final(self).score as int, final(self).max_score as int),
            r@ == waveform(final(self).ws.data_buffer@),
    {
        if self.score < decr {
            self.score = 0;
        } else {
            self.score = self.score - decr;
        }
        self.update_scoreboard()
    }

    /// Puts the score's colours on the strip and returns the waveform that
    /// shows them.
    pub fn update_scoreboard(&mut self) -> (r: Vec<Pulse>)
        requires
            old(self).wf(),
        ensures
            final(self).wf(),
            final(self).score == old(self).score,
            final(self).max_score == old(self).max_score,
            final(self).ws.data_buffer@ == score_colors(old(self).score as int, old(self).max_score as int),
            r@ == waveform(final(self).ws.data_buffer@),
    {
        let score_colors = self.score_to_colors();
        let mut i: usize = 0;
        while i < LED_COUNT
            invariant
                i <= LED_COUNT,
                self.wf(),
                self.score == old(self).score,
                self.max_score == old(self).max_score,
                score_colors@ == crate::scoreboard::score_colors(self.score as int, self.max_score as int),
                forall|j: int| 0 <= j < i ==> self.ws.data_buffer@[j] == score_colors@[j],
            decreases LED_COUNT - i,
        {
            self.ws.set_color(score_colors[i], i as u32);
            i = i + 1;
        }
        assert(self.ws.data_buffer@ =~= crate::scoreboard::score_colors(self.score as int, self.max_score as int));
        self.ws.write_leds()
    }

    /// The colours that show the score.
    pub fn score_to_colors(&self) -> (r: Vec<RGB>)
        ensures
            r@ == score_colors(self.score as int, self.max_score as int),
    {
        let score_leds: u32 = if self.max_score == 0 {
            if self.score == 0 {
                0
            } else {
                255
            }
        } else {
            (self.score as u32) * 5 / (self.max_score as u32)
        };
        let mut colors: Vec<RGB> = Vec::new();
        let mut i: u32 = 0;
        while i < LED_COUNT as u32
            invariant
                i <= LED_COUNT,
                score_leds == lit_leds(self.score as int, self.max_score as int),
                colors@ =~= score_colors(self.score as int, self.max_score as int).subrange(0, i as int),
            decreases LED_COUNT - i,
        {
            if i <= score_leds {
                colors.push(RGB { r: 255, g: 0, b: 0 });
            } else {
                colors.push(RGB::zero());
            }
            i = i + 1;
        }
        assert(colors@ =~= score_colors(self.score as int, self.max_score as int));
        colors
    }
}

} // verus!
