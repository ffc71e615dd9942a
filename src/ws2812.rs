//! The pixel buffer of a strip of WS2812 LEDs and the waveform that sends
//! it. Each LED takes 24 bits, green then red then blue, most significant
//! bit first; a bit is a high pulse followed by a low one, their lengths
//! telling a one from a zero, and a long low pulse ends the frame.
use vstd::prelude::*;

verus! {

/// A colour, one byte per channel.
#[derive(Debug, Clone, Copy, PartialEq, Eq, Structural)]
pub struct RGB {
    pub r: u8,
    pub g: u8,
    pub b: u8,
}

/// The level the data line is held at.
#[derive(Debug, Clone, Copy, PartialEq, Eq, Structural)]
pub enum State {
    Low,
    High,
}

/// Holding the data line at one level for a number of busy-wait cycles.
#[derive(Debug, Clone, Copy, PartialEq, Eq, Structural)]
pub struct Pulse {
    pub state: State,
    pub cycles: u32,
}

/// Nanoseconds taken by one cycle of the busy-wait loop at 108 MHz.
pub const NS_WAIT_CLOCK_CYCLE: u32 = 37;

/// Nanoseconds that a delay takes even when it waits for nothing.
pub const OVERHEAD_NS: u32 = 30;

/// High time of a one bit, in nanoseconds.
pub const ONE_HIGH_NS: u32 = 850;

/// Low time of a one bit.
pub const ONE_LOW_NS: u32 = 420;

/// High time of a zero bit.
pub const ZERO_HIGH_NS: u32 = 350;

/// Low time of a zero bit.
pub const ZERO_LOW_NS: u32 = 950;

/// Low time that ends a frame.
pub const RESET_NS: u32 = 5000;

impl RGB {
    /// Black.
    pub fn zero() -> (r: RGB)
        ensures
            r == (RGB { r: 0, g: 0, b: 0 }),
    {
        RGB { r: 0, g: 0, b: 0 }
    }

    /// The colour in the order the LEDs take it: green, red, blue.
    pub fn get_as_buffer(&self) -> (r: [u8; 3])
        ensures
            r@ == seq![self.g, self.r, self.b],
    {
        [self.g, self.r, self.b]
    }
}

/// Busy-wait cycles for a delay of `ns` nanoseconds.
pub open spec fn cycles_for(ns: int) -> int {
    (ns - OVERHEAD_NS) / (NS_WAIT_CLOCK_CYCLE as int)
}

pub open spec fn pulse(state: State, ns: int) -> Pulse {
    Pulse { state, cycles: cycles_for(ns) as u32 }
}

/// The two pulses of one bit.
pub open spec fn bit_pulses(one: bool) -> Seq<Pulse> {
    if one {
        seq![pulse(State::High, ONE_HIGH_NS as int), pulse(State::Low, ONE_LOW_NS as int)]
    } else {
        seq![pulse(State::High, ZERO_HIGH_NS as int), pulse(State::Low, ZERO_LOW_NS as int)]
    }
}

/// Bit `k` of a byte, counting from the most significant.
pub open spec fn msb_bit(byte: u8, k: int) -> bool {
    (byte >> ((7 - k) as u8)) & 1u8 == 1u8
}

/// The pulses of the first `k` bits of a byte, most significant first.
pub open spec fn byte_pulses(byte: u8, k: int) -> Seq<Pulse>
    decreases k,
{
    if k <= 0 {
        seq![]
    } else {
        byte_pulses(byte, k - 1) + bit_pulses(msb_bit(byte, k - 1))
    }
}

/// The pulses of the first `k` bytes of a colour, in the order the LEDs
/// take them.
pub open spec fn color_pulses(c: RGB, k: int) -> Seq<Pulse>
    decreases k,
{
    if k <= 0 {
        seq![]
    } else {
        let byte = if k == 1 {
            c.g
        } else if k == 2 {
            c.r
        } else {
            c.b
        };
        color_pulses(c, k - 1) + byte_pulses(byte, 8)
    }
}

/// The pulses of the first `k` LEDs.
pub open spec fn leds_pulses(buffer: Seq<RGB>, k: int) -> Seq<Pulse>
    decreases k,
{
    if k <= 0 {
        seq![]
    } else {
        leds_pulses(buffer, k - 1) + color_pulses(buffer[k - 1], 3)
    }
}

/// The whole waveform that shows `buffer`: every LED, then the reset.
pub open spec fn waveform(buffer: Seq<RGB>) -> Seq<Pulse> {
    leds_pulses(buffer, buffer.len() as int) + seq![pulse(State::Low, RESET_NS as int)]
}

/// A strip of LEDs: the colour each of them is to show, and the clock
/// speed of the controller that drives them.
pub struct Ws2812 {
    pub data_buffer: Vec<RGB>,
    pub clock_speed: u32,
}

impl Ws2812 {
    pub open spec fn wf(&self) -> bool {
        self.data_buffer@.len() <= u32::MAX
    }

    /// A dark strip of `led_count` LEDs.
    pub fn new(clock_speed: u32, led_count: usize) -> (r: Ws2812)
        requires
            led_count <= u32::MAX,
        ensures
            r.wf(),
            r.clock_speed == clock_speed,
            r.data_buffer@ == Seq::new(led_count as nat, |i: int| RGB { r: 0, g: 0, b: 0 }),
    {
        let mut buffer: Vec<RGB> = Vec::new();
        let mut i: usize = 0;
        while i < led_count
            invariant
                i <= led_count,
                buffer@ =~= Seq::new(i as nat, |j: int| RGB { r: 0, g: 0, b: 0 }),
            decreases led_count - i,
        {
            buffer.push(RGB::zero());
            i = i + 1;
        }
        Ws2812 { data_buffer: buffer, clock_speed }
    }

    /// Sets the colour of LED `led_index`.
    pub fn set_color(&mut self, rgb: RGB, led_index: u32)
        requires
            old(self).wf(),
            led_index < old(self).data_buffer@.len(),
        ensures
            final(self).wf(),
            final(self).clock_speed == old(self).clock_speed,
            final(self).data_buffer@ == old(self).data_buffer@.update(led_index as int, rgb),
    {
        self.data_buffer.set(led_index as usize, rgb);
    }

    /// The waveform that shows the buffer on the strip.
    pub fn write_leds(&self) -> (r: Vec<Pulse>)
        requires
            self.wf(),
        ensures
            r@ == waveform(self.data_buffer@),
    {
        let mut out: Vec<Pulse> = Vec::new();
        let mut i: usize = 0;
        while i < self.data_buffer.len()
            invariant
                i <= self.data_buffer@.len() <= u32::MAX,
                out@ == leds_pulses(self.data_buffer@, i as int),
            decreases self.data_buffer@.len() - i,
        {
            self.write_at(i as u32, &mut out);
            i = i + 1;
        }
        self.reset(&mut out);
        out
    }

    /// Number of LEDs of the strip.
    pub fn get_led_count(&self) -> (r: u32)
        requires
            self.wf(),
        ensures
            r == self.data_buffer@.len(),
    {
        self.data_buffer.len() as u32
    }

    /// Appends the pulses of LED `write_index`.
    pub fn write_at(&self, write_index: u32, out: &mut Vec<Pulse>)
        requires
            write_index < self.data_buffer@.len(),
        ensures
            final(out)@ == old(out)@ + color_pulses(self.data_buffer@[write_index as int], 3),
    {
        let grb_buffer: [u8; 3] = self.data_buffer[write_index as usize].get_as_buffer();
        let ghost start = out@;
        let mut j: usize = 0;
        while j < 3
            invariant
                j <= 3,
                grb_buffer@ == seq![self.data_buffer@[write_index as int].g, self.data_buffer@[write_index as int].r, self.data_buffer@[write_index as int].b],
                out@ == start + color_pulses(self.data_buffer@[write_index as int], j as int),
            decreases 3 - j,
        {
            let byte = grb_buffer[j];
            let ghost before = out@;
            let mut k: u8 = 0;
            while k < 8
                invariant
                    k <= 8,
                    out@ == before + byte_pulses(byte, k as int),
                decreases 8 - k,
            {
                if (byte >> (7 - k)) & 1 == 1 {
                    self.write_one(out);
                } else {
                    self.write_zero(out);
                }
                assert(out@ =~= before + byte_pulses(byte, k + 1));
                k = k + 1;
            }
            assert(out@ =~= start + color_pulses(self.data_buffer@[write_index as int], j + 1));
            j = j + 1;
        }
    }

    /// Appends the long low pulse that ends a frame.
    pub fn reset(&self, out: &mut Vec<Pulse>)
        ensures
            final(out)@ == old(out)@.push(pulse(State::Low, RESET_NS as int)),
    {
        let p = self.hold_pin_for_ns(RESET_NS, State::Low);
        out.push(p);
    }

    /// Busy-wait cycles for a delay of `ns` nanoseconds.
    pub fn delay_ns(&self, ns: u32) -> (r: u32)
        requires
            ns >= OVERHEAD_NS,
        ensures
            r == cycles_for(ns as int),
    {
        (ns - OVERHEAD_NS) / NS_WAIT_CLOCK_CYCLE
    }

    /// Holding the line at `state` for `ns` nanoseconds.
    pub fn hold_pin_for_ns(&self, ns: u32, state: State) -> (r: Pulse)
        requires
            ns >= OVERHEAD_NS,
        ensures
            r == pulse(state, ns as int),
    {
        Pulse { state, cycles: self.delay_ns(ns) }
    }

    /// Appends the pulses of a one bit.
    pub fn write_one(&self, out: &mut Vec<Pulse>)
        ensures
            final(out)@ == old(out)@ + bit_pulses(true),
    {
        out.push(self.hold_pin_for_ns(ONE_HIGH_NS, State::High));
        out.push(self.hold_pin_for_ns(ONE_LOW_NS, State::Low));
        assert(out@ =~= old(out)@ + bit_pulses(true));
    }

    /// Appends the pulses of a zero bit.
    pub fn write_zero(&self, out: &mut Vec<Pulse>)
        ensures
            final(out)@ == old(out)@ + bit_pulses(false),
    {
        out.push(self.hold_pin_for_ns(ZERO_HIGH_NS, State::High));
        out.push(self.hold_pin_for_ns(ZERO_LOW_NS, State::Low));
        assert(out@ =~= old(out)@ + bit_pulses(false));
    }
}

} // verus!
