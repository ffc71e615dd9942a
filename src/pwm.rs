//! Pulse width modulation on a timer with four channels: the prescaler
//! and auto-reload values that give a period, and duty cycles held within
//! the largest one the period allows.
use vstd::prelude::*;

verus! {

/// One of a timer's four output channels.
#[derive(Debug, Clone, Copy, PartialEq, Eq, Structural)]
pub struct Channel(pub u8);

/// The prescaler for a period of `ticks` timer clocks: how many times the
/// 16-bit counter must be slowed down, less one.
pub open spec fn prescaler(ticks: int) -> int {
    (ticks - 1) / 0x1_0000
}

/// The auto-reload value for `ticks` timer clocks, kept to its 16 bits.
pub open spec fn auto_reload(ticks: int) -> int {
    (ticks / (prescaler(ticks) + 1)) % 0x1_0000
}

/// The state of a PWM timer.
pub struct PwmTimer {
    /// Frequency of the clock that drives the timer, in hertz.
    pub timer_clock: u32,
    pub max_duty_cycle: u16,
    /// Frequency of the PWM period, in hertz.
    pub period: u32,
    pub duty: [u16; 4],
    /// Which channels have a pin.
    pub channels: [bool; 4],
}

impl PwmTimer {
    /// A stopped timer driven at `timer_clock`, with pins on the given
    /// channels.
    pub fn new(timer_clock: u32, channels: [bool; 4]) -> (r: PwmTimer)
        ensures
            r.timer_clock == timer_clock,
            r.max_duty_cycle == 0,
            r.period == 0,
            r.duty@ == seq![0u16, 0u16, 0u16, 0u16],
            r.channels == channels,
    {
        let r = PwmTimer { timer_clock, max_duty_cycle: 0, period: 0, duty: [0; 4], channels };
        assert(r.duty@ =~= seq![0u16, 0u16, 0u16, 0u16]);
        r
    }

    /// Whether `channel` has a pin, so that enabling or disabling it
    /// touches the timer.
    pub fn enable(&self, channel: Channel) -> (r: bool)
        ensures
            r == (channel.0 < 4 && self.channels@[channel.0 as int]),
    {
        channel.0 < 4 && self.channels[channel.0 as usize]
    }

    /// Whether `channel` has a pin, so that disabling it touches the timer.
    pub fn disable(&self, channel: Channel) -> (r: bool)
        ensures
            r == (channel.0 < 4 && self.channels@[channel.0 as int]),
    {
        self.enable(channel)
    }

    /// The frequency of the period.
    pub fn get_period(&self) -> (r: u32)
        ensures
            r == self.period,
    {
        self.period
    }

    /// The duty cycle of `channel`.
    pub fn get_duty(&self, channel: Channel) -> (r: u16)
        requires
            channel.0 < 4,
        ensures
            r == self.duty@[channel.0 as int],
    {
        self.duty[channel.0 as usize]
    }

    /// The largest duty cycle, which is a whole period.
    pub fn get_max_duty(&self) -> (r: u16)
        ensures
            r == self.max_duty_cycle,
    {
        self.max_duty_cycle
    }

    /// Sets the duty cycle of `channel`, no longer than a whole period;
    /// returns the compare value to write when the channel has a pin.
    pub fn set_duty(&mut self, channel: Channel, duty: u16) -> (r: Option<u16>)
        requires
            channel.0 < 4,
        ensures
            final(self).duty@ == old(self).duty@.update(
                channel.0 as int,
                if duty > old(self).max_duty_cycle { old(self).max_duty_cycle } else { duty },
            ),
            final(self).max_duty_cycle == old(self).max_duty_cycle,
            final(self).period == old(self).period,
            final(self).timer_clock == old(self).timer_clock,
            final(self).channels == old(self).channels,
            r == if old(self).channels@[channel.0 as int] {
                Some(final(self).duty@[channel.0 as int])
            } else {
                None
            },
    {
        let mut duty = duty;
        if duty > self.max_duty_cycle {
            duty = self.max_duty_cycle;
        }
        self.duty[channel.0 as usize] = duty;
        if self.channels[channel.0 as usize] {
            Some(duty)
        } else {
            None
        }
    }

    /// Sets the period to `freq` hertz; returns the prescaler and
    /// auto-reload values to write. The auto-reload value also becomes the
    /// largest duty cycle.
    pub fn set_period(&mut self, freq: u32) -> (r: (u16, u16))
        requires
            0 < freq <= old(self).timer_clock,
            old(self).timer_clock / freq <= 0xFFFF_0000,
        ensures
            r.0 == prescaler((old(self).timer_clock / freq) as int),
            r.1 == auto_reload((old(self).timer_clock / freq) as int),
            final(self).max_duty_cycle == r.1,
            final(self).period == freq,
            final(self).timer_clock == old(self).timer_clock,
            final(self).duty == old(self).duty,
            final(self).channels == old(self).channels,
    {
        let ticks = self.timer_clock / freq;
        assert(ticks >= 1) by (nonlinear_arith)
            requires ticks == self.timer_clock / freq, 0 < freq <= self.timer_clock;
        let psc = ((ticks - 1) / 0x1_0000) as u16;
        let car = ((ticks / ((psc + 1) as u32)) % 0x1_0000) as u16;
        self.max_duty_cycle = car;
        self.period = freq;
        (psc, car)
    }
}

} // verus!
