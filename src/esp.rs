//! The logic of the Wi-Fi adapter that relays the serial link over TCP:
//! register values for pin set-up, the buffer of bytes waiting to be sent,
//! and numbers written out as text on the debug line.
use vstd::prelude::*;

verus! {

/// Pull-up bit of a pin's multiplexer register.
pub const PERIPHS_IO_MUX_PULLUP: u32 = 0x0000_0080;

/// Function-select bits of a pin's multiplexer register, before the shift.
pub const PERIPHS_IO_MUX_FUNC: u32 = 0x13;

/// Shift of the function-select bits.
pub const PERIPHS_IO_MUX_FUNC_S: u32 = 4;

/// Capacity of the send buffer.
pub const SEND_BUFFER_SIZE: usize = 100;

/// A register value with the bits of `mask` cleared.
pub fn clear_peri_reg_mask(value: u32, mask: u32) -> (r: u32)
    ensures
        r == value & !mask,
{
    value & !mask
}

/// A register value with the bits of `mask` set.
pub fn set_peri_reg_mask(value: u32, mask: u32) -> (r: u32)
    ensures
        r == value | mask,
{
    value | mask
}

/// A pin's multiplexer register with its pull-up off.
pub fn pin_pullup_dis(value: u32) -> (r: u32)
    ensures
        r == value & !PERIPHS_IO_MUX_PULLUP,
{
    clear_peri_reg_mask(value, PERIPHS_IO_MUX_PULLUP)
}

/// A pin's multiplexer register with its pull-up on.
pub fn pin_pullup_en(value: u32) -> (r: u32)
    ensures
        r == value | PERIPHS_IO_MUX_PULLUP,
{
    set_peri_reg_mask(value, PERIPHS_IO_MUX_PULLUP)
}

/// The function-select field for function `func`: its bit 2 goes to bit 4
/// of the field, its bits 0 and 1 stay.
pub open spec fn func_field(func: u32) -> u32 {
    ((((func & 4u32) << 2u32) | (func & 3u32)) << PERIPHS_IO_MUX_FUNC_S) as u32
}

/// A pin's multiplexer register switched to function `func`.
pub fn pin_func_select(value: u32, func: u32) -> (r: u32)
    ensures
        r == (value & !(PERIPHS_IO_MUX_FUNC << PERIPHS_IO_MUX_FUNC_S)) | func_field(func),
{
    (value & !(PERIPHS_IO_MUX_FUNC << PERIPHS_IO_MUX_FUNC_S)) | ((((func & 0x0000_0004) << 2) | (func & 0x3)) << PERIPHS_IO_MUX_FUNC_S)
}

/// Bytes waiting to go out over the connection.
pub struct SendBuffer {
    pub data: Vec<u8>,
}

impl SendBuffer {
    pub open spec fn wf(&self) -> bool {
        self.data@.len() < SEND_BUFFER_SIZE
    }

    pub fn new() -> (r: SendBuffer)
        ensures
            r.wf(),
            r.data@ == Seq::<u8>::empty(),
    {
        SendBuffer { data: Vec::new() }
    }

    /// Adds a byte; a full buffer is sent at once. Returns what is to be
    /// sent, if anything: the whole buffer when it is full and a
    /// connection is open.
    pub fn writechr(&mut self, val: u8, connected: bool) -> (r: Option<Vec<u8>>)
        requires
            old(self).wf(),
        ensures
            final(self).wf(),
            old(self).data@.len() + 1 < SEND_BUFFER_SIZE ==> final(self).data@ == old(self).data@.push(val) && r is None,
            old(self).data@.len() + 1 == SEND_BUFFER_SIZE ==> final(self).data@ == Seq::<u8>::empty(),
            old(self).data@.len() + 1 == SEND_BUFFER_SIZE ==> match r {
                Some(v) => connected && v@ == old(self).data@.push(val),
                None => !connected,
            },
    {
        self.data.push(val);
        if self.data.len() == SEND_BUFFER_SIZE {
            self.sendbuf(connected)
        } else {
            None
        }
    }

    /// Empties the buffer. Returns what is to be sent: the bytes held, when
    /// there are any and a connection is open.
    pub fn sendbuf(&mut self, connected: bool) -> (r: Option<Vec<u8>>)
        ensures
            final(self).wf(),
            final(self).data@ == Seq::<u8>::empty(),
            match r {
                Some(v) => connected && old(self).data@.len() != 0 && v@ == old(self).data@,
                None => !connected || old(self).data@.len() == 0,
            },
    {
        let mut out: Vec<u8> = Vec::new();
        core::mem::swap(&mut self.data, &mut out);
        if connected && out.len() != 0 {
            Some(out)
        } else {
            None
        }
    }
}

/// The decimal digits of `n`, as ASCII.
pub open spec fn digits(n: nat) -> Seq<u8>
    decreases n,
{
    if n < 10 {
        seq![(48 + n) as u8]
    } else {
        digits(n / 10).push((48 + n % 10) as u8)
    }
}

/// A number as decimal text, with a leading minus sign when negative.
pub open spec fn number_text(input: int) -> Seq<u8> {
    if input < 0 {
        seq![45u8] + digits((-input) as nat)
    } else {
        digits(input as nat)
    }
}

/// The text that writes a number on the debug line.
pub fn writenum(input: i32) -> (r: Vec<u8>)
    ensures
        r@ == number_text(input as int),
{
    let mut m: u64 = if input < 0 { (0 - input as i64) as u64 } else { input as u64 };
    let ghost n = m as nat;
    assert(n == if input < 0 { -input } else { input as int });
    let mut out: Vec<u8> = Vec::new();
    while m >= 10
        invariant
            digits(n) == digits(m as nat) + out@,
            m <= n,
        decreases m,
    {
        let d = (48 + m % 10) as u8;
        out.insert(0, d);
        assert(digits(m as nat) == digits((m / 10) as nat).push(d));
        assert(digits(n) =~= digits((m / 10) as nat) + out@);
        m = m / 10;
    }
    out.insert(0, (48 + m) as u8);
    assert(digits(n) =~= out@);
    if input < 0 {
        out.insert(0, 45);
    }
    out
}

} // verus!
