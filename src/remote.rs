//! The serial link from the second player's board: after the header
//! `DATA` come four bytes, the joystick offsets and the two buttons.
use vstd::prelude::*;

use crate::nunchuk::ControllerInput;

verus! {

/// The bytes that announce a reading: `DATA`.
pub const INCOMING_DATA_HEADER: [u8; 4] = [68, 65, 84, 65];

/// Bytes of a reading after the header.
pub const INCOMING_DATA_LEN: i8 = 4;

pub open spec fn header() -> Seq<u8> {
    seq![68u8, 65u8, 84u8, 65u8]
}

/// A byte read as a two's complement number.
pub open spec fn to_signed(b: u8) -> i8 {
    if b < 128 {
        b as i8
    } else {
        (b - 256) as i8
    }
}

/// A joystick offset as the other board reports it: far to one side is
/// taken as far to the other.
pub open spec fn remap(j: i8) -> i8 {
    if j > 100 {
        -120i8
    } else if j < -100 {
        120i8
    } else {
        j
    }
}

/// The reading that the four data bytes stand for.
pub open spec fn frame_input(data: Seq<u8>) -> ControllerInput {
    ControllerInput {
        joy_x: remap(to_signed(data[0])),
        joy_y: remap(to_signed(data[1])),
        accel_x: 0,
        accel_y: 0,
        accel_z: 0,
        btn_z: data[2],
        btn_c: data[3],
    }
}

/// One byte through the receiver: while the index is negative the header
/// is awaited (a wrong byte starts it over), then the data bytes are
/// stored, and the fourth completes a reading.
pub open spec fn step(index: int, data: Seq<u8>, byte: u8) -> (int, Seq<u8>, Option<ControllerInput>) {
    if index < 0 {
        if byte == header()[index + 4] {
            (index + 1, data, None)
        } else {
            (-4, data, None)
        }
    } else {
        let d = data.update(index, byte);
        if index + 1 == INCOMING_DATA_LEN {
            (-4, d, Some(frame_input(d)))
        } else {
            (index + 1, d, None)
        }
    }
}

/// The first `k` bytes through the receiver: its state, and the last
/// reading completed, if any.
pub open spec fn run(index: int, data: Seq<u8>, bytes: Seq<u8>, k: int) -> (int, Seq<u8>, Option<ControllerInput>)
    decreases k,
{
    if k <= 0 {
        (index, data, None)
    } else {
        let (i, d, last) = run(index, data, bytes, k - 1);
        let (i2, d2, got) = step(i, d, bytes[k - 1]);
        (i2, d2, if got is Some { got } else { last })
    }
}

/// The state of the link between bytes.
pub struct RemoteReceiver {
    /// From -4 to -1 while the header is awaited, then the number of data
    /// bytes received.
    pub index: i8,
    pub data: [u8; 4],
}

impl RemoteReceiver {
    pub open spec fn wf(&self) -> bool {
        -4 <= self.index < INCOMING_DATA_LEN
    }

    /// A receiver that awaits a header.
    pub fn new() -> (r: RemoteReceiver)
        ensures
            r.wf(),
            r.index == -4,
            r.data@ == seq![0u8, 0u8, 0u8, 0u8],
    {
        let r = RemoteReceiver { index: -4, data: [0; 4] };
        assert(r.data@ =~= seq![0u8, 0u8, 0u8, 0u8]);
        r
    }

    /// Takes one byte; returns the reading it completes, if any.
    pub fn feed(&mut self, byte: u8) -> (r: Option<ControllerInput>)
        requires
            old(self).wf(),
        ensures
            final(self).wf(),
            (final(self).index as int, final(self).data@, r) == step(old(self).index as int, old(self).data@, byte),
    {
        if self.index < 0 {
            let expected = INCOMING_DATA_HEADER[(self.index + 4) as usize];
            assert(INCOMING_DATA_HEADER@ =~= header());
            if byte == expected {
                self.index = self.index + 1;
            } else {
                self.index = -4;
            }
            None
        } else {
            self.data[self.index as usize] = byte;
            self.index = self.index + 1;
            if self.index == INCOMING_DATA_LEN {
                self.index = -4;
                let joy_x = remap_joy(signed(self.data[0]));
                let joy_y = remap_joy(signed(self.data[1]));
                Some(ControllerInput { joy_x, joy_y, accel_x: 0, accel_y: 0, accel_z: 0, btn_z: self.data[2], btn_c: self.data[3] })
            } else {
                None
            }
        }
    }
}

fn signed(b: u8) -> (r: i8)
    ensures
        r == to_signed(b),
{
    if b < 128 {
        b as i8
    } else {
        (b as i16 - 256) as i8
    }
}

fn remap_joy(j: i8) -> (r: i8)
    ensures
        r == remap(j),
{
    if j > 100 {
        -120
    } else if j < -100 {
        120
    } else {
        j
    }
}

/// Passes the bytes that have arrived through the receiver and returns the
/// last reading they complete, if any.
pub fn read_remote_joy(receiver: &mut RemoteReceiver, bytes: &Vec<u8>) -> (r: Option<ControllerInput>)
    requires
        old(receiver).wf(),
    ensures
        final(receiver).wf(),
        (final(receiver).index as int, final(receiver).data@, r) == run(old(receiver).index as int, old(receiver).data@, bytes@, bytes@.len() as int),
{
    let mut input: Option<ControllerInput> = None;
    let mut k: usize = 0;
    while k < bytes.len()
        invariant
            k <= bytes.len(),
            receiver.wf(),
            (receiver.index as int, receiver.data@, input) == run(old(receiver).index as int, old(receiver).data@, bytes@, k as int),
        decreases bytes.len() - k,
    {
        let got = receiver.feed(bytes[k]);
        if got.is_some() {
            input = got;
        }
        k = k + 1;
    }
    input
}

/// A byte holding a number as two's complement.
fn unsigned(j: i8) -> (r: u8)
    ensures
        to_signed(r) == j,
        r == twos_complement(j),
{
    if j >= 0 {
        j as u8
    } else {
        (j as i16 + 256) as u8
    }
}

/// The frame that carries a reading to the other board: the header, the
/// joystick offsets and the two buttons, then `END` and a line break.
pub fn encode_remote_input(input: ControllerInput) -> (r: Vec<u8>)
    ensures
        r@ == header() + seq![twos_complement(input.joy_x), twos_complement(input.joy_y), input.btn_z, input.btn_c]
            + seq![69u8, 78u8, 68u8, 10u8],
{
    let mut out: Vec<u8> = Vec::new();
    let mut k: usize = 0;
    while k < 4
        invariant
            k <= 4,
            out@ == header().subrange(0, k as int),
        decreases 4 - k,
    {
        assert(INCOMING_DATA_HEADER@ =~= header());
        out.push(INCOMING_DATA_HEADER[k]);
        assert(out@ =~= header().subrange(0, k + 1));
        k = k + 1;
    }
    out.push(unsigned(input.joy_x));
    out.push(unsigned(input.joy_y));
    out.push(input.btn_z);
    out.push(input.btn_c);
    out.push(69);
    out.push(78);
    out.push(68);
    out.push(10);
    assert(out@ =~= header() + seq![twos_complement(input.joy_x), twos_complement(input.joy_y), input.btn_z, input.btn_c]
        + seq![69u8, 78u8, 68u8, 10u8]);
    out
}

/// The byte that holds `j` as two's complement.
pub open spec fn twos_complement(j: i8) -> u8 {
    if j >= 0 {
        j as u8
    } else {
        (j + 256) as u8
    }
}

} // verus!
