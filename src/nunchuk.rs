//! The Nunchuk controller's protocol: the bytes that set it up and ask for
//! a reading, and the decoding of the six bytes of a reading.
use vstd::prelude::*;

verus! {

/// Bus address of the controller.
pub const NUNCHUK_ADDRESS: u8 = 0x52;

/// One reading of the controller. A button reads 1 when pressed.
#[derive(Debug, Clone, Copy, PartialEq, Eq, Structural)]
pub struct ControllerInput {
    pub joy_x: i8,
    pub joy_y: i8,
    pub accel_x: i16,
    pub accel_y: i16,
    pub accel_z: i16,
    pub btn_z: u8,
    pub btn_c: u8,
}

/// Bit `k` of a byte, counting from the least significant.
pub open spec fn bit(byte: u8, k: u8) -> bool {
    (byte >> k) & 1u8 != 0
}

/// A joystick byte, centred on 127, as a signed offset (the byte 255 wraps
/// to -128).
pub open spec fn joy_offset(byte: u8) -> i8 {
    if byte == 255 {
        -128i8
    } else {
        (byte - 127) as i8
    }
}

/// An acceleration: the high byte and two low bits from the last byte.
pub open spec fn accel(high: u8, last: u8, low_bit: u8) -> i16 {
    (high + (if bit(last, low_bit) { 1int } else { 0 }) + (if bit(last, (low_bit + 1) as u8) { 2int } else { 0 })) as i16
}

/// What a raw byte of the controller stands for.
pub open spec fn descrambled(byte: u8) -> u8 {
    (((byte ^ 0x17u8) as int + 0x17) % 256) as u8
}

/// The reading that six descrambled bytes stand for.
pub open spec fn decoded(buffer: Seq<u8>) -> ControllerInput {
    ControllerInput {
        joy_x: joy_offset(buffer[0]),
        joy_y: joy_offset(buffer[1]),
        accel_x: accel(buffer[2], buffer[5], 2),
        accel_y: accel(buffer[3], buffer[5], 4),
        accel_z: accel(buffer[4], buffer[5], 6),
        btn_z: if bit(buffer[5], 0) { 0 } else { 1 },
        btn_c: if bit(buffer[5], 1) { 0 } else { 1 },
    }
}

/// The controller's protocol.
pub struct Nunchuk {
    pub address: u8,
}

impl Nunchuk {
    /// The controller at its usual bus address.
    pub fn new() -> (r: Nunchuk)
        ensures
            r.address == NUNCHUK_ADDRESS,
    {
        Nunchuk { address: NUNCHUK_ADDRESS }
    }

    /// The reading that the raw bytes of the controller stand for.
    pub fn get_input(&self, raw: [u8; 6]) -> (r: ControllerInput)
        ensures
            r == decoded(Seq::new(6, |i: int| descrambled(raw@[i]))),
    {
        let buffer = self.read_input(raw);
        assert(buffer@ =~= Seq::new(6, |i: int| descrambled(raw@[i])));
        self.decode_input(buffer)
    }

    /// The bytes that set the controller up, to be written to its address.
    pub fn init_nunchuk(&self) -> (r: [u8; 2])
        ensures
            r@ == seq![0x40u8, 0x00u8],
    {
        let r = [0x40, 0x00];
        assert(r@ =~= seq![0x40u8, 0x00u8]);
        r
    }

    /// The byte that asks the controller to prepare the next reading.
    pub fn request_input(&self) -> (r: u8)
        ensures
            r == 0,
    {
        0x00
    }

    /// Descrambles the six raw bytes of a reading.
    pub fn read_input(&self, raw: [u8; 6]) -> (r: [u8; 6])
        ensures
            forall|i: int| 0 <= i < 6 ==> r@[i] == descrambled(raw@[i]),
    {
        let mut read_buffer = raw;
        let mut i: usize = 0;
        while i < 6
            invariant
                i <= 6,
                forall|j: int| 0 <= j < i ==> read_buffer@[j] == descrambled(raw@[j]),
                forall|j: int| i <= j < 6 ==> read_buffer@[j] == raw@[j],
            decreases 6 - i,
        {
            let current_byte = read_buffer[i];
            read_buffer[i] = (current_byte ^ 0x17).wrapping_add(0x17);
            i = i + 1;
        }
        read_buffer
    }

    /// Decodes six descrambled bytes: two joystick bytes, the high bytes of
    /// the three accelerations, then the buttons (inverted) and the low
    /// bits of the accelerations.
    pub fn decode_input(&self, buffer: [u8; 6]) -> (r: ControllerInput)
        ensures
            r == decoded(buffer@),
    {
        let mut btn_c: u8 = 1;
        let mut btn_z: u8 = 1;
        let mut accel_x: i16 = buffer[2] as i16;
        let mut accel_y: i16 = buffer[3] as i16;
        let mut accel_z: i16 = buffer[4] as i16;
        let last = buffer[5];
        if (last >> 0) & 0x01 != 0 {
            btn_z = 0;
        }
        if (last >> 1) & 0x01 != 0 {
            btn_c = 0;
        }
        if (last >> 2) & 0x01 != 0 {
            accel_x += 1;
        }
        if (last >> 3) & 0x01 != 0 {
            accel_x += 2;
        }
        if (last >> 4) & 0x01 != 0 {
            accel_y += 1;
        }
        if (last >> 5) & 0x01 != 0 {
            accel_y += 2;
        }
        if (last >> 6) & 0x01 != 0 {
            accel_z += 1;
        }
        if (last >> 7) & 0x01 != 0 {
            accel_z += 2;
        }
        let joy_x: i8 = if buffer[0] == 255 { -128 } else { (buffer[0] as i16 - 127) as i8 };
        let joy_y: i8 = if buffer[1] == 255 { -128 } else { (buffer[1] as i16 - 127) as i8 };
        ControllerInput { joy_x, joy_y, accel_x, accel_y, accel_z, btn_z, btn_c }
    }
}

} // verus!
