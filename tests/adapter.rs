use ledgame::esp::{
    clear_peri_reg_mask, pin_func_select, pin_pullup_dis, pin_pullup_en, set_peri_reg_mask, writenum, SendBuffer,
    SEND_BUFFER_SIZE,
};

#[test]
fn register_masks() {
    assert_eq!(clear_peri_reg_mask(0xFF, 0x0F), 0xF0);
    assert_eq!(set_peri_reg_mask(0xF0, 0x0F), 0xFF);
    assert_eq!(pin_pullup_dis(0xFFFF_FFFF), 0xFFFF_FF7F);
    assert_eq!(pin_pullup_en(0), 0x80);
}

#[test]
fn function_select_field() {
    assert_eq!(pin_func_select(0xFFFF_FFFF, 0), 0xFFFF_FECF);
    assert_eq!(pin_func_select(0, 5), 0x110);
    assert_eq!(pin_func_select(0x0000_0130, 3), 0x30);
}

#[test]
fn full_buffer_goes_out_when_connected() {
    let mut buf = SendBuffer::new();
    for i in 0..(SEND_BUFFER_SIZE - 1) {
        assert_eq!(buf.writechr(i as u8, true), None);
    }
    let sent = buf.writechr(0xAA, true).unwrap();
    assert_eq!(sent.len(), SEND_BUFFER_SIZE);
    assert_eq!(sent[0], 0);
    assert_eq!(sent[SEND_BUFFER_SIZE - 1], 0xAA);
    assert!(buf.data.is_empty());
}

#[test]
fn buffer_is_dropped_without_a_connection() {
    let mut buf = SendBuffer::new();
    buf.writechr(1, false);
    buf.writechr(2, false);
    assert_eq!(buf.sendbuf(false), None);
    assert!(buf.data.is_empty());
    assert_eq!(buf.sendbuf(true), None);
    buf.writechr(3, true);
    assert_eq!(buf.sendbuf(true), Some(vec![3]));
}

#[test]
fn numbers_as_text() {
    assert_eq!(writenum(0), b"0".to_vec());
    assert_eq!(writenum(7), b"7".to_vec());
    assert_eq!(writenum(-45), b"-45".to_vec());
    assert_eq!(writenum(1_234_567), b"1234567".to_vec());
    assert_eq!(writenum(i32::MAX), b"2147483647".to_vec());
    assert_eq!(writenum(i32::MIN), b"-2147483648".to_vec());
}

use ledgame::pwm::{Channel, PwmTimer};

#[test]
fn pwm_period_registers() {
    let mut t = PwmTimer::new(108_000_000, [true, false, true, true]);
    assert_eq!(t.set_period(1000), (1, 54_000));
    assert_eq!(t.get_max_duty(), 54_000);
    assert_eq!(t.get_period(), 1000);
    let mut exact = PwmTimer::new(65_536 * 100, [true; 4]);
    // an auto-reload of a full 16-bit count wraps to zero
    assert_eq!(exact.set_period(100), (0, 0));
    assert_eq!(exact.set_period(200), (0, 32_768));
}

#[test]
fn pwm_duty_is_held_within_the_period() {
    let mut t = PwmTimer::new(108_000_000, [true, false, true, true]);
    t.set_period(1000);
    assert_eq!(t.set_duty(Channel(0), 60_000), Some(54_000));
    assert_eq!(t.get_duty(Channel(0)), 54_000);
    assert_eq!(t.set_duty(Channel(1), 100), None);
    assert_eq!(t.get_duty(Channel(1)), 100);
    assert!(!t.enable(Channel(1)));
    assert!(t.enable(Channel(2)));
    assert!(!t.disable(Channel(7)));
}
