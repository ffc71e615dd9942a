use ledgame::gameboard::{Gameboard, PIXEL_COUNT};
use ledgame::nunchuk::{ControllerInput, Nunchuk, NUNCHUK_ADDRESS};
use ledgame::remote::{read_remote_joy, RemoteReceiver};
use ledgame::scoreboard::ScoreBoard;
use ledgame::ws2812::{Pulse, State, Ws2812, RGB};

const RED: RGB = RGB { r: 255, g: 0, b: 0 };
const BLUE: RGB = RGB { r: 0, g: 0, b: 255 };

fn one_bit() -> [Pulse; 2] {
    [Pulse { state: State::High, cycles: 22 }, Pulse { state: State::Low, cycles: 10 }]
}

fn zero_bit() -> [Pulse; 2] {
    [Pulse { state: State::High, cycles: 8 }, Pulse { state: State::Low, cycles: 24 }]
}

#[test]
fn rgb_buffer_order_is_green_red_blue() {
    let c = RGB { r: 1, g: 2, b: 3 };
    assert_eq!(c.get_as_buffer(), [2, 1, 3]);
    assert_eq!(RGB::zero(), RGB { r: 0, g: 0, b: 0 });
}

#[test]
fn strip_waveform_sends_bits_most_significant_first() {
    let mut ws = Ws2812::new(108_000_000, 1);
    assert_eq!(ws.get_led_count(), 1);
    ws.set_color(RGB { r: 0x80, g: 0x01, b: 0x00 }, 0);
    let wave = ws.write_leds();
    assert_eq!(wave.len(), 24 * 2 + 1);
    // green 0x01: seven zeros, then a one
    for k in 0..7 {
        assert_eq!(wave[2 * k..2 * k + 2], zero_bit());
    }
    assert_eq!(wave[14..16], one_bit());
    // red 0x80: a one, then seven zeros
    assert_eq!(wave[16..18], one_bit());
    assert_eq!(wave[18..20], zero_bit());
    assert_eq!(wave[48], Pulse { state: State::Low, cycles: 134 });
}

#[test]
fn delay_cycles_take_off_the_overhead() {
    let ws = Ws2812::new(108_000_000, 0);
    assert_eq!(ws.delay_ns(30), 0);
    assert_eq!(ws.delay_ns(850), 22);
    assert_eq!(ws.delay_ns(5000), 134);
    assert_eq!(ws.write_leds(), vec![Pulse { state: State::Low, cycles: 134 }]);
}

#[test]
fn gameboard_runs_back_and_forth() {
    let mut board = Gameboard::new(Ws2812::new(108_000_000, PIXEL_COUNT));
    board.set_color(3, 0, RED);
    board.set_color(3, 1, BLUE);
    assert_eq!(board.ws.data_buffer[3], RED);
    assert_eq!(board.ws.data_buffer[16 + 15 - 3], BLUE);
    assert_eq!(board.get_color(3, 1), BLUE);
    assert_eq!(board.get_color(16, 1), RGB::zero());
    board.set_color(16, 0, RED);
    assert_eq!(board.get_color(0, 0), RGB::zero());
}

#[test]
fn gameboard_swap_exchanges_colors() {
    let mut board = Gameboard::new(Ws2812::new(108_000_000, PIXEL_COUNT));
    board.set_color(1, 2, RED);
    board.set_color(4, 5, BLUE);
    board.swap(1, 2, 4, 5);
    assert_eq!(board.get_color(1, 2), BLUE);
    assert_eq!(board.get_color(4, 5), RED);
    assert_eq!(board.ws.data_buffer[2 * 16 + 1], BLUE);
    board.swap(1, 2, 20, 5);
    assert_eq!(board.get_color(1, 2), BLUE);
}

#[test]
fn flush_blanks_then_redraws() {
    let mut board = Gameboard::new(Ws2812::new(108_000_000, PIXEL_COUNT));
    board.set_color(2, 3, RED);
    board.set_color_in_buffer(5, 5, BLUE);
    let wave = board.flush();
    assert_eq!(wave.len(), 2 * (PIXEL_COUNT * 48 + 1));
    assert_eq!(board.ws.data_buffer[3 * 16 + 15 - 2], RED);
    assert_eq!(board.ws.data_buffer[5 * 16 + 15 - 5], RGB::zero());
    assert_eq!(board.update_matrix().len(), PIXEL_COUNT * 48 + 1);
}

#[test]
fn score_lights_a_share_of_the_strip() {
    let mut sb = ScoreBoard::new(5);
    assert_eq!(sb.score, 0);
    assert_eq!(sb.score_to_colors(), vec![RED, RGB::zero(), RGB::zero(), RGB::zero(), RGB::zero()]);
    let wave = sb.add_score(3);
    assert_eq!(wave.len(), 5 * 48 + 1);
    assert_eq!(sb.score, 3);
    assert_eq!(sb.ws.data_buffer, vec![RED, RED, RED, RED, RGB::zero()]);
    sb.add_score(10);
    assert_eq!(sb.score, 5);
    assert_eq!(sb.ws.data_buffer, vec![RED; 5]);
    sb.delete_score(7);
    assert_eq!(sb.score, 0);
    sb.add_score(2);
    sb.delete_score(1);
    assert_eq!(sb.score, 1);
    assert_eq!(sb.ws.data_buffer, vec![RED, RED, RGB::zero(), RGB::zero(), RGB::zero()]);
}

#[test]
fn score_with_zero_maximum() {
    let mut sb = ScoreBoard::new(0);
    sb.add_score(4);
    assert_eq!(sb.score, 0);
    assert_eq!(sb.score_to_colors()[0], RED);
    assert_eq!(sb.score_to_colors()[1], RGB::zero());
}

#[test]
fn nunchuk_protocol_bytes() {
    let n = Nunchuk::new();
    assert_eq!(n.address, NUNCHUK_ADDRESS);
    assert_eq!(n.init_nunchuk(), [0x40, 0x00]);
    assert_eq!(n.request_input(), 0);
    assert_eq!(n.read_input([0x00, 0x17, 0xFF, 0x28, 0, 0]), [0x2E, 0x17, 0xFF, 0x56, 0x2E, 0x2E]);
}

#[test]
fn nunchuk_decodes_a_reading() {
    let n = Nunchuk::new();
    let input = n.decode_input([127, 255, 100, 50, 20, 0b1011_0110]);
    assert_eq!(
        input,
        ControllerInput { joy_x: 0, joy_y: -128, accel_x: 101, accel_y: 53, accel_z: 22, btn_z: 1, btn_c: 0 }
    );
    let idle = n.decode_input([0, 200, 0, 0, 0, 0b0000_0001]);
    assert_eq!(idle.joy_x, -127);
    assert_eq!(idle.joy_y, 73);
    assert_eq!(idle.btn_z, 0);
    assert_eq!(idle.btn_c, 1);
}

#[test]
fn nunchuk_input_descrambles_then_decodes() {
    let n = Nunchuk::new();
    let raw = [0x00, 0x17, 0x00, 0x00, 0x00, 0x17];
    assert_eq!(n.get_input(raw), n.decode_input(n.read_input(raw)));
    assert_eq!(n.get_input(raw).joy_x, 0x2E - 127);
}

#[test]
fn remote_reading_after_header() {
    let mut rx = RemoteReceiver::new();
    let bytes = vec![b'x', b'D', b'A', b'T', b'A', 5, 200, 1, 0];
    let got = read_remote_joy(&mut rx, &bytes);
    assert_eq!(got, Some(ControllerInput { joy_x: 5, joy_y: -56, accel_x: 0, accel_y: 0, accel_z: 0, btn_z: 1, btn_c: 0 }));
    assert_eq!(rx.index, -4);
}

#[test]
fn remote_far_joystick_is_turned_around() {
    let mut rx = RemoteReceiver::new();
    let got = read_remote_joy(&mut rx, &vec![b'D', b'A', b'T', b'A', 120, 140, 0, 1]);
    let input = got.unwrap();
    assert_eq!(input.joy_x, -120);
    assert_eq!(input.joy_y, 120);
}

#[test]
fn remote_wrong_header_byte_starts_over() {
    let mut rx = RemoteReceiver::new();
    assert_eq!(read_remote_joy(&mut rx, &vec![b'D', b'A', b'X', b'T', b'A', 1, 2, 3, 4]), None);
    assert_eq!(rx.index, -4);
    assert_eq!(rx.feed(b'D'), None);
    assert_eq!(rx.index, -3);
}

#[test]
fn remote_reading_split_over_calls_keeps_the_last() {
    let mut rx = RemoteReceiver::new();
    assert_eq!(read_remote_joy(&mut rx, &vec![b'D', b'A', b'T', b'A', 1, 2]), None);
    assert_eq!(rx.index, 2);
    let got = read_remote_joy(&mut rx, &vec![0, 0, b'D', b'A', b'T', b'A', 9, 9, 1, 1]);
    assert_eq!(got.unwrap().joy_x, 9);
}

#[test]
fn encoded_reading_crosses_the_link() {
    let input = ControllerInput { joy_x: -56, joy_y: 7, accel_x: 3, accel_y: 4, accel_z: 5, btn_z: 1, btn_c: 1 };
    let frame = ledgame::remote::encode_remote_input(input);
    assert_eq!(frame, b"DATA\xC8\x07\x01\x01END\n".to_vec());
    let mut rx = RemoteReceiver::new();
    let got = read_remote_joy(&mut rx, &frame).unwrap();
    assert_eq!(got, ControllerInput { joy_x: -56, joy_y: 7, accel_x: 0, accel_y: 0, accel_z: 0, btn_z: 1, btn_c: 1 });
}
