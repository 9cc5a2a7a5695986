use led_display::{pin_fault, Error, LedDisplay, Signal, QUANTUM_MICROS};

fn expected_transaction(bytes: &[u8]) -> Vec<Signal> {
    let mut w = vec![Signal::DataLow, Signal::Delay];
    for &byte in bytes {
        for bit in 0..8 {
            w.push(Signal::ClockLow);
            w.push(Signal::Delay);
            if (byte >> bit) & 1 == 1 {
                w.push(Signal::DataHigh);
            } else {
                w.push(Signal::DataLow);
            }
            w.push(Signal::Delay);
            w.push(Signal::ClockHigh);
            w.push(Signal::Delay);
        }
        w.extend_from_slice(&[
            Signal::ClockLow,
            Signal::Delay,
            Signal::ClockHigh,
            Signal::Delay,
            Signal::Delay,
            Signal::ClockLow,
            Signal::Delay,
        ]);
    }
    w.extend_from_slice(&[
        Signal::DataLow,
        Signal::Delay,
        Signal::ClockHigh,
        Signal::Delay,
        Signal::DataHigh,
        Signal::Delay,
    ]);
    w
}

fn display() -> LedDisplay<u8, u8> {
    LedDisplay::new(1, 2)
}

fn paced(w: &[Signal]) -> bool {
    w.iter().enumerate().all(|(i, s)| *s == Signal::Delay || w.get(i + 1) == Some(&Signal::Delay))
}

#[test]
fn new_keeps_pins() {
    let d = LedDisplay::new(7u8, 9u16);
    assert_eq!(d.clk, 7);
    assert_eq!(d.dio, 9);
}

#[test]
fn control_byte_for_each_level() {
    assert_eq!(LedDisplay::<u8, u8>::control_byte(0), 0x80);
    for level in 1..=8u8 {
        assert_eq!(LedDisplay::<u8, u8>::control_byte(level), 0x88 | (level - 1));
    }
    assert_eq!(LedDisplay::<u8, u8>::control_byte(1), 0x88);
    assert_eq!(LedDisplay::<u8, u8>::control_byte(8), 0x8f);
    assert_eq!(LedDisplay::<u8, u8>::control_byte(9), 0x8f);
    assert_eq!(LedDisplay::<u8, u8>::control_byte(255), 0x8f);
}

#[test]
fn segment_table() {
    let table = [0x3f, 0x06, 0x5b, 0x4f, 0x66, 0x6d, 0x7d, 0x07, 0x7f, 0x6f];
    for d in 0..10u8 {
        assert_eq!(LedDisplay::<u8, u8>::get_segments(d), table[d as usize]);
    }
    for d in 10..=255u8 {
        assert_eq!(LedDisplay::<u8, u8>::get_segments(d), 0x00);
    }
}

#[test]
fn number_digits_decimal() {
    assert_eq!(LedDisplay::<u8, u8>::number_digits(7), [0, 0, 0, 7]);
    assert_eq!(LedDisplay::<u8, u8>::number_digits(0), [0, 0, 0, 0]);
    assert_eq!(LedDisplay::<u8, u8>::number_digits(1234), [1, 2, 3, 4]);
    assert_eq!(LedDisplay::<u8, u8>::number_digits(9999), [9, 9, 9, 9]);
    assert_eq!(LedDisplay::<u8, u8>::number_digits(305), [0, 3, 0, 5]);
    for n in 0..=9999i32 {
        let d = LedDisplay::<u8, u8>::number_digits(n);
        assert!(d.iter().all(|x| *x < 10));
        let back = 1000 * d[0] as i32 + 100 * d[1] as i32 + 10 * d[2] as i32 + d[3] as i32;
        assert_eq!(back, n);
    }
}

#[test]
fn number_digits_truncates_to_low_four() {
    assert_eq!(LedDisplay::<u8, u8>::number_digits(12345), [2, 3, 4, 5]);
    assert_eq!(LedDisplay::<u8, u8>::number_digits(i32::MAX), [3, 6, 4, 7]);
}

#[test]
fn number_digits_negative_remainders_wrap() {
    assert_eq!(LedDisplay::<u8, u8>::number_digits(-12), [0, 0, 255, 254]);
    assert_eq!(LedDisplay::<u8, u8>::number_digits(i32::MIN), [253, 250, 252, 248]);
}

#[test]
fn show_number_pads_with_zeros() {
    let d = display();
    let expected = [expected_transaction(&[0x40]), expected_transaction(&[0xc0, 0x3f, 0x3f, 0x3f, 0x07])].concat();
    assert_eq!(d.show_number(7), expected);
}

#[test]
fn show_number_negative_shows_blank() {
    let d = display();
    let expected = [expected_transaction(&[0x40]), expected_transaction(&[0xc0, 0x3f, 0x3f, 0x00, 0x00])].concat();
    assert_eq!(d.show_number(-12), expected);
}

#[test]
fn show_digits_one_to_four() {
    let d = display();
    let expected = [
        expected_transaction(&[0x40]),
        expected_transaction(&[0xc0, 0x06, 0x5b, 0x4f, 0x66]),
    ]
    .concat();
    assert_eq!(d.show_digits(&[1, 2, 3, 4]), expected);
}

#[test]
fn show_digits_twice_is_identical() {
    let d = display();
    let first = d.show_digits(&[8, 0, 4, 2]);
    let second = d.show_digits(&[8, 0, 4, 2]);
    assert_eq!(first, second);
}

#[test]
fn show_digits_blank_for_non_digits() {
    let d = display();
    let expected = [expected_transaction(&[0x40]), expected_transaction(&[0xc0, 0x00, 0x3f, 0x00, 0x6f])].concat();
    assert_eq!(d.show_digits(&[10, 0, 200, 9]), expected);
}

#[test]
fn show_segment_addresses() {
    let d = display();
    for pos in 0..4u8 {
        let expected = [expected_transaction(&[0x44]), expected_transaction(&[0xc0 + pos, 0x5b])].concat();
        assert_eq!(d.show_segment(0x5b, pos), expected);
    }
}

#[test]
fn show_segment_out_of_range_is_empty() {
    let d = display();
    assert!(d.show_segment(0x5b, 4).is_empty());
    assert!(d.show_segment(0xff, 255).is_empty());
}

#[test]
fn set_brightness_sends_control_byte() {
    let d = display();
    assert_eq!(d.set_brightness(0), expected_transaction(&[0x80]));
    assert_eq!(d.set_brightness(5), expected_transaction(&[0x8c]));
    assert_eq!(d.set_brightness(8), expected_transaction(&[0x8f]));
    assert_eq!(d.set_brightness(20), expected_transaction(&[0x8f]));
}

#[test]
fn bytes_go_least_significant_bit_first() {
    let d = display();
    let w = d.set_brightness(0);
    let data: Vec<Signal> = (0..8).map(|bit| w[2 + 6 * bit + 2]).collect();
    let mut expected = vec![Signal::DataLow; 7];
    expected.push(Signal::DataHigh);
    assert_eq!(data, expected);
}

#[test]
fn transaction_framing() {
    let d = display();
    let w = d.set_brightness(3);
    assert_eq!(w.len(), 2 + 8 * 6 + 7 + 6);
    assert_eq!(&w[..2], &[Signal::DataLow, Signal::Delay]);
    assert_eq!(
        &w[w.len() - 6..],
        &[Signal::DataLow, Signal::Delay, Signal::ClockHigh, Signal::Delay, Signal::DataHigh, Signal::Delay]
    );
}

#[test]
fn every_change_is_followed_by_a_quantum() {
    let d = display();
    assert!(paced(&d.set_brightness(4)));
    assert!(paced(&d.show_digits(&[1, 2, 3, 4])));
    assert!(paced(&d.show_segment(0x7f, 2)));
    assert!(paced(&d.show_number(4321)));
    assert_eq!(QUANTUM_MICROS, 5);
}

#[test]
fn faults_name_the_pin() {
    assert_eq!(pin_fault(Signal::ClockHigh), Error::ClockPin);
    assert_eq!(pin_fault(Signal::ClockLow), Error::ClockPin);
    assert_eq!(pin_fault(Signal::DataHigh), Error::DataPin);
    assert_eq!(pin_fault(Signal::DataLow), Error::DataPin);
}
