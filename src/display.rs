//! Command and presentation layers: brightness control, memory writes and
//! the mapping from decimal digits to segment patterns.

use vstd::prelude::*;
use crate::wave::{lemma_paced_concat, lemma_transaction_paced, paced, push_transaction, transaction_wave, Signal};

verus! {

/// Length of one delay quantum, in microseconds: the unit of all protocol
/// timing.
pub const QUANTUM_MICROS: u32 = 5;

/// Display control command with the display switched off.
pub const DISPLAY_OFF: u8 = 0x80;

/// Display control command with the display switched on; the low three bits
/// carry the brightness.
pub const DISPLAY_ON: u8 = 0x88;

/// Data command: write display memory, address incremented after each byte.
pub const WRITE_AUTO_INCREMENT: u8 = 0x40;

/// Data command: write display memory at a fixed address.
pub const WRITE_FIXED_ADDRESS: u8 = 0x44;

/// Address command for the leftmost digit; the others follow it.
pub const ADDRESS_BASE: u8 = 0xC0;

/// A fault reported by one of the two pins while a waveform was played.
#[derive(Clone, Copy, Debug, PartialEq, Eq, Structural)]
pub enum Error {
    ClockPin,
    DataPin,
}

/// The control byte for a brightness level: 0 switches the display off,
/// 1 to 8 switch it on at increasing brightness, higher levels count as 8.
pub open spec fn control_for(level: u8) -> u8 {
    if level == 0 {
        DISPLAY_OFF
    } else if level > 8 {
        DISPLAY_ON | 7u8
    } else {
        DISPLAY_ON | ((level - 1) as u8)
    }
}

/// The segment pattern of a decimal digit; anything else is blank.
pub open spec fn segments_for(digit: u8) -> u8 {
    match digit {
        0 => 0x3f,
        1 => 0x06,
        2 => 0x5b,
        3 => 0x4f,
        4 => 0x66,
        5 => 0x6d,
        6 => 0x7d,
        7 => 0x07,
        8 => 0x7f,
        9 => 0x6f,
        _ => 0x00,
    }
}

/// The payload that writes four digits from the first address on.
pub open spec fn digits_payload(nums: Seq<u8>) -> Seq<u8> {
    seq![
        ADDRESS_BASE,
        segments_for(nums[0]),
        segments_for(nums[1]),
        segments_for(nums[2]),
        segments_for(nums[3]),
    ]
}

/// What `show_digits` plays: the auto-increment command in a transaction of
/// its own, then the address and the four patterns in a second one.
pub open spec fn digits_wave(nums: Seq<u8>) -> Seq<Signal> {
    transaction_wave(seq![WRITE_AUTO_INCREMENT]) + transaction_wave(digits_payload(nums))
}

/// What `show_segment` plays: nothing for a position past the last digit,
/// else the fixed-address command, then the address and the pattern.
pub open spec fn segment_wave(segment: u8, pos: u8) -> Seq<Signal> {
    if pos > 3 {
        Seq::empty()
    } else {
        transaction_wave(seq![WRITE_FIXED_ADDRESS])
            + transaction_wave(seq![(ADDRESS_BASE + pos) as u8, segment])
    }
}

/// What `set_brightness` plays: the control byte in one transaction.
pub open spec fn brightness_wave(level: u8) -> Seq<Signal> {
    transaction_wave(seq![control_for(level)])
}

/// `10` to the power `k`.
pub open spec fn pow10(k: nat) -> int
    decreases k,
{
    if k == 0 {
        1
    } else {
        10 * pow10((k - 1) as nat)
    }
}

/// The remainder that the `k`-th division by ten leaves, counting from the
/// units, with division and remainder truncated toward zero as on machine
/// integers: negative for a negative `n`.
pub open spec fn place_remainder(n: int, k: nat) -> int {
    if n < 0 {
        -(((-n) / pow10(k)) % 10)
    } else {
        (n / pow10(k)) % 10
    }
}

/// That remainder as a byte, wrapping a negative one around: such a byte is
/// no decimal digit and shows blank.
pub open spec fn place_code(n: int, k: nat) -> u8 {
    let r = place_remainder(n, k);
    if r < 0 {
        (r + 256) as u8
    } else {
        r as u8
    }
}

/// The four digits that `show_number` displays, most significant first.
pub open spec fn number_digits(n: int) -> Seq<u8> {
    seq![place_code(n, 3), place_code(n, 2), place_code(n, 1), place_code(n, 0)]
}

/// Level 0 switches the display off; levels 1 to 8 switch it on with
/// `level - 1` in the three-bit brightness field; higher levels give the
/// brightest setting.
pub proof fn lemma_control_encoding(level: u8)
    ensures
        level == 0 ==> control_for(level) == 0x80,
        1 <= level <= 8 ==> control_for(level) == 0x88 + (level - 1),
        level > 8 ==> control_for(level) == 0x8f,
{
    let low = (level - 1) as u8;
    assert(low < 8 ==> 0x88u8 | low == 0x88 + low) by (bit_vector);
    assert(0x88u8 | 7u8 == 0x8fu8) by (bit_vector);
}

/// For every number from 0 to 9999 the four digits are its decimal digits,
/// most significant first, leading zeros included.
pub proof fn lemma_number_digits_decimal(n: int)
    requires
        0 <= n <= 9999,
    ensures
        forall|k: int| 0 <= k < 4 ==> #[trigger] number_digits(n)[k] < 10,
        1000 * number_digits(n)[0] + 100 * number_digits(n)[1] + 10 * number_digits(n)[2]
            + number_digits(n)[3] == n,
{
    reveal_with_fuel(pow10, 4);
    let d = number_digits(n);
    assert(d[0] == n / 1000 % 10);
    assert(d[1] == n / 100 % 10);
    assert(d[2] == n / 10 % 10);
    assert(d[3] == n % 10);
    assert(n / 1000 < 10);
    assert(n == 1000 * (n / 1000) + 100 * (n / 100 % 10) + 10 * (n / 10 % 10) + n % 10)
        by (nonlinear_arith)
        requires
            0 <= n <= 9999,
    ;
}

/// Showing the same four digits twice plays the same waveform twice.
pub proof fn lemma_show_digits_repeatable(first: Seq<u8>, second: Seq<u8>)
    requires
        first.len() == 4,
        first == second,
    ensures
        digits_wave(first) == digits_wave(second),
{
}

/// The brightness command keeps a full quantum after each pin change.
pub proof fn lemma_brightness_paced(level: u8)
    ensures
        paced(brightness_wave(level)),
{
    lemma_transaction_paced(seq![control_for(level)]);
}

/// A single-digit write keeps a full quantum after each pin change.
pub proof fn lemma_segment_paced(segment: u8, pos: u8)
    ensures
        paced(segment_wave(segment, pos)),
{
    if pos <= 3 {
        let address = (ADDRESS_BASE + pos) as u8;
        lemma_transaction_paced(seq![WRITE_FIXED_ADDRESS]);
        lemma_transaction_paced(seq![address, segment]);
        lemma_paced_concat(
            transaction_wave(seq![WRITE_FIXED_ADDRESS]),
            transaction_wave(seq![address, segment]),
        );
    }
}

/// A four-digit write keeps a full quantum after each pin change.
pub proof fn lemma_digits_paced(nums: Seq<u8>)
    ensures
        paced(digits_wave(nums)),
{
    let command = transaction_wave(seq![WRITE_AUTO_INCREMENT]);
    let data = transaction_wave(digits_payload(nums));
    lemma_transaction_paced(seq![WRITE_AUTO_INCREMENT]);
    lemma_transaction_paced(digits_payload(nums));
    lemma_paced_concat(command, data);
}

/// Handle on a display, owning its clock and data pins.
pub struct LedDisplay<PC, PD> {
    pub clk: PC,
    pub dio: PD,
}

impl<PC, PD> LedDisplay<PC, PD> {
    /// Takes ownership of the clock and data pins.
    pub fn new(clk: PC, dio: PD) -> (r: Self)
        ensures
            r.clk == clk,
            r.dio == dio,
    {
        Self { clk, dio }
    }

    /// The control byte for a brightness level.
    pub fn control_byte(brightness: u8) -> (r: u8)
        ensures
            r == control_for(brightness),
    {
        if brightness == 0 {
            DISPLAY_OFF
        } else if brightness > 8 {
            DISPLAY_ON | 7
        } else {
            DISPLAY_ON | (brightness - 1)
        }
    }

    /// The waveform that sets the brightness, or switches the display off
    /// for level 0. The encoded control byte is what goes on the bus.
    pub fn set_brightness(&self, brightness: u8) -> (r: Vec<Signal>)
        ensures
            r@ == brightness_wave(brightness),
    {
        let control = Self::control_byte(brightness);
        let mut out: Vec<Signal> = Vec::new();
        let command: [u8; 1] = [control];
        assert(command@ =~= seq![control]);
        push_transaction(&mut out, command.as_slice());
        assert(out@ =~= brightness_wave(brightness));
        out
    }

    /// The waveform that writes one segment pattern at position `pos`
    /// (0 to 3, from the left); for any other position it is empty.
    pub fn show_segment(&self, segment: u8, pos: u8) -> (r: Vec<Signal>)
        ensures
            r@ == segment_wave(segment, pos),
    {
        let mut out: Vec<Signal> = Vec::new();
        if pos > 3 {
            assert(out@ =~= segment_wave(segment, pos));
            return out;
        }
        let command: [u8; 1] = [WRITE_FIXED_ADDRESS];
        assert(command@ =~= seq![WRITE_FIXED_ADDRESS]);
        push_transaction(&mut out, command.as_slice());
        let buffer: [u8; 2] = [ADDRESS_BASE + pos, segment];
        assert(buffer@ =~= seq![(ADDRESS_BASE + pos) as u8, segment]);
        push_transaction(&mut out, buffer.as_slice());
        assert(out@ =~= segment_wave(segment, pos));
        out
    }

    /// The waveform that shows four decimal digits, leftmost first, in
    /// auto-increment mode.
    pub fn show_digits(&self, nums: &[u8; 4]) -> (r: Vec<Signal>)
        ensures
            r@ == digits_wave(nums@),
    {
        let mut out: Vec<Signal> = Vec::new();
        let command: [u8; 1] = [WRITE_AUTO_INCREMENT];
        assert(command@ =~= seq![WRITE_AUTO_INCREMENT]);
        push_transaction(&mut out, command.as_slice());
        let buffer: [u8; 5] = [
            ADDRESS_BASE,
            Self::get_segments(nums[0]),
            Self::get_segments(nums[1]),
            Self::get_segments(nums[2]),
            Self::get_segments(nums[3]),
        ];
        assert(buffer@ =~= digits_payload(nums@));
        push_transaction(&mut out, buffer.as_slice());
        assert(out@ =~= digits_wave(nums@));
        out
    }

    /// The four digits of `num` by repeated remainder and division by ten,
    /// units last. Larger numbers keep their low four digits; a negative
    /// number leaves negative remainders, which show blank.
    pub fn number_digits(num: i32) -> (r: [u8; 4])
        ensures
            r@ == number_digits(num as int),
    {
        let m: u32 = if num < 0 {
            (-(num as i64)) as u32
        } else {
            num as u32
        };
        let mut digits: [u8; 4] = [0; 4];
        proof {
            reveal_with_fuel(pow10, 4);
        }
        let mut p: u32 = 1;
        let mut i: usize = 0;
        while i < 4
            invariant
                i <= 4,
                p == pow10(i as nat),
                i == 0 && p == 1 || i == 1 && p == 10 || i == 2 && p == 100 || i == 3 && p
                    == 1000 || i == 4 && p == 10000,
                m as int == if num < 0 { -(num as int) } else { num as int },
                forall|j: int|
                    4 - i <= j < 4 ==> #[trigger] digits@[j] == place_code(num as int, (3 - j) as nat),
                digits@.len() == 4,
            decreases 4 - i,
        {
            let d: u32 = (m / p) % 10;
            let code: u8 = if num < 0 && d != 0 {
                (256 - d) as u8
            } else {
                d as u8
            };
            assert(code == place_code(num as int, i as nat));
            digits[3 - i] = code;
            assert(pow10((i + 1) as nat) == 10 * pow10(i as nat));
            p = p * 10;
            i = i + 1;
        }
        assert(digits@[3] == place_code(num as int, 0));
        assert(digits@[2] == place_code(num as int, 1));
        assert(digits@[1] == place_code(num as int, 2));
        assert(digits@[0] == place_code(num as int, 3));
        assert(digits@ =~= number_digits(num as int));
        digits
    }

    /// The waveform that shows the low four decimal digits of `num`, with
    /// leading zeros.
    pub fn show_number(&self, num: i32) -> (r: Vec<Signal>)
        ensures
            r@ == digits_wave(number_digits(num as int)),
    {
        let digits = Self::number_digits(num);
        self.show_digits(&digits)
    }

    /// The segment pattern of a decimal digit; blank for anything else.
    pub fn get_segments(num: u8) -> (r: u8)
        ensures
            r == segments_for(num),
    {
        match num {
            0 => 0x3f,
            1 => 0x06,
            2 => 0x5b,
            3 => 0x4f,
            4 => 0x66,
            5 => 0x6d,
            6 => 0x7d,
            7 => 0x07,
            8 => 0x7f,
            9 => 0x6f,
            _ => 0x00,
        }
    }
}

/// The pin that a failed step of a waveform was driving.
pub fn pin_fault(step: Signal) -> (r: Error)
    requires
        step != Signal::Delay,
    ensures
        r == (if step == Signal::ClockHigh || step == Signal::ClockLow {
            Error::ClockPin
        } else {
            Error::DataPin
        }),
{
    match step {
        Signal::ClockHigh | Signal::ClockLow => Error::ClockPin,
        _ => Error::DataPin,
    }
}

} // verus!
