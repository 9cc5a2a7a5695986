//! Transport layer: start and stop conditions and byte serialisation, as
//! sequences of signals on the clock and data lines.

use vstd::prelude::*;

verus! {

/// One step of a waveform: drive one of the two lines, or wait one quantum.
#[derive(Clone, Copy, Debug, PartialEq, Eq, Structural)]
pub enum Signal {
    ClockHigh,
    ClockLow,
    DataHigh,
    DataLow,
    Delay,
}

/// Whether a step changes the state of a pin.
pub open spec fn is_pin_change(s: Signal) -> bool {
    s != Signal::Delay
}

/// The step that drives the data line to `high`.
pub open spec fn data_level(high: bool) -> Signal {
    if high {
        Signal::DataHigh
    } else {
        Signal::DataLow
    }
}

/// Start condition: data falls while the clock is idle high.
pub open spec fn start_wave() -> Seq<Signal> {
    seq![Signal::DataLow, Signal::Delay]
}

/// Stop condition: both lines return to idle high, clock first.
pub open spec fn stop_wave() -> Seq<Signal> {
    seq![
        Signal::DataLow,
        Signal::Delay,
        Signal::ClockHigh,
        Signal::Delay,
        Signal::DataHigh,
        Signal::Delay,
    ]
}

/// Bit `i` of `byte`, counting from the least significant.
pub open spec fn bit_at(byte: u8, i: u8) -> bool {
    (byte >> i) & 1u8 == 1u8
}

/// One clock cycle carrying a data bit.
pub open spec fn bit_wave(high: bool) -> Seq<Signal> {
    seq![
        Signal::ClockLow,
        Signal::Delay,
        data_level(high),
        Signal::Delay,
        Signal::ClockHigh,
        Signal::Delay,
    ]
}

/// The clock cycles of the lowest `n` bits of `byte`, least significant first.
pub open spec fn bits_wave(byte: u8, n: nat) -> Seq<Signal>
    decreases n,
{
    if n == 0 {
        Seq::empty()
    } else {
        bits_wave(byte, (n - 1) as nat) + bit_wave(bit_at(byte, (n - 1) as u8))
    }
}

/// The acknowledgement slot after each byte; the display's answer is not read,
/// and the clock is held high for two quanta while it would be given.
pub open spec fn ack_wave() -> Seq<Signal> {
    seq![
        Signal::ClockLow,
        Signal::Delay,
        Signal::ClockHigh,
        Signal::Delay,
        Signal::Delay,
        Signal::ClockLow,
        Signal::Delay,
    ]
}

/// One byte on the bus: eight bits, least significant first, then the
/// acknowledgement slot.
pub open spec fn byte_wave(byte: u8) -> Seq<Signal> {
    bits_wave(byte, 8) + ack_wave()
}

/// The bytes of `bytes` one after the other.
pub open spec fn bytes_wave(bytes: Seq<u8>) -> Seq<Signal>
    decreases bytes.len(),
{
    if bytes.len() == 0 {
        Seq::empty()
    } else {
        bytes_wave(bytes.drop_last()) + byte_wave(bytes.last())
    }
}

/// A complete transaction: start condition, the bytes, stop condition.
pub open spec fn transaction_wave(bytes: Seq<u8>) -> Seq<Signal> {
    start_wave() + bytes_wave(bytes) + stop_wave()
}

/// Every pin change is directly followed by a wait of one quantum, so that
/// two changes are never closer than the display's setup and hold time.
pub open spec fn paced(w: Seq<Signal>) -> bool {
    forall|i: int|
        0 <= i < w.len() && #[trigger] is_pin_change(w[i]) ==> i + 1 < w.len() && w[i + 1]
            == Signal::Delay
}

/// Two paced waveforms played one after the other are paced.
pub proof fn lemma_paced_concat(a: Seq<Signal>, b: Seq<Signal>)
    requires
        paced(a),
        paced(b),
    ensures
        paced(a + b),
{
    let w = a + b;
    assert forall|i: int| 0 <= i < w.len() && #[trigger] is_pin_change(w[i]) implies i + 1
        < w.len() && w[i + 1] == Signal::Delay by {
        if i < a.len() {
            assert(is_pin_change(a[i]));
        } else {
            assert(is_pin_change(b[i - a.len()]));
        }
    }
}

proof fn lemma_bits_paced(byte: u8, n: nat)
    ensures
        paced(bits_wave(byte, n)),
    decreases n,
{
    if n > 0 {
        lemma_bits_paced(byte, (n - 1) as nat);
        lemma_paced_concat(bits_wave(byte, (n - 1) as nat), bit_wave(bit_at(byte, (n - 1) as u8)));
    }
}

proof fn lemma_bytes_paced(bytes: Seq<u8>)
    ensures
        paced(bytes_wave(bytes)),
    decreases bytes.len(),
{
    if bytes.len() > 0 {
        lemma_bytes_paced(bytes.drop_last());
        lemma_bits_paced(bytes.last(), 8);
        lemma_paced_concat(bits_wave(bytes.last(), 8), ack_wave());
        lemma_paced_concat(bytes_wave(bytes.drop_last()), byte_wave(bytes.last()));
    }
}

/// Within any transaction, every pin change is followed by a full delay
/// quantum before the next change.
pub proof fn lemma_transaction_paced(bytes: Seq<u8>)
    ensures
        paced(transaction_wave(bytes)),
{
    lemma_bytes_paced(bytes);
    lemma_paced_concat(start_wave(), bytes_wave(bytes));
    lemma_paced_concat(start_wave() + bytes_wave(bytes), stop_wave());
}

/// Appends the start condition.
pub fn push_start(out: &mut Vec<Signal>)
    ensures
        final(out)@ == old(out)@ + start_wave(),
{
    out.push(Signal::DataLow);
    out.push(Signal::Delay);
    assert(out@ =~= old(out)@ + start_wave());
}

/// Appends the stop condition.
pub fn push_stop(out: &mut Vec<Signal>)
    ensures
        final(out)@ == old(out)@ + stop_wave(),
{
    out.push(Signal::DataLow);
    out.push(Signal::Delay);
    out.push(Signal::ClockHigh);
    out.push(Signal::Delay);
    out.push(Signal::DataHigh);
    out.push(Signal::Delay);
    assert(out@ =~= old(out)@ + stop_wave());
}

/// Appends one byte: its eight bits, least significant first, each on its
/// own clock cycle, then the acknowledgement slot.
pub fn push_byte(out: &mut Vec<Signal>, byte: u8)
    ensures
        final(out)@ == old(out)@ + byte_wave(byte),
{
    let mut b: u8 = byte;
    let mut i: u8 = 0;
    assert(byte >> 0u8 == byte) by (bit_vector);
    while i < 8
        invariant
            i <= 8,
            b == byte >> i,
            out@ == old(out)@ + bits_wave(byte, i as nat),
        decreases 8 - i,
    {
        let ghost before = out@;
        let high = (b & 1) == 1;
        out.push(Signal::ClockLow);
        out.push(Signal::Delay);
        if high {
            out.push(Signal::DataHigh);
        } else {
            out.push(Signal::DataLow);
        }
        out.push(Signal::Delay);
        out.push(Signal::ClockHigh);
        out.push(Signal::Delay);
        assert(out@ =~= before + bit_wave(bit_at(byte, i)));
        assert((byte >> i) >> 1u8 == byte >> ((i + 1) as u8)) by (bit_vector)
            requires
                i < 8,
        ;
        b = b >> 1;
        i = i + 1;
        assert(out@ =~= old(out)@ + bits_wave(byte, i as nat));
    }
    out.push(Signal::ClockLow);
    out.push(Signal::Delay);
    out.push(Signal::ClockHigh);
    out.push(Signal::Delay);
    out.push(Signal::Delay);
    out.push(Signal::ClockLow);
    out.push(Signal::Delay);
    assert(out@ =~= old(out)@ + byte_wave(byte));
}

/// Appends a complete transaction carrying `bytes` in order.
pub fn push_transaction(out: &mut Vec<Signal>, bytes: &[u8])
    ensures
        final(out)@ == old(out)@ + transaction_wave(bytes@),
{
    push_start(out);
    let mut i: usize = 0;
    while i < bytes.len()
        invariant
            i <= bytes@.len(),
            out@ == old(out)@ + start_wave() + bytes_wave(bytes@.subrange(0, i as int)),
        decreases bytes@.len() - i,
    {
        push_byte(out, bytes[i]);
        assert(bytes@.subrange(0, i + 1).drop_last() =~= bytes@.subrange(0, i as int));
        i = i + 1;
        assert(out@ =~= old(out)@ + start_wave() + bytes_wave(bytes@.subrange(0, i as int)));
    }
    assert(bytes@.subrange(0, i as int) =~= bytes@);
    push_stop(out);
    assert(out@ =~= old(out)@ + transaction_wave(bytes@));
}

} // verus!
