//! The radio signal of a command, and the receiver that reads it back.
//!
//! Protocol: 433 MHz OOK, 5-byte payload sent MSB-first, repeated 3 times.
//! Preamble: HIGH 1400us, LOW 750us
//! Bit 1:    HIGH 750us,  LOW 250us
//! Bit 0:    HIGH 250us,  LOW 750us
//! Payload:  [id_hi:8][id_lo:8][channel:4|mode:4][intensity:8][checksum:8]
//! Tail:     2x bit-0

use vstd::prelude::*;

use crate::protocol::model::{CommandMode, RfDebugFrame, RfDebugFrameView};
use crate::protocol::rf_codec::decode_rf_frame;
use crate::rf_timing::{
    BIT_ONE_HIGH_US, BIT_ONE_LOW_US, BIT_ZERO_HIGH_US, BIT_ZERO_LOW_US, FRAME_BITS, FRAME_BYTES,
    PREAMBLE_HIGH_US, PREAMBLE_LOW_US, REPEAT_COUNT,
};
use crate::text::push_hex;

verus! {

pub const PREAMBLE_HIGH_TOLERANCE_US: u32 = 350;

pub const PREAMBLE_LOW_TOLERANCE_US: u32 = 180;

pub const BIT_TOLERANCE_US: u32 = 180;

pub const FRAME_GAP_TIMEOUT_US: u64 = 5000;

pub const DUPLICATE_FRAME_WINDOW_US: u64 = 100000;

/// How many pulses one repeat of a frame has: two for the preamble, two for each bit.
pub const REPEAT_PULSES: usize = 2 + 2 * FRAME_BITS;

/// How long the signal stays at one level.
#[derive(Debug, Clone, Copy, PartialEq, Eq, Structural)]
pub struct Pulse {
    pub level: bool,
    pub duration_us: u32,
}

// ----- Sending -----

/// A bit of a byte, counted from the most significant one.
pub open spec fn bit_of(b: u8, pos: int) -> u8 {
    if pos == 0 {
        b / 128 % 2
    } else if pos == 1 {
        b / 64 % 2
    } else if pos == 2 {
        b / 32 % 2
    } else if pos == 3 {
        b / 16 % 2
    } else if pos == 4 {
        b / 8 % 2
    } else if pos == 5 {
        b / 4 % 2
    } else if pos == 6 {
        b / 2 % 2
    } else {
        b % 2
    }
}

/// The bits of a frame: those of the payload, most significant first, and two zeros.
pub open spec fn frame_bits(payload: Seq<u8>) -> Seq<u8> {
    Seq::new(
        FRAME_BITS as nat,
        |i: int|
            if i < FRAME_BYTES * 8 {
                bit_of(payload[i / 8], i % 8)
            } else {
                0u8
            },
    )
}

/// The first pulse of a bit.
pub open spec fn bit_high(bit: u8) -> Pulse {
    Pulse {
        level: true,
        duration_us: if bit == 1 {
            BIT_ONE_HIGH_US
        } else {
            BIT_ZERO_HIGH_US
        },
    }
}

/// The second pulse of a bit.
pub open spec fn bit_low(bit: u8) -> Pulse {
    Pulse {
        level: false,
        duration_us: if bit == 1 {
            BIT_ONE_LOW_US
        } else {
            BIT_ZERO_LOW_US
        },
    }
}

/// The pulses of one repeat of a frame.
pub open spec fn repeat_pulses(payload: Seq<u8>) -> Seq<Pulse> {
    Seq::new(
        REPEAT_PULSES as nat,
        |i: int|
            if i == 0 {
                Pulse { level: true, duration_us: PREAMBLE_HIGH_US }
            } else if i == 1 {
                Pulse { level: false, duration_us: PREAMBLE_LOW_US }
            } else if i % 2 == 0 {
                bit_high(frame_bits(payload)[(i - 2) / 2])
            } else {
                bit_low(frame_bits(payload)[(i - 2) / 2])
            },
    )
}

/// The pulses of a command: the repeats of its frame.
pub open spec fn command_pulses(payload: Seq<u8>) -> Seq<Pulse> {
    repeat_pulses(payload) + repeat_pulses(payload) + repeat_pulses(payload)
}

/// How long a run of pulses takes.
pub open spec fn pulses_us(pulses: Seq<Pulse>) -> int
    decreases pulses.len(),
{
    if pulses.len() == 0 {
        0
    } else {
        pulses_us(pulses.drop_last()) + pulses.last().duration_us
    }
}

proof fn lemma_pulses_us_joined(a: Seq<Pulse>, b: Seq<Pulse>)
    ensures
        pulses_us(a + b) == pulses_us(a) + pulses_us(b),
    decreases b.len(),
{
    if b.len() == 0 {
        assert(a + b =~= a);
    } else {
        lemma_pulses_us_joined(a, b.drop_last());
        assert((a + b).drop_last() =~= a + b.drop_last());
    }
}

proof fn lemma_bits_us(payload: Seq<u8>, k: int)
    requires
        0 <= k <= FRAME_BITS,
    ensures
        pulses_us(repeat_pulses(payload).take(2 + 2 * k)) == PREAMBLE_HIGH_US + PREAMBLE_LOW_US
            + 1000 * k,
    decreases k,
{
    let all = repeat_pulses(payload);
    let here = all.take(2 + 2 * k);
    if k == 0 {
        assert(here.drop_last().drop_last() =~= Seq::empty());
        assert(pulses_us(here.drop_last().drop_last()) == 0);
        assert(here.drop_last().last() == all[0]);
        assert(here.last() == all[1]);
        assert(pulses_us(here.drop_last()) == PREAMBLE_HIGH_US);
    } else {
        lemma_bits_us(payload, k - 1);
        assert(here.drop_last().drop_last() =~= all.take(2 + 2 * (k - 1)));
        assert(here.drop_last().last() == all[2 * k]);
        assert(here.last() == all[2 * k + 1]);
        assert((2 * k - 2) / 2 == k - 1);
        assert((2 * k + 1 - 2) / 2 == k - 1);
        assert((2 * k) % 2 == 0 && (2 * k + 1) % 2 == 1);
        reveal_with_fuel(pulses_us, 3);
    }
}

/// Sending a command occupies the transmitter for exactly the time that the timing constants
/// give, whatever the command is.
pub proof fn lemma_command_duration(payload: Seq<u8>)
    ensures
        pulses_us(repeat_pulses(payload)) == crate::rf_timing::RF_REPEAT_DURATION_US,
        pulses_us(command_pulses(payload)) == crate::rf_timing::RF_COMMAND_TRANSMIT_DURATION_US,
{
    let all = repeat_pulses(payload);
    crate::rf_timing::lemma_timing();
    lemma_bits_us(payload, FRAME_BITS as int);
    assert(all.take(REPEAT_PULSES as int) =~= all);
    lemma_pulses_us_joined(all, all);
    lemma_pulses_us_joined(all + all, all);
}

fn payload_bit(b: u8, pos: usize) -> (r: u8)
    requires
        pos < 8,
    ensures
        r == bit_of(b, pos as int),
{
    match pos {
        0 => b / 128 % 2,
        1 => b / 64 % 2,
        2 => b / 32 % 2,
        3 => b / 16 % 2,
        4 => b / 8 % 2,
        5 => b / 4 % 2,
        6 => b / 2 % 2,
        _ => b % 2,
    }
}

/// The pulses that send a frame.
pub fn frame_pulses(payload: &[u8; 5]) -> (r: Vec<Pulse>)
    ensures
        r@ == command_pulses(payload@),
{
    let ghost one = repeat_pulses(payload@);
    let ghost all = command_pulses(payload@);
    let mut out: Vec<Pulse> = Vec::new();
    let mut repeat: usize = 0;
    while repeat < REPEAT_COUNT
        invariant
            repeat <= REPEAT_COUNT,
            one == repeat_pulses(payload@),
            all == command_pulses(payload@),
            out@ =~= all.take(86 * repeat),
        decreases REPEAT_COUNT - repeat,
    {
        let ghost before = out@;
        out.push(Pulse { level: true, duration_us: PREAMBLE_HIGH_US });
        out.push(Pulse { level: false, duration_us: PREAMBLE_LOW_US });
        let mut i: usize = 0;
        while i < FRAME_BITS
            invariant
                i <= FRAME_BITS,
                one == repeat_pulses(payload@),
                out@ =~= before + one.take(2 + 2 * i),
            decreases FRAME_BITS - i,
        {
            let bit: u8 = if i < FRAME_BYTES * 8 {
                payload_bit(payload[i / 8], i % 8)
            } else {
                0
            };
            assert(bit == frame_bits(payload@)[i as int]);
            if bit == 1 {
                out.push(Pulse { level: true, duration_us: BIT_ONE_HIGH_US });
                out.push(Pulse { level: false, duration_us: BIT_ONE_LOW_US });
            } else {
                out.push(Pulse { level: true, duration_us: BIT_ZERO_HIGH_US });
                out.push(Pulse { level: false, duration_us: BIT_ZERO_LOW_US });
            }
            proof {
                assert(one[2 + 2 * i] == bit_high(bit));
                assert(one[2 + 2 * i + 1] == bit_low(bit));
                assert(one.take(2 + 2 * (i + 1)) =~= one.take(2 + 2 * i).push(bit_high(bit)).push(
                    bit_low(bit),
                ));
            }
            i = i + 1;
        }
        assert(one.take(2 + 2 * i) =~= one);
        repeat = repeat + 1;
    }
    assert(all.take(86 * repeat) =~= all);
    out
}

// ----- Receiving -----

/// What the receiver waits for.
#[derive(Debug, Clone, Copy, PartialEq, Eq, Structural)]
pub enum ReceivePhase {
    SeekingPreambleHigh,
    SeekingPreambleLow,
    ReadingHigh,
    /// The high pulse of a bit was this long.
    ReadingLow(u32),
}

/// Reads frames out of the pulses that the radio hears.
#[derive(Debug)]
pub struct RfReceiver {
    phase: ReceivePhase,
    bits: Vec<u8>,
    last_frame: Option<([u8; 5], u64)>,
}

#[verifier::ext_equal]
pub struct ReceiverView {
    pub phase: ReceivePhase,
    /// The bits of the frame that is being read.
    pub bits: Seq<u8>,
    /// The frame that was reported last, and when it ended.
    pub last_frame: Option<(Seq<u8>, u64)>,
}

impl View for RfReceiver {
    type V = ReceiverView;

    closed spec fn view(&self) -> ReceiverView {
        ReceiverView {
            phase: self.phase,
            bits: self.bits@,
            last_frame: match self.last_frame {
                Some((raw, at)) => Some((raw@, at)),
                None => None,
            },
        }
    }
}

impl ReceiverView {
    /// What holds between pulses: a frame that is being read lacks a bit, and outside a frame no
    /// bit is held.
    pub open spec fn wf(self) -> bool {
        &&& self.bits.len() < FRAME_BITS
        &&& forall|i: int| 0 <= i < self.bits.len() ==> #[trigger] self.bits[i] <= 1
        &&& self.phase is SeekingPreambleHigh || self.phase is SeekingPreambleLow
            ==> self.bits.len() == 0
        &&& self.last_frame matches Some(last) ==> last.0.len() == FRAME_BYTES
    }

    /// Whether the receiver is in the middle of a frame.
    pub open spec fn receiving(self) -> bool {
        !(self.phase is SeekingPreambleHigh)
    }

    /// The receiver with what it was reading dropped.
    pub open spec fn idle(self) -> ReceiverView {
        ReceiverView {
            phase: ReceivePhase::SeekingPreambleHigh,
            bits: Seq::empty(),
            last_frame: self.last_frame,
        }
    }

    /// The receiver after a pulse that fits nothing it was reading.
    pub open spec fn resynced(self, p: Pulse) -> ReceiverView {
        if is_preamble_high(p) {
            ReceiverView { phase: ReceivePhase::SeekingPreambleLow, ..self.idle() }
        } else {
            self.idle()
        }
    }
}

/// Whether a duration is within the tolerance of what is expected.
pub open spec fn near(actual: u32, expected: u32, tolerance: u32) -> bool {
    expected - tolerance <= actual <= expected + tolerance
}

/// Whether a pulse can be the first of a preamble.
pub open spec fn is_preamble_high(p: Pulse) -> bool {
    p.level && near(p.duration_us, PREAMBLE_HIGH_US, PREAMBLE_HIGH_TOLERANCE_US)
}

/// The bit that a high and a low pulse make.
pub open spec fn bit_read(high_us: u32, low_us: u32) -> Option<u8> {
    if near(high_us, BIT_ONE_HIGH_US, BIT_TOLERANCE_US) && near(
        low_us,
        BIT_ONE_LOW_US,
        BIT_TOLERANCE_US,
    ) {
        Some(1u8)
    } else if near(high_us, BIT_ZERO_HIGH_US, BIT_TOLERANCE_US) && near(
        low_us,
        BIT_ZERO_LOW_US,
        BIT_TOLERANCE_US,
    ) {
        Some(0u8)
    } else {
        None
    }
}

/// The byte that eight bits make, the most significant first.
pub open spec fn byte_at(bits: Seq<u8>, from: int) -> u8 {
    (bits[from] * 128 + bits[from + 1] * 64 + bits[from + 2] * 32 + bits[from + 3] * 16
        + bits[from + 4] * 8 + bits[from + 5] * 4 + bits[from + 6] * 2 + bits[from + 7]) as u8
}

/// The payload that the bits of a frame make.
pub open spec fn payload_of(bits: Seq<u8>) -> Seq<u8> {
    Seq::new(FRAME_BYTES as nat, |i: int| byte_at(bits, 8 * i))
}

/// The bytes of a frame in hexadecimal.
pub open spec fn raw_hex(raw: Seq<u8>) -> Seq<char> {
    crate::text::hex(raw[0]) + crate::text::hex(raw[1]) + crate::text::hex(raw[2])
        + crate::text::hex(raw[3]) + crate::text::hex(raw[4])
}

/// The report on a frame that ended at `end_us`.
pub open spec fn frame_report(raw: Seq<u8>, end_us: u64) -> RfDebugFrameView {
    let d = crate::protocol::rf_codec::decoded(raw);
    RfDebugFrameView {
        received_at_ms: end_us / 1000,
        raw_hex: raw_hex(raw),
        collar_id: d.0,
        channel: d.1,
        mode_raw: d.2,
        mode: CommandMode::of_rf_byte(d.2),
        intensity: d.3,
        checksum_ok: d.4,
    }
}

/// Whether a frame repeats the one that was reported last.
pub open spec fn is_repeat(last: Option<(Seq<u8>, u64)>, raw: Seq<u8>, end_us: u64) -> bool {
    last matches Some(l) && l.0 == raw && end_us - l.1 <= DUPLICATE_FRAME_WINDOW_US
}

/// What becomes of the bits of a whole frame: a frame without its two zeros, or one that repeats
/// the last report, is passed over.
pub open spec fn finished(
    bits: Seq<u8>,
    last: Option<(Seq<u8>, u64)>,
    end_us: u64,
) -> (Option<(Seq<u8>, u64)>, Option<RfDebugFrameView>) {
    let raw = payload_of(bits);
    if bits[FRAME_BITS - 2] != 0 || bits[FRAME_BITS - 1] != 0 || is_repeat(last, raw, end_us) {
        (last, None)
    } else {
        (Some((raw, end_us)), Some(frame_report(raw, end_us)))
    }
}

/// The receiver after a pulse that ended at `end_us`, and the frame that it reports.
pub open spec fn received(s: ReceiverView, p: Pulse, end_us: u64) -> (
    ReceiverView,
    Option<RfDebugFrameView>,
) {
    match s.phase {
        ReceivePhase::SeekingPreambleHigh => if is_preamble_high(p) {
            (ReceiverView { phase: ReceivePhase::SeekingPreambleLow, ..s }, None)
        } else {
            (s, None)
        },
        ReceivePhase::SeekingPreambleLow => if !p.level && near(
            p.duration_us,
            PREAMBLE_LOW_US,
            PREAMBLE_LOW_TOLERANCE_US,
        ) {
            (ReceiverView { phase: ReceivePhase::ReadingHigh, bits: Seq::empty(), ..s }, None)
        } else {
            (s.resynced(p), None)
        },
        ReceivePhase::ReadingHigh => if p.level && (near(
            p.duration_us,
            BIT_ZERO_HIGH_US,
            BIT_TOLERANCE_US,
        ) || near(p.duration_us, BIT_ONE_HIGH_US, BIT_TOLERANCE_US)) {
            (ReceiverView { phase: ReceivePhase::ReadingLow(p.duration_us), ..s }, None)
        } else {
            (s.resynced(p), None)
        },
        ReceivePhase::ReadingLow(high_us) => if !p.level && bit_read(
            high_us,
            p.duration_us,
        ) is Some {
            let bits = s.bits.push(bit_read(high_us, p.duration_us)->0);
            if bits.len() == FRAME_BITS {
                let done = finished(bits, s.last_frame, end_us);
                (ReceiverView { last_frame: done.0, ..s.idle() }, done.1)
            } else {
                (ReceiverView { phase: ReceivePhase::ReadingHigh, bits, ..s }, None)
            }
        } else {
            (s.resynced(p), None)
        },
    }
}

fn approx_eq(actual: u32, expected: u32, tolerance: u32) -> (r: bool)
    ensures
        r == near(actual, expected, tolerance),
{
    let difference: u32 = if actual >= expected {
        actual - expected
    } else {
        expected - actual
    };
    difference <= tolerance
}

fn decode_bit(high_us: u32, low_us: u32) -> (r: Option<u8>)
    ensures
        r == bit_read(high_us, low_us),
{
    if approx_eq(high_us, BIT_ONE_HIGH_US, BIT_TOLERANCE_US) && approx_eq(
        low_us,
        BIT_ONE_LOW_US,
        BIT_TOLERANCE_US,
    ) {
        return Some(1);
    }
    if approx_eq(high_us, BIT_ZERO_HIGH_US, BIT_TOLERANCE_US) && approx_eq(
        low_us,
        BIT_ZERO_LOW_US,
        BIT_TOLERANCE_US,
    ) {
        return Some(0);
    }
    None
}

fn read_byte(bits: &Vec<u8>, from: usize) -> (r: u8)
    requires
        from + 8 <= bits.len(),
        forall|i: int| 0 <= i < bits@.len() ==> #[trigger] bits@[i] <= 1,
    ensures
        r == byte_at(bits@, from as int),
{
    bits[from] * 128 + bits[from + 1] * 64 + bits[from + 2] * 32 + bits[from + 3] * 16 + bits[from
        + 4] * 8 + bits[from + 5] * 4 + bits[from + 6] * 2 + bits[from + 7]
}

/// The bytes of a frame in hexadecimal.
pub fn hex_text(raw: &[u8; 5]) -> (r: String)
    ensures
        r@ == raw_hex(raw@),
{
    let mut s = String::new();
    push_hex(&mut s, raw[0]);
    push_hex(&mut s, raw[1]);
    push_hex(&mut s, raw[2]);
    push_hex(&mut s, raw[3]);
    push_hex(&mut s, raw[4]);
    assert(s@ =~= raw_hex(raw@));
    s
}

fn same_payload(a: &[u8; 5], b: &[u8; 5]) -> (r: bool)
    ensures
        r == (a@ == b@),
{
    let r = a[0] == b[0] && a[1] == b[1] && a[2] == b[2] && a[3] == b[3] && a[4] == b[4];
    assert(r ==> a@ =~= b@);
    r
}

impl RfReceiver {
    pub fn new() -> (r: Self)
        ensures
            r@.wf(),
            r@ == (ReceiverView {
                phase: ReceivePhase::SeekingPreambleHigh,
                bits: Seq::empty(),
                last_frame: None,
            }),
    {
        RfReceiver {
            phase: ReceivePhase::SeekingPreambleHigh,
            bits: Vec::new(),
            last_frame: None,
        }
    }

    /// Takes in a pulse that ended at `pulse_end_us`, and reports the frame that it completes.
    pub fn process_pulse(&mut self, level: bool, duration_us: u32, pulse_end_us: u64) -> (r: Option<
        RfDebugFrame,
    >)
        requires
            old(self)@.wf(),
        ensures
            final(self)@.wf(),
            (final(self)@, r.deep_view()) == received(
                old(self)@,
                (Pulse { level, duration_us }),
                pulse_end_us,
            ),
    {
        let ghost p = Pulse { level, duration_us };
        match self.phase {
            ReceivePhase::SeekingPreambleHigh => {
                if level && approx_eq(duration_us, PREAMBLE_HIGH_US, PREAMBLE_HIGH_TOLERANCE_US) {
                    self.phase = ReceivePhase::SeekingPreambleLow;
                }
            },
            ReceivePhase::SeekingPreambleLow => {
                if !level && approx_eq(duration_us, PREAMBLE_LOW_US, PREAMBLE_LOW_TOLERANCE_US) {
                    self.phase = ReceivePhase::ReadingHigh;
                    self.bits.clear();
                } else {
                    self.resync_from_pulse(level, duration_us);
                }
            },
            ReceivePhase::ReadingHigh => {
                if level && (approx_eq(duration_us, BIT_ZERO_HIGH_US, BIT_TOLERANCE_US)
                    || approx_eq(duration_us, BIT_ONE_HIGH_US, BIT_TOLERANCE_US)) {
                    self.phase = ReceivePhase::ReadingLow(duration_us);
                } else {
                    self.resync_from_pulse(level, duration_us);
                }
            },
            ReceivePhase::ReadingLow(high_us) => {
                if !level {
                    if let Some(bit) = decode_bit(high_us, duration_us) {
                        self.bits.push(bit);
                        if self.bits.len() == FRAME_BITS {
                            let frame = self.finish_frame(pulse_end_us);
                            self.reset();
                            return frame;
                        }
                        self.phase = ReceivePhase::ReadingHigh;
                    } else {
                        self.resync_from_pulse(level, duration_us);
                    }
                } else {
                    self.resync_from_pulse(level, duration_us);
                }
            },
        }
        None
    }

    fn finish_frame(&mut self, pulse_end_us: u64) -> (r: Option<RfDebugFrame>)
        requires
            old(self)@.bits.len() == FRAME_BITS,
            forall|i: int| 0 <= i < FRAME_BITS ==> #[trigger] old(self)@.bits[i] <= 1,
        ensures
            final(self)@.phase == old(self)@.phase,
            final(self)@.bits == old(self)@.bits,
            (final(self)@.last_frame, r.deep_view()) == finished(
                old(self)@.bits,
                old(self)@.last_frame,
                pulse_end_us,
            ),
    {
        if self.bits[FRAME_BITS - 2] != 0 || self.bits[FRAME_BITS - 1] != 0 {
            return None;
        }
        let raw = [
            read_byte(&self.bits, 0),
            read_byte(&self.bits, 8),
            read_byte(&self.bits, 16),
            read_byte(&self.bits, 24),
            read_byte(&self.bits, 32),
        ];
        assert(raw@ =~= payload_of(self.bits@));
        if let Some((last_raw, last_at_us)) = self.last_frame {
            let since: u64 = if pulse_end_us >= last_at_us {
                pulse_end_us - last_at_us
            } else {
                0
            };
            if same_payload(&last_raw, &raw) && since <= DUPLICATE_FRAME_WINDOW_US {
                return None;
            }
        }
        self.last_frame = Some((raw, pulse_end_us));
        let (collar_id, channel, mode_raw, intensity, checksum_ok) = decode_rf_frame(&raw);
        Some(
            RfDebugFrame {
                received_at_ms: pulse_end_us / 1000,
                raw_hex: hex_text(&raw),
                collar_id,
                channel,
                mode_raw,
                mode: CommandMode::from_rf_byte(mode_raw),
                intensity,
                checksum_ok,
            },
        )
    }

    /// Drops what was being read.
    pub fn reset(&mut self)
        ensures
            final(self)@ == old(self)@.idle(),
    {
        self.phase = ReceivePhase::SeekingPreambleHigh;
        self.bits.clear();
        assert(self@ =~= old(self)@.idle());
    }

    fn resync_from_pulse(&mut self, level: bool, duration_us: u32)
        ensures
            final(self)@ == old(self)@.resynced((Pulse { level, duration_us })),
    {
        self.reset();
        if level && approx_eq(duration_us, PREAMBLE_HIGH_US, PREAMBLE_HIGH_TOLERANCE_US) {
            self.phase = ReceivePhase::SeekingPreambleLow;
        }
    }

    /// Whether the receiver is in the middle of a frame.
    pub fn is_receiving(&self) -> (r: bool)
        ensures
            r == self@.receiving(),
    {
        match self.phase {
            ReceivePhase::SeekingPreambleHigh => false,
            _ => true,
        }
    }
}

/// What the receiver saw last of the level of its pin.
#[derive(Debug, Clone, Copy, PartialEq, Eq, Structural)]
pub struct Listener {
    pub last_level: bool,
    pub last_edge_us: u64,
}

/// What to do after a look at the pin.
#[derive(Debug)]
pub enum Listened {
    /// A frame came in.
    Frame(RfDebugFrame),
    /// The level changed: look again at once.
    Edge,
    /// Nothing is under way: rest for a moment.
    Rest,
    /// A pulse is under way: look again at once.
    Watch,
}

/// How long the level has stayed as it is, as far as 32 bits can say.
pub open spec fn since_edge(last_edge_us: u64, now_us: u64) -> u32 {
    if now_us <= last_edge_us {
        0
    } else if now_us - last_edge_us > u32::MAX {
        u32::MAX
    } else {
        (now_us - last_edge_us) as u32
    }
}

/// The receiver after a look at a pin whose level did not change: a frame that stalls for longer
/// than the gap allows is dropped.
pub open spec fn after_quiet(s: ReceiverView, l: Listener, now_us: u64) -> ReceiverView {
    if s.receiving() && now_us - l.last_edge_us > FRAME_GAP_TIMEOUT_US {
        s.idle()
    } else {
        s
    }
}

impl Listener {
    /// Takes in a look at the pin.
    pub fn observe(&mut self, receiver: &mut RfReceiver, level: bool, now_us: u64) -> (r: Listened)
        requires
            old(receiver)@.wf(),
        ensures
            final(receiver)@.wf(),
            level != old(self).last_level ==> {
                let pulse = Pulse {
                    level: old(self).last_level,
                    duration_us: since_edge(old(self).last_edge_us, now_us),
                };
                let step = received(old(receiver)@, pulse, now_us);
                &&& final(receiver)@ == step.0
                &&& *final(self) == (Listener { last_level: level, last_edge_us: now_us })
                &&& match step.1 {
                    Some(f) => r is Frame && r->Frame_0.deep_view() == f,
                    None => r is Edge,
                }
            },
            level == old(self).last_level ==> {
                let next = after_quiet(old(receiver)@, *old(self), now_us);
                &&& final(receiver)@ == next
                &&& final(self).last_level == level
                &&& final(self).last_edge_us == if next == old(receiver)@ {
                    old(self).last_edge_us
                } else {
                    now_us
                }
                &&& if !next.receiving() && !level {
                    r is Rest
                } else {
                    r is Watch
                }
            },
    {
        let quiet_us: u64 = if now_us >= self.last_edge_us {
            now_us - self.last_edge_us
        } else {
            0
        };
        if level != self.last_level {
            let duration_us: u32 = if quiet_us > 0xffff_ffff {
                0xffff_ffff
            } else {
                quiet_us as u32
            };
            let frame = receiver.process_pulse(self.last_level, duration_us, now_us);
            self.last_level = level;
            self.last_edge_us = now_us;
            return match frame {
                Some(f) => Listened::Frame(f),
                None => Listened::Edge,
            };
        }
        if receiver.is_receiving() && quiet_us > FRAME_GAP_TIMEOUT_US {
            receiver.reset();
            self.last_edge_us = now_us;
        }
        if !receiver.is_receiving() && !level {
            Listened::Rest
        } else {
            Listened::Watch
        }
    }
}

// ----- Laws -----

/// The receiver after a run of pulses that began at `start_us`, and the frames it reported.
pub open spec fn received_all(s: ReceiverView, pulses: Seq<Pulse>, start_us: int) -> (
    ReceiverView,
    Seq<RfDebugFrameView>,
)
    decreases pulses.len(),
{
    if pulses.len() == 0 {
        (s, Seq::empty())
    } else {
        let before = received_all(s, pulses.drop_last(), start_us);
        let step = received(
            before.0,
            pulses.last(),
            (start_us + pulses_us(pulses)) as u64,
        );
        (
            step.0,
            match step.1 {
                Some(f) => before.1.push(f),
                None => before.1,
            },
        )
    }
}

/// Whether a pulse is within the tolerance of the one that was sent.
pub open spec fn heard_as(p: Pulse, sent: Pulse) -> bool {
    p.level == sent.level && near(
        p.duration_us,
        sent.duration_us,
        if sent.duration_us == PREAMBLE_HIGH_US {
            PREAMBLE_HIGH_TOLERANCE_US
        } else {
            BIT_TOLERANCE_US
        },
    )
}

proof fn lemma_payload_of_bits(payload: Seq<u8>)
    requires
        payload.len() == FRAME_BYTES,
    ensures
        payload_of(frame_bits(payload)) == payload,
{
    let bits = frame_bits(payload);
    assert forall|k: int| 0 <= k < FRAME_BYTES implies #[trigger] byte_at(bits, 8 * k)
        == payload[k] by {
        let b = payload[k];
        assert(bits[8 * k] == b / 128 % 2);
        assert(bits[8 * k + 1] == b / 64 % 2);
        assert(bits[8 * k + 2] == b / 32 % 2);
        assert(bits[8 * k + 3] == b / 16 % 2);
        assert(bits[8 * k + 4] == b / 8 % 2);
        assert(bits[8 * k + 5] == b / 4 % 2);
        assert(bits[8 * k + 6] == b / 2 % 2);
        assert(bits[8 * k + 7] == b % 2);
        assert((b / 128 % 2) * 128 + (b / 64 % 2) * 64 + (b / 32 % 2) * 32 + (b / 16 % 2) * 16 + (b
            / 8 % 2) * 8 + (b / 4 % 2) * 4 + (b / 2 % 2) * 2 + b % 2 == b) by (bit_vector);
    }
    assert(payload_of(bits) =~= payload);
}

/// One more pulse.
proof fn lemma_received_next(s: ReceiverView, pulses: Seq<Pulse>, start_us: int, n: int)
    requires
        0 <= n < pulses.len(),
    ensures
        ({
            let before = received_all(s, pulses.take(n), start_us);
            let step = received(
                before.0,
                pulses[n],
                (start_us + pulses_us(pulses.take(n + 1))) as u64,
            );
            received_all(s, pulses.take(n + 1), start_us) == (
                step.0,
                match step.1 {
                    Some(f) => before.1.push(f),
                    None => before.1,
                },
            )
        }),
{
    assert(pulses.take(n + 1).drop_last() =~= pulses.take(n));
    assert(pulses.take(n + 1).last() == pulses[n]);
}

/// The high pulse of a bit.
proof fn lemma_hears_high(s: ReceiverView, p: Pulse, bit: u8, end_us: u64)
    requires
        s.phase is ReadingHigh,
        heard_as(p, bit_high(bit)),
    ensures
        received(s, p, end_us) == (
            (ReceiverView { phase: ReceivePhase::ReadingLow(p.duration_us), ..s }),
            None::<RfDebugFrameView>,
        ),
{
}

/// The low pulse of a bit that is not the last.
proof fn lemma_hears_low(s: ReceiverView, q: Pulse, bit: u8, end_us: u64)
    requires
        s.phase is ReadingLow,
        !q.level,
        bit_read(s.phase->ReadingLow_0, q.duration_us) == Some(bit),
        s.bits.len() + 1 < FRAME_BITS,
    ensures
        received(s, q, end_us) == (
            (ReceiverView { phase: ReceivePhase::ReadingHigh, bits: s.bits.push(bit), ..s }),
            None::<RfDebugFrameView>,
        ),
{
}

/// The two pulses of the preamble.
proof fn lemma_hears_preamble(
    s: ReceiverView,
    payload: Seq<u8>,
    p: Pulse,
    q: Pulse,
    first_us: u64,
    second_us: u64,
)
    requires
        s.wf(),
        s.phase is SeekingPreambleHigh,
        payload.len() == FRAME_BYTES,
        heard_as(p, repeat_pulses(payload)[0]),
        heard_as(q, repeat_pulses(payload)[1]),
    ensures
        received(s, p, first_us).1 is None,
        received(received(s, p, first_us).0, q, second_us) == (
            (ReceiverView { phase: ReceivePhase::ReadingHigh, bits: Seq::empty(), ..s }),
            None::<RfDebugFrameView>,
        ),
{
    assert(s.bits =~= Seq::empty());
}

/// The low pulse of the last bit.
proof fn lemma_hears_last_low(s: ReceiverView, q: Pulse, bits: Seq<u8>, end_us: u64)
    requires
        s.phase is ReadingLow,
        !q.level,
        bit_read(s.phase->ReadingLow_0, q.duration_us) is Some,
        bits == s.bits.push(bit_read(s.phase->ReadingLow_0, q.duration_us)->0),
        bits.len() == FRAME_BITS,
    ensures
        received(s, q, end_us).0 == (ReceiverView {
            last_frame: finished(bits, s.last_frame, end_us).0,
            ..s.idle()
        }),
        received(s, q, end_us).1 == finished(bits, s.last_frame, end_us).1,
{
}

/// The bits of a payload are finished as that payload.
proof fn lemma_finished_payload(payload: Seq<u8>, last: Option<(Seq<u8>, u64)>, end_us: u64)
    requires
        payload.len() == FRAME_BYTES,
    ensures
        finished(frame_bits(payload), last, end_us) == if is_repeat(last, payload, end_us) {
            (last, None::<RfDebugFrameView>)
        } else {
            (Some((payload, end_us)), Some(frame_report(payload, end_us)))
        },
{
    lemma_payload_of_bits(payload);
}

/// The two pulses of a bit make that bit.
proof fn lemma_bit_read(p: Pulse, q: Pulse, bit: u8)
    requires
        bit <= 1,
        heard_as(p, bit_high(bit)),
        heard_as(q, bit_low(bit)),
    ensures
        !q.level,
        bit_read(p.duration_us, q.duration_us) == Some(bit),
{
}

/// What was sent as the pulses of bit `k`.
proof fn lemma_pulses_of_bit(payload: Seq<u8>, k: int)
    requires
        payload.len() == FRAME_BYTES,
        0 <= k < FRAME_BITS,
    ensures
        repeat_pulses(payload)[2 + 2 * k] == bit_high(frame_bits(payload)[k]),
        repeat_pulses(payload)[3 + 2 * k] == bit_low(frame_bits(payload)[k]),
        frame_bits(payload)[k] <= 1,
{
    assert((2 + 2 * k) % 2 == 0 && (3 + 2 * k) % 2 == 1);
    assert((2 + 2 * k - 2) / 2 == k && (3 + 2 * k - 2) / 2 == k);
}

/// The receiver after the preamble and `k` bits of a frame.
#[verifier::spinoff_prover]
#[verifier::rlimit(60)]
proof fn lemma_reads_bits(
    s: ReceiverView,
    payload: Seq<u8>,
    pulses: Seq<Pulse>,
    start_us: int,
    k: int,
)
    requires
        s.wf(),
        s.phase is SeekingPreambleHigh,
        payload.len() == FRAME_BYTES,
        pulses.len() == REPEAT_PULSES,
        forall|i: int|
            0 <= i < REPEAT_PULSES ==> heard_as(#[trigger] pulses[i], repeat_pulses(payload)[i]),
        0 <= k < FRAME_BITS,
    ensures
        received_all(s, pulses.take(2 + 2 * k), start_us) == (
            (ReceiverView {
                phase: ReceivePhase::ReadingHigh,
                bits: frame_bits(payload).take(k),
                last_frame: s.last_frame,
            }),
            Seq::<RfDebugFrameView>::empty(),
        ),
    decreases k,
{
    let sent = repeat_pulses(payload);
    let bits = frame_bits(payload);
    if k == 0 {
        assert(pulses.take(0) =~= Seq::empty());
        lemma_received_next(s, pulses, start_us, 0);
        lemma_received_next(s, pulses, start_us, 1);
        assert(heard_as(pulses[0], sent[0]));
        assert(heard_as(pulses[1], sent[1]));
        lemma_hears_preamble(
            s,
            payload,
            pulses[0],
            pulses[1],
            (start_us + pulses_us(pulses.take(1))) as u64,
            (start_us + pulses_us(pulses.take(2))) as u64,
        );
        assert(bits.take(0) =~= Seq::empty());
    } else {
        let n = 2 * k;
        lemma_reads_bits(s, payload, pulses, start_us, k - 1);
        lemma_received_next(s, pulses, start_us, n);
        lemma_received_next(s, pulses, start_us, n + 1);
        lemma_pulses_of_bit(payload, k - 1);
        assert(heard_as(pulses[n], sent[n]));
        assert(heard_as(pulses[n + 1], sent[n + 1]));
        let before = received_all(s, pulses.take(n), start_us).0;
        let first_us = (start_us + pulses_us(pulses.take(n + 1))) as u64;
        lemma_hears_high(before, pulses[n], bits[k - 1], first_us);
        lemma_bit_read(pulses[n], pulses[n + 1], bits[k - 1]);
        lemma_hears_low(
            received(before, pulses[n], first_us).0,
            pulses[n + 1],
            bits[k - 1],
            (start_us + pulses_us(pulses.take(n + 2))) as u64,
        );
        assert(bits.take(k) =~= bits.take(k - 1).push(bits[k - 1]));
    }
}

/// A receiver that waits for a frame and hears one repeat of it, every pulse within its
/// tolerance, reports exactly that frame, unless it repeats the last report, and waits again.
#[verifier::spinoff_prover]
#[verifier::rlimit(60)]
pub proof fn lemma_receiver_reads_frame(
    s: ReceiverView,
    payload: Seq<u8>,
    pulses: Seq<Pulse>,
    start_us: int,
)
    requires
        s.wf(),
        s.phase is SeekingPreambleHigh,
        payload.len() == FRAME_BYTES,
        pulses.len() == REPEAT_PULSES,
        forall|i: int|
            0 <= i < REPEAT_PULSES ==> heard_as(#[trigger] pulses[i], repeat_pulses(payload)[i]),
    ensures
        ({
            let end_us = (start_us + pulses_us(pulses)) as u64;
            received_all(s, pulses, start_us) == if is_repeat(s.last_frame, payload, end_us) {
                (s, Seq::<RfDebugFrameView>::empty())
            } else {
                (
                    ReceiverView { last_frame: Some((payload, end_us)), ..s },
                    seq![frame_report(payload, end_us)],
                )
            }
        }),
{
    let k = FRAME_BITS - 1;
    let n = 2 + 2 * k;
    let sent = repeat_pulses(payload);
    let bits = frame_bits(payload);
    let end_us = (start_us + pulses_us(pulses)) as u64;
    lemma_reads_bits(s, payload, pulses, start_us, k);
    lemma_received_next(s, pulses, start_us, n);
    lemma_received_next(s, pulses, start_us, n + 1);
    lemma_pulses_of_bit(payload, k);
    assert(pulses.take(n + 2) =~= pulses);
    assert(heard_as(pulses[n], sent[n]));
    assert(heard_as(pulses[n + 1], sent[n + 1]));
    let before = received_all(s, pulses.take(n), start_us).0;
    let middle = ReceiverView { phase: ReceivePhase::ReadingLow(pulses[n].duration_us), ..before };
    lemma_hears_high(
        before,
        pulses[n],
        bits[k],
        (start_us + pulses_us(pulses.take(n + 1))) as u64,
    );
    lemma_bit_read(pulses[n], pulses[n + 1], bits[k]);
    assert(bits.take(k).push(bits[k]) =~= bits);
    lemma_hears_last_low(middle, pulses[n + 1], bits, end_us);
    lemma_finished_payload(payload, s.last_frame, end_us);
    assert(s.bits =~= Seq::empty());
    assert(Seq::<RfDebugFrameView>::empty().push(frame_report(payload, end_us)) =~= seq![
        frame_report(payload, end_us),
    ]);
}

proof fn lemma_received_all_joined(
    s: ReceiverView,
    a: Seq<Pulse>,
    b: Seq<Pulse>,
    start_us: int,
)
    ensures
        ({
            let first = received_all(s, a, start_us);
            let second = received_all(first.0, b, start_us + pulses_us(a));
            received_all(s, a + b, start_us) == (second.0, first.1 + second.1)
        }),
    decreases b.len(),
{
    let first = received_all(s, a, start_us);
    if b.len() == 0 {
        assert(a + b =~= a);
        assert(first.1 + Seq::<RfDebugFrameView>::empty() =~= first.1);
    } else {
        lemma_received_all_joined(s, a, b.drop_last(), start_us);
        lemma_pulses_us_joined(a, b);
        assert((a + b).drop_last() =~= a + b.drop_last());
        let second = received_all(first.0, b, start_us + pulses_us(a));
        assert(received_all(s, a + b, start_us).1 =~= first.1 + second.1);
    }
}

/// A command that is sent with all its repeats is reported exactly once, when its first repeat
/// ends, by a receiver that was waiting and had not just reported the same frame.
pub proof fn lemma_command_heard_once(s: ReceiverView, payload: Seq<u8>, start_us: int)
    requires
        s.wf(),
        s.phase is SeekingPreambleHigh,
        payload.len() == FRAME_BYTES,
        0 <= start_us,
        start_us + crate::rf_timing::RF_COMMAND_TRANSMIT_DURATION_US <= u64::MAX,
        !is_repeat(
            s.last_frame,
            payload,
            (start_us + crate::rf_timing::RF_REPEAT_DURATION_US) as u64,
        ),
    ensures
        ({
            let first_end = (start_us + crate::rf_timing::RF_REPEAT_DURATION_US) as u64;
            received_all(s, command_pulses(payload), start_us) == (
                (ReceiverView { last_frame: Some((payload, first_end)), ..s }),
                seq![frame_report(payload, first_end)],
            )
        }),
{
    let one = repeat_pulses(payload);
    crate::rf_timing::lemma_timing();
    lemma_command_duration(payload);
    lemma_pulses_us_joined(one, one);
    assert forall|i: int| 0 <= i < REPEAT_PULSES implies heard_as(#[trigger] one[i], one[i]) by {}
    let first_end = (start_us + 44_150) as u64;
    let after = ReceiverView { last_frame: Some((payload, first_end)), ..s };
    lemma_receiver_reads_frame(s, payload, one, start_us);
    lemma_receiver_reads_frame(after, payload, one, start_us + 44_150);
    lemma_receiver_reads_frame(after, payload, one, start_us + 88_300);
    lemma_received_all_joined(s, one, one, start_us);
    lemma_received_all_joined(s, one + one, one, start_us);
    let report = seq![frame_report(payload, first_end)];
    let nothing = Seq::<RfDebugFrameView>::empty();
    assert(report + nothing =~= report);
}

/// The report on the frame of a command names that command.
pub proof fn lemma_report_names_command(
    collar_id: u16,
    channel: u8,
    mode: CommandMode,
    intensity: u8,
    end_us: u64,
)
    requires
        channel < 16,
    ensures
        ({
            let report = frame_report(
                crate::protocol::rf_codec::rf_frame(collar_id, channel, mode.rf_byte(), intensity),
                end_us,
            );
            &&& report.collar_id == collar_id
            &&& report.channel == channel
            &&& report.mode == Some(mode)
            &&& report.intensity == intensity
            &&& report.checksum_ok
        }),
{
    crate::protocol::rf_codec::lemma_frame_round_trip(
        collar_id,
        channel,
        mode.rf_byte(),
        intensity,
    );
}

// ----- The signal -----

proof fn lemma_bit_of(b: u8, j: int)
    requires
        0 <= j < 8,
    ensures
        bit_of(b, j) == (b >> ((7 - j) as u8)) & 1,
{
    assert(b / 128 % 2 == (b >> 7u8) & 1 && b / 64 % 2 == (b >> 6u8) & 1 && b / 32 % 2 == (b >> 5u8)
        & 1 && b / 16 % 2 == (b >> 4u8) & 1 && b / 8 % 2 == (b >> 3u8) & 1 && b / 4 % 2 == (b
        >> 2u8) & 1 && b / 2 % 2 == (b >> 1u8) & 1 && b % 2 == (b >> 0u8) & 1) by (bit_vector);
}

/// Whether a pulse is high and the next one low, for so long.
pub open spec fn high_then_low(pulses: Seq<Pulse>, at: int, high_us: u32, low_us: u32) -> bool {
    &&& pulses[at] == (Pulse { level: true, duration_us: high_us })
    &&& pulses[at + 1] == (Pulse { level: false, duration_us: low_us })
}

/// A command is three equal repeats of 86 pulses. Each begins with a preamble, 1400 us high and
/// 750 us low. The bits of the payload follow, byte after byte, each byte with its most significant
/// bit first: a one is 750 us high and 250 us low, a zero 250 us high and 750 us low. Two zeros end
/// the repeat.
pub proof fn lemma_pulses_spell_payload(payload: Seq<u8>, repeat: int, k: int, j: int)
    requires
        payload.len() == 5,
        0 <= repeat < 3,
        0 <= k < 5,
        0 <= j < 8,
    ensures
        ({
            let pulses = command_pulses(payload);
            let at = 86 * repeat;
            &&& pulses.len() == 258
            &&& high_then_low(pulses, at, 1400, 750)
            &&& (payload[k] >> ((7 - j) as u8)) & 1 == 1 ==> high_then_low(
                pulses,
                at + 2 + 2 * (8 * k + j),
                750,
                250,
            )
            &&& (payload[k] >> ((7 - j) as u8)) & 1 != 1 ==> high_then_low(
                pulses,
                at + 2 + 2 * (8 * k + j),
                250,
                750,
            )
            &&& high_then_low(pulses, at + 82, 250, 750)
            &&& high_then_low(pulses, at + 84, 250, 750)
        }),
{
    let one = repeat_pulses(payload);
    let pulses = command_pulses(payload);
    assert forall|i: int| 0 <= i < 86 implies pulses[86 * repeat + i] == #[trigger] one[i] by {
        if repeat == 0 {
            assert(pulses[i] == one[i]);
        } else if repeat == 1 {
            assert(pulses[86 + i] == one[i]);
        } else {
            assert(pulses[172 + i] == one[i]);
        }
    }
    let bits = frame_bits(payload);
    lemma_bit_of(payload[k], j);
    lemma_pulses_of_bit(payload, 8 * k + j);
    lemma_pulses_of_bit(payload, 40);
    lemma_pulses_of_bit(payload, 41);
    assert((8 * k + j) / 8 == k && (8 * k + j) % 8 == j);
    assert(bits[8 * k + j] == bit_of(payload[k], j));
    let n = 2 + 2 * (8 * k + j);
    assert(pulses[86 * repeat + n] == one[n]);
    assert(pulses[86 * repeat + (n + 1)] == one[n + 1]);
    assert(pulses[86 * repeat + 0] == one[0]);
    assert(pulses[86 * repeat + 1] == one[1]);
    assert(pulses[86 * repeat + 82] == one[82]);
    assert(pulses[86 * repeat + 83] == one[83]);
    assert(pulses[86 * repeat + 84] == one[84]);
    assert(pulses[86 * repeat + 85] == one[85]);
}

// ----- What the receiver makes of a signal -----

/// Whether a pulse is the first of a preamble: 1400 us high, give or take 350.
pub open spec fn preamble_high_heard(p: Pulse) -> bool {
    p.level && 1050 <= p.duration_us <= 1750
}

/// Whether a pulse is the second of a preamble: 750 us low, give or take 180.
pub open spec fn preamble_low_heard(p: Pulse) -> bool {
    !p.level && 570 <= p.duration_us <= 930
}

/// Whether two pulses make a bit: 750 us high and 250 us low for a one, 250 us high and 750 us low
/// for a zero, each give or take 180.
pub open spec fn bit_heard(p: Pulse, q: Pulse, one: bool) -> bool {
    &&& p.level
    &&& !q.level
    &&& one ==> 570 <= p.duration_us <= 930 && 70 <= q.duration_us <= 430
    &&& !one ==> 70 <= p.duration_us <= 430 && 570 <= q.duration_us <= 930
}

/// Whether 86 pulses are heard as one repeat of a frame with this payload.
pub open spec fn frame_heard(pulses: Seq<Pulse>, payload: Seq<u8>) -> bool {
    &&& pulses.len() == 86
    &&& payload.len() == 5
    &&& preamble_high_heard(pulses[0])
    &&& preamble_low_heard(pulses[1])
    &&& forall|k: int, j: int|
        0 <= k < 5 && 0 <= j < 8 ==> bit_heard(
            pulses[2 + 2 * (8 * k + j)],
            pulses[3 + 2 * (8 * k + j)],
            (#[trigger] payload[k] >> (#[trigger] as_place(j))) & 1 == 1,
        )
    &&& bit_heard(pulses[82], pulses[83], false)
    &&& bit_heard(pulses[84], pulses[85], false)
}

/// How far the bit at place `j` of a byte, counted from the most significant one, is from the
/// least significant one.
pub open spec fn as_place(j: int) -> u8 {
    (7 - j) as u8
}

/// A receiver that waits for a frame and hears one reports it, with the time at which it ended,
/// unless it reported the same frame at most 100 ms ago; then it waits again.
pub proof fn lemma_heard_frame_is_reported(
    s: ReceiverView,
    payload: Seq<u8>,
    pulses: Seq<Pulse>,
    start_us: int,
)
    requires
        s.wf(),
        s.phase is SeekingPreambleHigh,
        frame_heard(pulses, payload),
    ensures
        ({
            let end_us = (start_us + pulses_us(pulses)) as u64;
            let r = received_all(s, pulses, start_us);
            &&& r.0.phase is SeekingPreambleHigh
            &&& r.0.bits.len() == 0
            &&& match s.last_frame {
                Some(last) if last.0 == payload && end_us - last.1 <= 100_000 => r.1.len() == 0
                    && r.0.last_frame == s.last_frame,
                _ => r.1 == seq![frame_report(payload, end_us)] && r.0.last_frame == Some(
                    (payload, end_us),
                ),
            }
        }),
{
    assert forall|i: int| 0 <= i < REPEAT_PULSES implies heard_as(
        #[trigger] pulses[i],
        repeat_pulses(payload)[i],
    ) by {
        if i >= 2 {
            let n = (i - 2) / 2;
            lemma_pulses_of_bit(payload, n);
            if n < 40 {
                let k = n / 8;
                let j = n % 8;
                lemma_bit_of(payload[k], j);
                assert(8 * k + j == n);
                assert(bit_heard(
                    pulses[2 + 2 * (8 * k + j)],
                    pulses[3 + 2 * (8 * k + j)],
                    (payload[k] >> as_place(j)) & 1 == 1,
                ));
                assert(frame_bits(payload)[n] == bit_of(payload[k], j));
            }
            assert(i == 2 + 2 * n || i == 3 + 2 * n);
        }
    }
    lemma_receiver_reads_frame(s, payload, pulses, start_us);
    assert(s.bits.len() == 0);
}

/// What the receiver holds of the pulses that it heard last: the preamble and the bits of a frame
/// that is being read.
pub open spec fn holds_tail(s: ReceiverView, pulses: Seq<Pulse>) -> bool {
    let n = s.bits.len() as int;
    let m = pulses.len() as int;
    match s.phase {
        ReceivePhase::SeekingPreambleHigh => true,
        ReceivePhase::SeekingPreambleLow => m >= 1 && preamble_high_heard(pulses[m - 1]),
        ReceivePhase::ReadingHigh => tail_heard(pulses, s.bits, m - 2 - 2 * n),
        ReceivePhase::ReadingLow(high_us) => {
            &&& m >= 1
            &&& tail_heard(pulses, s.bits, m - 3 - 2 * n)
            &&& pulses[m - 1].level
            &&& pulses[m - 1].duration_us == high_us
        },
    }
}

/// Whether a preamble and these bits stand in the pulses from `from` on.
pub open spec fn tail_heard(pulses: Seq<Pulse>, bits: Seq<u8>, from: int) -> bool {
    &&& 0 <= from
    &&& from + 2 + 2 * bits.len() <= pulses.len()
    &&& preamble_high_heard(pulses[from])
    &&& preamble_low_heard(pulses[from + 1])
    &&& forall|i: int|
        0 <= i < bits.len() ==> bit_heard(
            pulses[from + 2 + 2 * i],
            pulses[from + 3 + 2 * i],
            (#[trigger] bits[i]) == 1,
        )
}

proof fn lemma_tail_grows(pulses: Seq<Pulse>, p: Pulse, bits: Seq<u8>, from: int)
    requires
        tail_heard(pulses, bits, from),
    ensures
        tail_heard(pulses.push(p), bits, from),
{
    let more = pulses.push(p);
    assert forall|i: int| 0 <= i < bits.len() implies bit_heard(
        more[from + 2 + 2 * i],
        more[from + 3 + 2 * i],
        (#[trigger] bits[i]) == 1,
    ) by {
        assert(more[from + 2 + 2 * i] == pulses[from + 2 + 2 * i]);
        assert(more[from + 3 + 2 * i] == pulses[from + 3 + 2 * i]);
    }
}

proof fn lemma_holds_tail(s: ReceiverView, pulses: Seq<Pulse>, p: Pulse, end_us: u64)
    requires
        s.wf(),
        holds_tail(s, pulses),
    ensures
        holds_tail(received(s, p, end_us).0, pulses.push(p)),
        received(s, p, end_us).0.wf(),
        received(s, p, end_us).1 is Some ==> {
            let n = pulses.len() as int;
            &&& s.phase is ReadingLow
            &&& s.bits.len() == 41
            &&& tail_heard(
                pulses.push(p),
                s.bits.push(bit_read(s.phase->ReadingLow_0, p.duration_us)->0),
                n - 85,
            )
            &&& bit_read(s.phase->ReadingLow_0, p.duration_us) == Some(0u8)
            &&& s.bits[40] == 0
            &&& received(s, p, end_us).1 == Some(
                frame_report(
                    payload_of(s.bits.push(bit_read(s.phase->ReadingLow_0, p.duration_us)->0)),
                    end_us,
                ),
            )
        },
{
    let n = s.bits.len() as int;
    let m = pulses.len() as int;
    let more = pulses.push(p);
    match s.phase {
        ReceivePhase::SeekingPreambleHigh => {},
        ReceivePhase::SeekingPreambleLow => {},
        ReceivePhase::ReadingHigh => {
            lemma_tail_grows(pulses, p, s.bits, m - 2 - 2 * n);
        },
        ReceivePhase::ReadingLow(high_us) => {
            let from = m - 3 - 2 * n;
            lemma_tail_grows(pulses, p, s.bits, from);
            if !p.level && bit_read(high_us, p.duration_us) is Some {
                let bit = bit_read(high_us, p.duration_us)->0;
                let bits = s.bits.push(bit);
                assert forall|i: int| 0 <= i < bits.len() implies bit_heard(
                    more[from + 2 + 2 * i],
                    more[from + 3 + 2 * i],
                    (#[trigger] bits[i]) == 1,
                ) by {
                    if i < n {
                        assert(bits[i] == s.bits[i]);
                    } else {
                        assert(more[from + 2 + 2 * i] == pulses[m - 1]);
                        assert(more[from + 3 + 2 * i] == p);
                    }
                }
                assert(tail_heard(more, bits, from));
            }
        },
    }
}

proof fn lemma_payload_bits(bits: Seq<u8>, k: int, j: int)
    requires
        bits.len() == FRAME_BITS,
        forall|i: int| 0 <= i < bits.len() ==> #[trigger] bits[i] <= 1,
        0 <= k < 5,
        0 <= j < 8,
    ensures
        (payload_of(bits)[k] >> as_place(j)) & 1 == bits[8 * k + j],
{
    let b0 = bits[8 * k];
    let b1 = bits[8 * k + 1];
    let b2 = bits[8 * k + 2];
    let b3 = bits[8 * k + 3];
    let b4 = bits[8 * k + 4];
    let b5 = bits[8 * k + 5];
    let b6 = bits[8 * k + 6];
    let b7 = bits[8 * k + 7];
    let b = payload_of(bits)[k];
    assert(b == byte_at(bits, 8 * k));
    assert(b0 <= 1 && b1 <= 1 && b2 <= 1 && b3 <= 1 && b4 <= 1 && b5 <= 1 && b6 <= 1 && b7 <= 1);
    assert(b == b0 * 128 + b1 * 64 + b2 * 32 + b3 * 16 + b4 * 8 + b5 * 4 + b6 * 2 + b7);
    lemma_bit_of(b, j);
    assert(b / 128 % 2 == b0 && b / 64 % 2 == b1 && b / 32 % 2 == b2 && b / 16 % 2 == b3 && b / 8
        % 2 == b4 && b / 4 % 2 == b5 && b / 2 % 2 == b6 && b % 2 == b7) by (bit_vector)
        requires
            b0 <= 1 && b1 <= 1 && b2 <= 1 && b3 <= 1 && b4 <= 1 && b5 <= 1 && b6 <= 1 && b7 <= 1,
            b == b0 * 128 + b1 * 64 + b2 * 32 + b3 * 16 + b4 * 8 + b5 * 4 + b6 * 2 + b7,
    ;
}

proof fn lemma_holds_tail_of_all(s: ReceiverView, pulses: Seq<Pulse>, start_us: int)
    requires
        s.wf(),
        s.phase is SeekingPreambleHigh,
    ensures
        received_all(s, pulses, start_us).0.wf(),
        holds_tail(received_all(s, pulses, start_us).0, pulses),
    decreases pulses.len(),
{
    if pulses.len() > 0 {
        let front = pulses.drop_last();
        lemma_holds_tail_of_all(s, front, start_us);
        lemma_holds_tail(
            received_all(s, front, start_us).0,
            front,
            pulses.last(),
            (start_us + pulses_us(pulses)) as u64,
        );
        assert(front.push(pulses.last()) =~= pulses);
    }
}

/// The receiver reports nothing that it did not hear: where a pulse makes it report, the last 86
/// pulses are one repeat of a frame, and the report is on that frame.
pub proof fn lemma_report_was_heard(
    s: ReceiverView,
    pulses: Seq<Pulse>,
    p: Pulse,
    start_us: int,
    end_us: u64,
)
    requires
        s.wf(),
        s.phase is SeekingPreambleHigh,
        received(received_all(s, pulses, start_us).0, p, end_us).1 is Some,
    ensures
        pulses.len() >= 85,
        exists|payload: Seq<u8>| #[trigger]
            frame_heard(pulses.push(p).skip(pulses.len() - 85), payload) && received(
                received_all(s, pulses, start_us).0,
                p,
                end_us,
            ).1 == Some(frame_report(payload, end_us)),
{
    let before = received_all(s, pulses, start_us).0;
    lemma_holds_tail_of_all(s, pulses, start_us);
    lemma_holds_tail(before, pulses, p, end_us);
    let bits = before.bits.push(bit_read(before.phase->ReadingLow_0, p.duration_us)->0);
    let from = pulses.len() - 85;
    let more = pulses.push(p);
    let own = more.skip(from);
    let payload = payload_of(bits);
    assert(tail_heard(more, bits, from));
    assert forall|i: int| 0 <= i < bits.len() implies #[trigger] bits[i] <= 1 by {
        if i < 41 {
            assert(bits[i] == before.bits[i]);
        }
    }
    assert forall|i: int| 0 <= i < 42 implies bit_heard(
        own[2 + 2 * i],
        own[3 + 2 * i],
        (#[trigger] bits[i]) == 1,
    ) by {
        assert(own[2 + 2 * i] == more[from + 2 + 2 * i]);
        assert(own[3 + 2 * i] == more[from + 3 + 2 * i]);
    }
    assert forall|k: int, j: int| 0 <= k < 5 && 0 <= j < 8 implies bit_heard(
        own[2 + 2 * (8 * k + j)],
        own[3 + 2 * (8 * k + j)],
        (#[trigger] payload[k] >> (#[trigger] as_place(j))) & 1 == 1,
    ) by {
        lemma_payload_bits(bits, k, j);
        assert(bits[8 * k + j] <= 1);
    }
    assert(bits[40] == 0 && bits[41] == 0);
    assert(frame_heard(own, payload));
}

/// The report on a frame tells what its bytes say, when it ended in whole milliseconds, and its
/// bytes in hexadecimal.
pub proof fn lemma_report_tells_frame(raw: Seq<u8>, end_us: u64)
    requires
        raw.len() == 5,
    ensures
        ({
            let report = frame_report(raw, end_us);
            &&& report.received_at_ms * 1000 <= end_us < report.received_at_ms * 1000 + 1000
            &&& report.collar_id == raw[0] * 256 + raw[1]
            &&& raw[2] == report.channel * 16 + report.mode_raw
            &&& report.mode_raw < 16
            &&& report.intensity == raw[3]
            &&& report.checksum_ok == ((raw[0] + raw[1] + raw[2] + raw[3] - raw[4]) % 256 == 0)
            &&& report.mode == match report.mode_raw {
                1u8 => Some(CommandMode::Shock),
                2u8 => Some(CommandMode::Vibrate),
                3u8 => Some(CommandMode::Beep),
                _ => None,
            }
            &&& report.raw_hex.len() == 10
            &&& forall|k: int|
                0 <= k < 5 ==> report.raw_hex[2 * k] == crate::text::digit((#[trigger] raw[k] / 16) as int)
                    && report.raw_hex[2 * k + 1] == crate::text::digit((raw[k] % 16) as int)
        }),
{
    crate::protocol::rf_codec::lemma_frame_reading(raw);
    let text = raw_hex(raw);
    assert forall|k: int| 0 <= k < 5 implies text[2 * k] == crate::text::digit(
        (#[trigger] raw[k] / 16) as int,
    ) && text[2 * k + 1] == crate::text::digit((raw[k] % 16) as int) by {
        assert(k == 0 || k == 1 || k == 2 || k == 3 || k == 4);
    }
}

/// How long the level has stayed is measured in microseconds, as far as 32 bits can say.
pub proof fn lemma_level_is_timed(last_edge_us: u64, now_us: u64)
    ensures
        now_us <= last_edge_us ==> since_edge(last_edge_us, now_us) == 0,
        last_edge_us <= now_us <= last_edge_us + 4_294_967_295 ==> last_edge_us + since_edge(
            last_edge_us,
            now_us,
        ) == now_us,
        now_us > last_edge_us + 4_294_967_295 ==> since_edge(last_edge_us, now_us)
            == 4_294_967_295,
{
}

/// A frame that stalls for more than five milliseconds is dropped, and only such a frame; the last
/// report is not forgotten with it.
pub proof fn lemma_stalled_frame_is_dropped(s: ReceiverView, l: Listener, now_us: u64)
    ensures
        ({
            let r = after_quiet(s, l, now_us);
            let stalled = now_us > l.last_edge_us + 5_000;
            &&& s.phase is SeekingPreambleHigh || !stalled ==> r == s
            &&& !(s.phase is SeekingPreambleHigh) && stalled ==> {
                &&& r.phase is SeekingPreambleHigh
                &&& r.bits.len() == 0
                &&& r.last_frame == s.last_frame
            }
        }),
{
}

/// A pulse that fits nothing ends what was being read; one that can begin a frame begins one.
pub proof fn lemma_a_new_frame_can_begin_at_any_time(s: ReceiverView, p: Pulse)
    ensures
        ({
            let r = s.resynced(p);
            &&& r.bits.len() == 0
            &&& r.last_frame == s.last_frame
            &&& p.level && 1_050 <= p.duration_us <= 1_750 ==> r.phase is SeekingPreambleLow
            &&& !(p.level && 1_050 <= p.duration_us <= 1_750) ==> r.phase is SeekingPreambleHigh
        }),
{
}

/// A frame repeats the last report exactly if it holds the same bytes and ends within a tenth of a
/// second after it.
pub proof fn lemma_what_a_repeat_is(raw: Seq<u8>, last: Seq<u8>, last_us: u64, end_us: u64)
    ensures
        is_repeat(Some((last, last_us)), raw, end_us) <==> raw == last && end_us <= last_us
            + 100_000,
        !is_repeat(None, raw, end_us),
{
}

} // verus!
