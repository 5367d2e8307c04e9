//! Timing of the collar radio protocol.
//!
//! The transmitter sends a 5-byte payload plus two trailing zero bits,
//! repeated three times back-to-back.

use vstd::prelude::*;

verus! {

pub const REPEAT_COUNT: usize = 3;

pub const FRAME_BYTES: usize = 5;

pub const FRAME_BITS: usize = FRAME_BYTES * 8 + 2;

pub const PREAMBLE_HIGH_US: u32 = 1400;

pub const PREAMBLE_LOW_US: u32 = 750;

pub const BIT_ONE_HIGH_US: u32 = 750;

pub const BIT_ONE_LOW_US: u32 = 250;

pub const BIT_ZERO_HIGH_US: u32 = 250;

pub const BIT_ZERO_LOW_US: u32 = 750;

pub const BIT_TOTAL_US: u64 = (BIT_ONE_HIGH_US + BIT_ONE_LOW_US) as u64;

/// How long one repeat of a frame takes.
#[verifier::nonlinear]
pub const RF_REPEAT_DURATION_US: u64 = PREAMBLE_HIGH_US as u64 + PREAMBLE_LOW_US as u64
    + FRAME_BITS as u64 * BIT_TOTAL_US;

/// How long a command occupies the transmitter.
#[verifier::nonlinear]
pub const RF_COMMAND_TRANSMIT_DURATION_US: u64 = REPEAT_COUNT as u64 * RF_REPEAT_DURATION_US;

/// From the start of the first repeat of a command to the start of the last.
#[verifier::nonlinear]
pub const RF_COMMAND_REPEAT_SPAN_US: u64 = (REPEAT_COUNT as u64 - 1) * RF_REPEAT_DURATION_US;

pub const RETRANSMIT_INTERVAL_US: u64 = 200_000;

/// How long a command keeps a collar active, from its start.
#[verifier::nonlinear]
pub const RF_COMMAND_COVERAGE_US: u64 = RF_COMMAND_REPEAT_SPAN_US + RETRANSMIT_INTERVAL_US;

/// The figures that follow from the shape of the signal: a one and a zero take equally long, and
/// a command takes 132 450 microseconds.
pub proof fn lemma_timing()
    ensures
        BIT_ONE_HIGH_US + BIT_ONE_LOW_US == BIT_TOTAL_US,
        BIT_ZERO_HIGH_US + BIT_ZERO_LOW_US == BIT_TOTAL_US,
        RF_REPEAT_DURATION_US == 44_150,
        RF_COMMAND_REPEAT_SPAN_US == 88_300,
        RF_COMMAND_TRANSMIT_DURATION_US == 132_450,
        RF_COMMAND_COVERAGE_US == 288_300,
{
}

} // verus!
