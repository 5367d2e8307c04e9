use rusty_collars::rf_timing::{
    BIT_ONE_HIGH_US, BIT_ONE_LOW_US, BIT_TOTAL_US, BIT_ZERO_HIGH_US, BIT_ZERO_LOW_US,
    RF_COMMAND_COVERAGE_US, RF_COMMAND_REPEAT_SPAN_US, RF_COMMAND_TRANSMIT_DURATION_US,
    RF_REPEAT_DURATION_US,
};

#[test]
fn bit_timings_match() {
    assert_eq!(BIT_ONE_HIGH_US as u64 + BIT_ONE_LOW_US as u64, BIT_TOTAL_US);
    assert_eq!(
        BIT_ZERO_HIGH_US as u64 + BIT_ZERO_LOW_US as u64,
        BIT_TOTAL_US
    );
}

#[test]
fn derived_command_timing_matches_waveform() {
    assert_eq!(RF_REPEAT_DURATION_US, 44_150);
    assert_eq!(RF_COMMAND_REPEAT_SPAN_US, 88_300);
    assert_eq!(RF_COMMAND_TRANSMIT_DURATION_US, 132_450);
    assert_eq!(RF_COMMAND_COVERAGE_US, 288_300);
}
