use iq_slicer::detector::{
    add_padding, auto_threshold, detect_segments, filter_max_duration, filter_min_duration,
    merge_segments, profile_frame_count, profile_frame_start, sort_powers, Segment,
};

fn seg(start: usize, end: usize) -> Segment {
    Segment { start_sample: start, end_sample: end }
}

#[test]
fn segment_duration() {
    assert_eq!(seg(5, 25).duration_samples(), 20);
}

#[test]
fn merge_within_gap() {
    let r = merge_segments(vec![seg(0, 10), seg(15, 20)], 5);
    assert_eq!(r, vec![seg(0, 20)]);
}

#[test]
fn merge_beyond_gap() {
    let r = merge_segments(vec![seg(0, 10), seg(16, 20)], 5);
    assert_eq!(r, vec![seg(0, 10), seg(16, 20)]);
}

#[test]
fn merge_adjacent_with_zero_gap() {
    let r = merge_segments(vec![seg(0, 10), seg(10, 12)], 0);
    assert_eq!(r, vec![seg(0, 12)]);
}

#[test]
fn merge_empty_list() {
    let r = merge_segments(Vec::new(), 100);
    assert_eq!(r, Vec::new());
}

#[test]
fn merge_chain_of_three() {
    let r = merge_segments(vec![seg(0, 10), seg(12, 20), seg(22, 30)], 2);
    assert_eq!(r, vec![seg(0, 30)]);
}

#[test]
fn padding_clamps_at_both_ends() {
    let r = add_padding(vec![seg(3, 10)], 5, 12);
    assert_eq!(r, vec![seg(0, 12)]);
}

#[test]
fn padding_larger_than_recording() {
    let r = add_padding(vec![seg(2, 4)], 1000, 6);
    assert_eq!(r, vec![seg(0, 6)]);
}

#[test]
fn padding_interior_segment() {
    let r = add_padding(vec![seg(100, 200)], 10, 1000);
    assert_eq!(r, vec![seg(90, 210)]);
}

#[test]
fn filter_short_segments_out() {
    let r = filter_min_duration(vec![seg(0, 10), seg(20, 25)], 6);
    assert_eq!(r, vec![seg(0, 10)]);
}

#[test]
fn filter_long_segments_out() {
    let r = filter_max_duration(vec![seg(0, 10), seg(20, 25)], 6);
    assert_eq!(r, vec![seg(20, 25)]);
}

#[test]
fn profile_count_short_recording_is_one_frame() {
    assert_eq!(profile_frame_count(5, 10), 1);
    assert_eq!(profile_frame_count(0, 10), 1);
}

#[test]
fn profile_count_formula() {
    // hop = 5: (100 - 10) / 5 + 1
    assert_eq!(profile_frame_count(100, 10), 19);
    assert_eq!(profile_frame_count(10, 10), 1);
    assert_eq!(profile_frame_count(14, 10), 1);
    assert_eq!(profile_frame_count(15, 10), 2);
}

#[test]
fn frame_start_is_hop_multiples() {
    assert_eq!(profile_frame_start(0, 100, 10), 0);
    assert_eq!(profile_frame_start(3, 100, 10), 15);
    assert_eq!(profile_frame_start(18, 100, 10), 90);
}

#[test]
fn sort_rearranges_ascending() {
    let r = sort_powers(&vec![3, -5, 0, -5, 7]);
    assert_eq!(r, vec![-5, -5, 0, 3, 7]);
}

#[test]
fn auto_threshold_empty_profile_fallback() {
    let r = auto_threshold(&Vec::new());
    assert_eq!(r.threshold, -60_000);
    assert_eq!(r.noise_floor, -70_000);
    assert_eq!(r.p95, -50_000);
}

#[test]
fn auto_threshold_constant_profile() {
    let r = auto_threshold(&vec![-45_000; 7]);
    assert_eq!(r.threshold, -45_000);
    assert_eq!(r.noise_floor, -45_000);
    assert_eq!(r.p95, -45_000);
}

#[test]
fn auto_threshold_percentile_formula() {
    let profile = vec![
        -20_000, -80_000, -45_000, -70_000, -55_000, -75_000, -60_000, -40_000, -65_000, -50_000,
    ];
    let r = auto_threshold(&profile);
    // sorted: -80, -75, -70, -65, -60, -55, -50, -45, -40, -20 (thousandths of a dB)
    // noise floor at index 10/10 = 1, upper reference at min(10*99/100, 9) = 9
    assert_eq!(r.noise_floor, -75_000);
    assert_eq!(r.p95, -20_000);
    // threshold = -75000 + (55000 * 7 / 10)
    assert_eq!(r.threshold, -36_500);
}

#[test]
fn detect_single_burst_round_trip() {
    let mut profile = vec![-70_000i64; 10];
    profile.extend(vec![-20_000i64; 5]);
    profile.extend(vec![-70_000i64; 10]);
    let r = detect_segments(&profile, 10, -40_000, 0, 0, 1000);
    // burst of 5 frames starting at frame 10, hop 5: [50, 15*5 + 10)
    assert_eq!(r, vec![seg(50, 85)]);
    // the duration is the burst length in samples plus one frame length
    assert_eq!(r[0].duration_samples(), 5 * 5 + 10);
}

#[test]
fn detect_empty_profile() {
    let r = detect_segments(&Vec::new(), 10, -40_000, 0, 0, 1000);
    assert_eq!(r, Vec::new());
}

#[test]
fn detect_dip_inside_hysteresis_band_keeps_segment() {
    // -42 dB is below the -40 dB entry threshold but above the -43 dB exit
    // threshold, so the transmission does not close on it.
    let profile = vec![-70_000, -20_000, -42_000, -20_000, -70_000];
    let r = detect_segments(&profile, 10, -40_000, 0, 0, 100);
    assert_eq!(r, vec![seg(5, 30)]);
}

#[test]
fn detect_value_at_exit_threshold_does_not_close() {
    // the exit is strict: a value exactly 3 dB under the entry threshold stays in
    let profile = vec![-70_000, -20_000, -43_000, -20_000, -70_000];
    let r = detect_segments(&profile, 10, -40_000, 0, 0, 100);
    assert_eq!(r, vec![seg(5, 30)]);
}

#[test]
fn detect_value_at_threshold_does_not_enter() {
    let profile = vec![-70_000, -40_000, -70_000];
    let r = detect_segments(&profile, 10, -40_000, 0, 0, 100);
    assert_eq!(r, Vec::new());
}

#[test]
fn detect_still_active_at_end_closes_at_total() {
    let profile = vec![-70_000, -20_000, -20_000];
    let r = detect_segments(&profile, 10, -40_000, 0, 0, 77);
    assert_eq!(r, vec![seg(5, 77)]);
}

#[test]
fn detect_merges_before_filtering() {
    // one long burst, a short gap, then a burst of a single frame
    let profile = vec![
        -70_000, -20_000, -20_000, -20_000, -20_000, -70_000, -70_000, -70_000, -20_000, -70_000,
    ];
    // raw segments: [5, 35) and [40, 55)
    // gap 5 glues them, so the short one survives the minimum-duration filter
    let merged = detect_segments(&profile, 10, -40_000, 20, 5, 1000);
    assert_eq!(merged, vec![seg(5, 55)]);
    // gap 4 keeps them apart and the short one is dropped
    let apart = detect_segments(&profile, 10, -40_000, 20, 4, 1000);
    assert_eq!(apart, vec![seg(5, 35)]);
}
