use iq_slicer::streaming::{StreamConfig, StreamingDetector};

fn small_config() -> StreamConfig {
    StreamConfig {
        chunk_size: 4,
        margin_mdb: 15_000,
        gap_samples: 8,
        padding_samples: 6,
        min_duration_samples: 4,
    }
}

fn chunk_of(first: u64) -> Vec<u64> {
    vec![first, first + 1, first + 2, first + 3]
}

#[test]
fn new_detector_is_idle() {
    let d: StreamingDetector<u64> = StreamingDetector::new(small_config());
    assert!(!d.in_transmission);
    assert_eq!(d.noise_floor_mdb, -60_000);
    assert_eq!(d.silence_counter, 0);
    assert!(d.pre_buffer.is_empty());
    assert!(d.tx_buffer.is_empty());
}

#[test]
fn noise_floor_moves_one_two_hundredth() {
    let mut d: StreamingDetector<u64> = StreamingDetector::new(small_config());
    let r = d.process_chunk(-70_000, &chunk_of(0));
    assert!(r.is_none());
    // -60000 - 10000/200
    assert_eq!(d.noise_floor_mdb, -60_050);
    assert!(!d.in_transmission);
    assert_eq!(d.pre_buffer, vec![0, 1, 2, 3]);
}

#[test]
fn noise_floor_rises_without_triggering_under_large_margin() {
    let mut d: StreamingDetector<u64> = StreamingDetector::new(StreamConfig {
        margin_mdb: 1_000_000_000,
        ..small_config()
    });
    let r = d.process_chunk(-20_000, &chunk_of(0));
    assert!(r.is_none());
    // -60000 + 40000/200
    assert_eq!(d.noise_floor_mdb, -59_800);
    assert!(!d.in_transmission);
}

#[test]
fn noise_floor_frozen_while_active() {
    let mut d: StreamingDetector<u64> = StreamingDetector::new(small_config());
    d.process_chunk(-70_000, &chunk_of(0));
    let nf_before = d.noise_floor_mdb;
    d.process_chunk(-20_000, &chunk_of(4));
    assert!(d.in_transmission);
    let nf_at_entry = d.noise_floor_mdb;
    d.process_chunk(-20_000, &chunk_of(8));
    assert_eq!(d.noise_floor_mdb, nf_at_entry);
    assert_ne!(nf_before, nf_at_entry);
}

#[test]
fn ring_buffer_keeps_newest_samples_only() {
    let mut d: StreamingDetector<u64> = StreamingDetector::new(small_config());
    d.process_chunk(-70_000, &chunk_of(1));
    d.process_chunk(-70_000, &chunk_of(5));
    // capacity 6: the two oldest of the eight samples fall out
    assert_eq!(d.pre_buffer, vec![3, 4, 5, 6, 7, 8]);
}

#[test]
fn activation_seeds_accumulator_with_preroll_then_chunk() {
    let mut d: StreamingDetector<u64> = StreamingDetector::new(small_config());
    d.process_chunk(-70_000, &chunk_of(1));
    d.process_chunk(-70_000, &chunk_of(5));
    let r = d.process_chunk(-20_000, &chunk_of(9));
    assert!(r.is_none());
    assert!(d.in_transmission);
    assert_eq!(d.silence_counter, 0);
    // ring buffer first absorbs the chunk, then the accumulator is the ring
    // buffer's content followed by the chunk once more
    assert_eq!(d.pre_buffer, vec![7, 8, 9, 10, 11, 12]);
    assert_eq!(d.tx_buffer, vec![7, 8, 9, 10, 11, 12, 9, 10, 11, 12]);
}

#[test]
fn silence_accumulates_and_closes_transmission() {
    let mut d: StreamingDetector<u64> = StreamingDetector::new(small_config());
    d.process_chunk(-70_000, &chunk_of(1));
    d.process_chunk(-70_000, &chunk_of(5));
    d.process_chunk(-20_000, &chunk_of(9));
    let r1 = d.process_chunk(-70_000, &chunk_of(13));
    assert!(r1.is_none());
    assert!(d.in_transmission);
    assert_eq!(d.silence_counter, 4);
    let r2 = d.process_chunk(-70_000, &chunk_of(17));
    // silence reached the 8-sample gap: the transmission closes and is
    // emitted (14 accumulated samples over the 6-sample pre-roll budget)
    let buf = r2.expect("transmission should be emitted");
    assert_eq!(buf, vec![7, 8, 9, 10, 11, 12, 9, 10, 11, 12, 13, 14, 15, 16, 17, 18, 19, 20]);
    assert!(!d.in_transmission);
    assert!(d.tx_buffer.is_empty());
}

#[test]
fn brief_dip_resets_silence_counter() {
    let mut d: StreamingDetector<u64> = StreamingDetector::new(small_config());
    d.process_chunk(-70_000, &chunk_of(1));
    d.process_chunk(-20_000, &chunk_of(5));
    assert!(d.in_transmission);
    d.process_chunk(-70_000, &chunk_of(9));
    assert_eq!(d.silence_counter, 4);
    d.process_chunk(-20_000, &chunk_of(13));
    assert_eq!(d.silence_counter, 0);
    assert!(d.in_transmission);
    // the gap must be reached by consecutive low-power chunks alone
    let r = d.process_chunk(-70_000, &chunk_of(17));
    assert!(r.is_none());
    assert!(d.in_transmission);
}

#[test]
fn short_transmission_is_discarded() {
    let mut d: StreamingDetector<u64> = StreamingDetector::new(StreamConfig {
        min_duration_samples: 100,
        ..small_config()
    });
    d.process_chunk(-70_000, &chunk_of(1));
    d.process_chunk(-20_000, &chunk_of(5));
    d.process_chunk(-70_000, &chunk_of(9));
    let r = d.process_chunk(-70_000, &chunk_of(13));
    assert!(r.is_none());
    assert!(!d.in_transmission);
    assert!(d.tx_buffer.is_empty());
}

#[test]
fn flush_emits_open_transmission() {
    let mut d: StreamingDetector<u64> = StreamingDetector::new(small_config());
    d.process_chunk(-70_000, &chunk_of(1));
    d.process_chunk(-20_000, &chunk_of(5));
    assert!(d.in_transmission);
    let r = d.flush();
    let buf = r.expect("open transmission should be flushed");
    assert_eq!(buf, vec![3, 4, 5, 6, 7, 8, 5, 6, 7, 8]);
    assert!(!d.in_transmission);
    assert!(d.tx_buffer.is_empty());
}

#[test]
fn flush_while_idle_emits_nothing() {
    let mut d: StreamingDetector<u64> = StreamingDetector::new(small_config());
    d.process_chunk(-70_000, &chunk_of(1));
    assert!(d.flush().is_none());
    assert!(!d.in_transmission);
}

#[test]
fn streaming_scenario_one_burst() {
    // 10 ms chunks at 48 kHz; pre-roll of two chunks, gap of ten chunks.
    let config = StreamConfig {
        chunk_size: 480,
        margin_mdb: 15_000,
        gap_samples: 4_800,
        padding_samples: 960,
        min_duration_samples: 480,
    };
    let mut d: StreamingDetector<u64> = StreamingDetector::new(config);
    let chunk = |j: u64| -> Vec<u64> { (0..480).map(|p| j * 1000 + p).collect() };

    let mut emitted: Vec<Vec<u64>> = Vec::new();
    // 50 chunks of noise establish the floor
    for j in 0..50 {
        if let Some(buf) = d.process_chunk(-70_000, &chunk(j)) {
            emitted.push(buf);
        }
    }
    assert!(!d.in_transmission);
    assert_eq!(d.pre_buffer.len(), 960);
    // 20 chunks of burst (well above floor + 15 dB margin)
    for j in 50..70 {
        if let Some(buf) = d.process_chunk(-20_000, &chunk(j)) {
            emitted.push(buf);
        }
    }
    assert!(d.in_transmission);
    assert_eq!(d.tx_buffer.len(), 960 + 20 * 480);
    // 30 chunks of noise exceed the gap
    for j in 70..100 {
        if let Some(buf) = d.process_chunk(-70_000, &chunk(j)) {
            emitted.push(buf);
        }
    }
    assert!(!d.in_transmission);
    assert!(d.tx_buffer.is_empty());
    assert_eq!(emitted.len(), 1);
    // pre-roll + burst + the ten low chunks that made up the gap
    assert_eq!(emitted[0].len(), 960 + 20 * 480 + 10 * 480);
    // the pre-roll reaches back one chunk before the burst (the ring buffer
    // had already absorbed the triggering chunk when the accumulator was
    // seeded), and the triggering chunk follows it
    assert_eq!(emitted[0][0], 49 * 1000);
    assert_eq!(emitted[0][480], 50 * 1000);
    assert_eq!(emitted[0][960], 50 * 1000);
}
