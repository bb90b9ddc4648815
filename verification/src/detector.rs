//! Batch transmission detection: segment ranges, hysteresis thresholding,
//! gap merging, boundary padding and duration filtering over a power profile.
//!
//! Power values are fixed-point decibels: thousandths of a dB (`i64`).

use vstd::prelude::*;
use vstd::arithmetic::div_mod::{lemma_fundamental_div_mod, lemma_mod_bound, lemma_div_nonincreasing};
use vstd::arithmetic::mul::lemma_mul_inequality;

verus! {

/// Lowest power value (in thousandths of a dB) the detector accepts; stands in
/// for "no signal at all" (an empty frame's negative-infinity power).
pub const POWER_MIN_MDB: i64 = -1_000_000_000;

/// Highest power value (in thousandths of a dB) the detector accepts.
pub const POWER_MAX_MDB: i64 = 1_000_000_000;

/// Hysteresis margin: the exit threshold sits this far (3 dB) below the entry
/// threshold, so that entering a transmission is harder than staying in one.
pub const HYSTERESIS_MDB: i64 = 3_000;

/// A detected transmission segment: a half-open sample-index range
/// `[start_sample, end_sample)` into the original sample sequence.
#[derive(Debug, Clone, Copy, PartialEq, Eq, Structural)]
pub struct Segment {
    pub start_sample: usize,
    pub end_sample: usize,
}

impl Segment {
    /// Length of the segment in samples.
    pub fn duration_samples(&self) -> (r: usize)
        requires
            self.start_sample <= self.end_sample,
        ensures
            r == self.end_sample - self.start_sample,
    {
        self.end_sample - self.start_sample
    }
}

/// Result of merging `current` with the segments of `rest`, in order: a
/// segment of `rest` whose start lies within `max_gap` of the current
/// segment's end is absorbed into it, otherwise the current segment is
/// emitted and the walk goes on from the new one.
pub open spec fn merge_walk(rest: Seq<Segment>, current: Segment, max_gap: int) -> Seq<Segment>
    decreases rest.len(),
{
    if rest.len() == 0 {
        seq![current]
    } else if rest[0].start_sample <= current.end_sample + max_gap {
        merge_walk(
            rest.drop_first(),
            Segment { start_sample: current.start_sample, end_sample: rest[0].end_sample },
            max_gap,
        )
    } else {
        seq![current] + merge_walk(rest.drop_first(), rest[0], max_gap)
    }
}

/// The merged form of a whole segment list: empty stays empty, otherwise the
/// walk starts from the first segment.
pub open spec fn merged_spec(segments: Seq<Segment>, max_gap: int) -> Seq<Segment> {
    if segments.len() == 0 {
        Seq::empty()
    } else {
        merge_walk(segments.drop_first(), segments[0], max_gap)
    }
}

/// Merge segments that are separated by no more than `max_gap` samples.
pub fn merge_segments(segments: Vec<Segment>, max_gap: usize) -> (r: Vec<Segment>)
    ensures
        r@ == merged_spec(segments@, max_gap as int),
{
    if segments.len() == 0 {
        return segments;
    }

    let ghost all: Seq<Segment> = segments@;
    let mut merged: Vec<Segment> = Vec::new();
    let mut current: Segment = segments[0];
    let mut i: usize = 1;

    while i < segments.len()
        invariant
            1 <= i <= all.len(),
            segments@ == all,
            merged@ + merge_walk(all.skip(i as int), current, max_gap as int)
                == merged_spec(all, max_gap as int),
        decreases all.len() - i,
    {
        let seg = segments[i];
        proof {
            assert(all.skip(i as int)[0] == all[i as int]);
            assert(all.skip(i as int).drop_first() =~= all.skip(i as int + 1));
        }
        // Overflow-free form of `seg.start_sample <= current.end_sample + max_gap`.
        if seg.start_sample <= current.end_sample
            || seg.start_sample - current.end_sample <= max_gap {
            current = Segment { start_sample: current.start_sample, end_sample: seg.end_sample };
        } else {
            proof {
                assert(merged@ + (seq![current] + merge_walk(
                    all.skip(i as int + 1), all[i as int], max_gap as int))
                    =~= merged@.push(current) + merge_walk(
                    all.skip(i as int + 1), all[i as int], max_gap as int));
            }
            merged.push(current);
            current = seg;
        }
        i = i + 1;
    }

    proof {
        assert(all.skip(i as int) =~= Seq::<Segment>::empty());
        assert(merged@ + seq![current] =~= merged@.push(current));
    }
    merged.push(current);
    merged
}

/// Add `padding_samples` of margin on both sides of each segment, clamping the
/// start at zero and the end at `total_samples`, so that no padded segment
/// ever reaches outside the recording.
pub fn add_padding(segments: Vec<Segment>, padding_samples: usize, total_samples: usize) -> (r: Vec<
    Segment,
>)
    ensures
        r@.len() == segments@.len(),
        forall|j: int|
            0 <= j < segments@.len() ==> #[trigger] r@[j] == (Segment {
                start_sample: if segments@[j].start_sample >= padding_samples {
                    (segments@[j].start_sample - padding_samples) as usize
                } else {
                    0usize
                },
                end_sample: if segments@[j].end_sample + padding_samples <= total_samples {
                    (segments@[j].end_sample + padding_samples) as usize
                } else {
                    total_samples
                },
            }),
        forall|j: int| 0 <= j < r@.len() ==> #[trigger] r@[j].end_sample <= total_samples,
{
    let mut out: Vec<Segment> = Vec::new();
    let mut i: usize = 0;

    while i < segments.len()
        invariant
            0 <= i <= segments@.len(),
            out@.len() == i,
            forall|j: int|
                0 <= j < i ==> #[trigger] out@[j] == (Segment {
                    start_sample: if segments@[j].start_sample >= padding_samples {
                        (segments@[j].start_sample - padding_samples) as usize
                    } else {
                        0usize
                    },
                    end_sample: if segments@[j].end_sample + padding_samples <= total_samples {
                        (segments@[j].end_sample + padding_samples) as usize
                    } else {
                        total_samples
                    },
                }),
            forall|j: int| 0 <= j < i ==> #[trigger] out@[j].end_sample <= total_samples,
        decreases segments@.len() - i,
    {
        let s = segments[i];
        let new_start: usize = if s.start_sample >= padding_samples {
            s.start_sample - padding_samples
        } else {
            0
        };
        let new_end: usize = if s.end_sample >= total_samples {
            total_samples
        } else if total_samples - s.end_sample <= padding_samples {
            total_samples
        } else {
            s.end_sample + padding_samples
        };
        out.push(Segment { start_sample: new_start, end_sample: new_end });
        i = i + 1;
    }
    out
}

/// The segments of `segments` whose duration is at least `min_duration`.
pub open spec fn keep_at_least(segments: Seq<Segment>, min_duration: int) -> Seq<Segment>
    decreases segments.len(),
{
    if segments.len() == 0 {
        Seq::empty()
    } else if segments[0].end_sample - segments[0].start_sample >= min_duration {
        seq![segments[0]] + keep_at_least(segments.drop_first(), min_duration)
    } else {
        keep_at_least(segments.drop_first(), min_duration)
    }
}

/// The segments of `segments` whose duration is at most `max_duration`.
pub open spec fn keep_at_most(segments: Seq<Segment>, max_duration: int) -> Seq<Segment>
    decreases segments.len(),
{
    if segments.len() == 0 {
        Seq::empty()
    } else if segments[0].end_sample - segments[0].start_sample <= max_duration {
        seq![segments[0]] + keep_at_most(segments.drop_first(), max_duration)
    } else {
        keep_at_most(segments.drop_first(), max_duration)
    }
}

/// Law: every segment the minimum-duration filter keeps lasts at least
/// `min_duration` samples.
pub proof fn lemma_keep_at_least_durations(segments: Seq<Segment>, min_duration: int)
    ensures
        forall|i: int|
            0 <= i < keep_at_least(segments, min_duration).len()
                ==> #[trigger] keep_at_least(segments, min_duration)[i].end_sample - keep_at_least(
                segments,
                min_duration,
            )[i].start_sample >= min_duration,
    decreases segments.len(),
{
    if segments.len() > 0 {
        lemma_keep_at_least_durations(segments.drop_first(), min_duration);
        let r = keep_at_least(segments, min_duration);
        let tail = keep_at_least(segments.drop_first(), min_duration);
        if segments[0].end_sample - segments[0].start_sample >= min_duration {
            assert forall|i: int|
                0 <= i < r.len() implies #[trigger] r[i].end_sample - r[i].start_sample
                >= min_duration by {
                if i == 0 {
                    assert(r[0] == segments[0]);
                } else {
                    assert(r[i] == tail[i - 1]);
                }
            }
        }
    }
}

/// Law: every segment the maximum-duration filter keeps lasts at most
/// `max_duration` samples.
pub proof fn lemma_keep_at_most_durations(segments: Seq<Segment>, max_duration: int)
    ensures
        forall|i: int|
            0 <= i < keep_at_most(segments, max_duration).len()
                ==> #[trigger] keep_at_most(segments, max_duration)[i].end_sample - keep_at_most(
                segments,
                max_duration,
            )[i].start_sample <= max_duration,
    decreases segments.len(),
{
    if segments.len() > 0 {
        lemma_keep_at_most_durations(segments.drop_first(), max_duration);
        let r = keep_at_most(segments, max_duration);
        let tail = keep_at_most(segments.drop_first(), max_duration);
        if segments[0].end_sample - segments[0].start_sample <= max_duration {
            assert forall|i: int|
                0 <= i < r.len() implies #[trigger] r[i].end_sample - r[i].start_sample
                <= max_duration by {
                if i == 0 {
                    assert(r[0] == segments[0]);
                } else {
                    assert(r[i] == tail[i - 1]);
                }
            }
        }
    }
}

/// Drop segments shorter than `min_duration_samples`.
pub fn filter_min_duration(segments: Vec<Segment>, min_duration_samples: usize) -> (r: Vec<Segment>)
    ensures
        r@ == keep_at_least(segments@, min_duration_samples as int),
{
    let ghost all: Seq<Segment> = segments@;
    let mut out: Vec<Segment> = Vec::new();
    let mut i: usize = 0;

    proof {
        assert(all.skip(0) =~= all);
    }
    while i < segments.len()
        invariant
            0 <= i <= all.len(),
            segments@ == all,
            out@ + keep_at_least(all.skip(i as int), min_duration_samples as int)
                == keep_at_least(all, min_duration_samples as int),
        decreases all.len() - i,
    {
        let s = segments[i];
        proof {
            assert(all.skip(i as int)[0] == all[i as int]);
            assert(all.skip(i as int).drop_first() =~= all.skip(i as int + 1));
        }
        if s.end_sample >= s.start_sample && s.end_sample - s.start_sample
            >= min_duration_samples {
            proof {
                assert(out@ + (seq![s] + keep_at_least(
                    all.skip(i as int + 1), min_duration_samples as int))
                    =~= out@.push(s) + keep_at_least(
                    all.skip(i as int + 1), min_duration_samples as int));
            }
            out.push(s);
        }
        i = i + 1;
    }
    proof {
        assert(all.skip(i as int) =~= Seq::<Segment>::empty());
        assert(out@ + Seq::<Segment>::empty() =~= out@);
    }
    out
}

/// Drop segments longer than `max_duration_samples`.
pub fn filter_max_duration(segments: Vec<Segment>, max_duration_samples: usize) -> (r: Vec<Segment>)
    ensures
        r@ == keep_at_most(segments@, max_duration_samples as int),
{
    let ghost all: Seq<Segment> = segments@;
    let mut out: Vec<Segment> = Vec::new();
    let mut i: usize = 0;

    proof {
        assert(all.skip(0) =~= all);
    }
    while i < segments.len()
        invariant
            0 <= i <= all.len(),
            segments@ == all,
            out@ + keep_at_most(all.skip(i as int), max_duration_samples as int)
                == keep_at_most(all, max_duration_samples as int),
        decreases all.len() - i,
    {
        let s = segments[i];
        proof {
            assert(all.skip(i as int)[0] == all[i as int]);
            assert(all.skip(i as int).drop_first() =~= all.skip(i as int + 1));
        }
        if s.end_sample >= s.start_sample && s.end_sample - s.start_sample
            <= max_duration_samples {
            proof {
                assert(out@ + (seq![s] + keep_at_most(
                    all.skip(i as int + 1), max_duration_samples as int))
                    =~= out@.push(s) + keep_at_most(
                    all.skip(i as int + 1), max_duration_samples as int));
            }
            out.push(s);
        } else if s.end_sample < s.start_sample {
            proof {
                assert(out@ + (seq![s] + keep_at_most(
                    all.skip(i as int + 1), max_duration_samples as int))
                    =~= out@.push(s) + keep_at_most(
                    all.skip(i as int + 1), max_duration_samples as int));
            }
            out.push(s);
        }
        i = i + 1;
    }
    proof {
        assert(all.skip(i as int) =~= Seq::<Segment>::empty());
        assert(out@ + Seq::<Segment>::empty() =~= out@);
    }
    out
}

/// Sample offset between the starts of consecutive analysis frames: half the
/// frame length (50% overlap).
pub open spec fn hop_of(window_size: int) -> int {
    window_size / 2
}

/// Number of frames a power profile holds for a recording of `sample_count`
/// samples: a recording shorter than one frame is measured as a single frame,
/// otherwise frames are spaced one hop apart and a frame must fit whole.
pub open spec fn profile_len_spec(sample_count: int, window_size: int) -> int {
    if sample_count < window_size {
        1
    } else {
        (sample_count - window_size) / hop_of(window_size) + 1
    }
}

/// Number of entries in the power profile of a recording of `sample_count`
/// samples, analysed with frames of `window_size` samples at 50% overlap.
pub fn profile_frame_count(sample_count: usize, window_size: usize) -> (r: usize)
    requires
        window_size >= 2,
    ensures
        r as int == profile_len_spec(sample_count as int, window_size as int),
{
    if sample_count < window_size {
        1
    } else {
        let hop = window_size / 2;
        proof {
            lemma_div_nonincreasing(sample_count as int - window_size as int, hop as int);
        }
        (sample_count - window_size) / hop + 1
    }
}

/// First sample index of frame `frame_index`; the frame covers `window_size`
/// samples from there and lies whole inside the recording.
pub fn profile_frame_start(frame_index: usize, sample_count: usize, window_size: usize) -> (r:
    usize)
    requires
        window_size >= 2,
        sample_count >= window_size,
        frame_index < profile_len_spec(sample_count as int, window_size as int),
    ensures
        r == frame_index * hop_of(window_size as int),
        r + window_size <= sample_count,
{
    let hop = window_size / 2;
    proof {
        let rest = sample_count as int - window_size as int;
        lemma_mul_inequality(frame_index as int, rest / hop as int, hop as int);
        lemma_fundamental_div_mod(rest, hop as int);
        lemma_mod_bound(rest, hop as int);
    }
    frame_index * hop
}

/// Hysteresis state after the first `i` profile entries have been walked:
/// whether the walk is inside a transmission, and the frame index at which
/// the current (or last) transmission began. The walk enters on a value
/// strictly above `on` and leaves on a value strictly below `off`.
pub open spec fn hyst_state(profile: Seq<i64>, on: int, off: int, i: int) -> (bool, int)
    decreases i,
{
    if i <= 0 {
        (false, 0)
    } else {
        let prev = hyst_state(profile, on, off, i - 1);
        if !prev.0 && profile[i - 1] > on {
            (true, i - 1)
        } else if prev.0 && profile[i - 1] < off {
            (false, prev.1)
        } else {
            prev
        }
    }
}

/// Segments closed by the hysteresis walk over the first `i` profile entries,
/// in sample space: a transmission entered at frame `s` and left at frame `e`
/// covers `[s * hop, e * hop + window_size)`, so the whole frame that
/// triggered the exit is included.
pub open spec fn hyst_closed(
    profile: Seq<i64>,
    on: int,
    off: int,
    hop: int,
    window_size: int,
    i: int,
) -> Seq<Segment>
    decreases i,
{
    if i <= 0 {
        Seq::empty()
    } else {
        let prev = hyst_state(profile, on, off, i - 1);
        let acc = hyst_closed(profile, on, off, hop, window_size, i - 1);
        if prev.0 && profile[i - 1] < off {
            acc.push(
                Segment {
                    start_sample: (prev.1 * hop) as usize,
                    end_sample: ((i - 1) * hop + window_size) as usize,
                },
            )
        } else {
            acc
        }
    }
}

/// All segments the hysteresis walk yields for a whole profile: the closed
/// ones, plus, if the walk is still inside a transmission when the profile
/// ends, a final segment running to the end of the recording.
pub open spec fn raw_segments_spec(
    profile: Seq<i64>,
    threshold: int,
    window_size: int,
    total_samples: int,
) -> Seq<Segment> {
    let on = threshold;
    let off = threshold - HYSTERESIS_MDB;
    let hop = hop_of(window_size);
    let closed = hyst_closed(profile, on, off, hop, window_size, profile.len() as int);
    let fin = hyst_state(profile, on, off, profile.len() as int);
    if fin.0 {
        closed.push(
            Segment { start_sample: (fin.1 * hop) as usize, end_sample: total_samples as usize },
        )
    } else {
        closed
    }
}

/// What `detect_segments` returns: the hysteresis walk's segments, merged
/// over gaps of at most `max_gap`, with the merged segments shorter than
/// `min_duration` dropped. An empty profile yields no segments.
pub open spec fn detect_segments_spec(
    profile: Seq<i64>,
    threshold: int,
    window_size: int,
    min_duration: int,
    max_gap: int,
    total_samples: int,
) -> Seq<Segment> {
    if profile.len() == 0 {
        Seq::empty()
    } else {
        keep_at_least(
            merged_spec(raw_segments_spec(profile, threshold, window_size, total_samples), max_gap),
            min_duration,
        )
    }
}

/// Detect transmission segments in a power profile by hysteresis: a value
/// strictly above `threshold_mdb` enters a transmission, a value strictly
/// below `threshold_mdb - HYSTERESIS_MDB` leaves it. Closed segments are
/// merged over gaps of at most `max_gap_samples` and then filtered to those
/// lasting at least `min_duration_samples`.
pub fn detect_segments(
    profile: &Vec<i64>,
    window_size: usize,
    threshold_mdb: i64,
    min_duration_samples: usize,
    max_gap_samples: usize,
    total_samples: usize,
) -> (r: Vec<Segment>)
    requires
        window_size >= 2,
        POWER_MIN_MDB <= threshold_mdb <= POWER_MAX_MDB,
        profile@.len() * hop_of(window_size as int) + window_size <= usize::MAX,
    ensures
        r@ == detect_segments_spec(
            profile@,
            threshold_mdb as int,
            window_size as int,
            min_duration_samples as int,
            max_gap_samples as int,
            total_samples as int,
        ),
{
    if profile.len() == 0 {
        return Vec::new();
    }

    let hop_size = window_size / 2;
    let threshold_on = threshold_mdb;
    let threshold_off = threshold_mdb - HYSTERESIS_MDB;

    let mut segments: Vec<Segment> = Vec::new();
    let mut in_transmission = false;
    let mut start_idx: usize = 0;
    let mut idx: usize = 0;

    while idx < profile.len()
        invariant
            0 <= idx <= profile@.len(),
            window_size >= 2,
            hop_size == hop_of(window_size as int),
            threshold_off == threshold_on - HYSTERESIS_MDB,
            threshold_on == threshold_mdb,
            POWER_MIN_MDB <= threshold_mdb <= POWER_MAX_MDB,
            profile@.len() * hop_of(window_size as int) + window_size <= usize::MAX,
            (in_transmission, start_idx as int) == hyst_state(
                profile@,
                threshold_on as int,
                threshold_off as int,
                idx as int,
            ),
            segments@ == hyst_closed(
                profile@,
                threshold_on as int,
                threshold_off as int,
                hop_size as int,
                window_size as int,
                idx as int,
            ),
            in_transmission ==> start_idx < idx,
        decreases profile@.len() - idx,
    {
        let power = profile[idx];
        if !in_transmission && power > threshold_on {
            in_transmission = true;
            start_idx = idx;
        } else if in_transmission && power < threshold_off {
            in_transmission = false;
            proof {
                lemma_mul_inequality(start_idx as int, profile@.len() as int, hop_size as int);
                lemma_mul_inequality(idx as int, profile@.len() as int, hop_size as int);
            }
            segments.push(
                Segment {
                    start_sample: start_idx * hop_size,
                    end_sample: idx * hop_size + window_size,
                },
            );
        }
        idx = idx + 1;
    }

    if in_transmission {
        proof {
            lemma_mul_inequality(start_idx as int, profile@.len() as int, hop_size as int);
        }
        segments.push(Segment { start_sample: start_idx * hop_size, end_sample: total_samples });
    }

    let merged = merge_segments(segments, max_gap_samples);
    filter_min_duration(merged, min_duration_samples)
}

/// The walk's result always begins with the segment the walk carries, and
/// consecutive segments of the result are separated by more than `max_gap`.
proof fn lemma_merge_walk_separated(rest: Seq<Segment>, current: Segment, max_gap: int)
    requires
        max_gap >= 0,
    ensures
        merge_walk(rest, current, max_gap).len() >= 1,
        merge_walk(rest, current, max_gap)[0].start_sample == current.start_sample,
        forall|i: int|
            0 <= i < merge_walk(rest, current, max_gap).len() - 1
                ==> #[trigger] merge_walk(rest, current, max_gap)[i].end_sample + max_gap
                < merge_walk(rest, current, max_gap)[i + 1].start_sample,
    decreases rest.len(),
{
    if rest.len() == 0 {
    } else if rest[0].start_sample <= current.end_sample + max_gap {
        let joined = Segment {
            start_sample: current.start_sample,
            end_sample: rest[0].end_sample,
        };
        lemma_merge_walk_separated(rest.drop_first(), joined, max_gap);
    } else {
        let tail = merge_walk(rest.drop_first(), rest[0], max_gap);
        lemma_merge_walk_separated(rest.drop_first(), rest[0], max_gap);
        let whole = merge_walk(rest, current, max_gap);
        assert(whole =~= seq![current] + tail);
        assert forall|i: int|
            0 <= i < whole.len() - 1 implies #[trigger] whole[i].end_sample + max_gap < whole[i
            + 1].start_sample by {
            if i == 0 {
                assert(whole[1] == tail[0]);
            } else {
                assert(whole[i] == tail[i - 1]);
                assert(whole[i + 1] == tail[i]);
            }
        }
    }
}

/// Law: after merging, consecutive segments are separated by more than
/// `max_gap` samples — what the merge pass was for.
pub proof fn lemma_merged_separated(segments: Seq<Segment>, max_gap: usize)
    ensures
        forall|i: int|
            0 <= i < merged_spec(segments, max_gap as int).len() - 1
                ==> #[trigger] merged_spec(segments, max_gap as int)[i].end_sample + max_gap
                < merged_spec(segments, max_gap as int)[i + 1].start_sample,
{
    if segments.len() > 0 {
        lemma_merge_walk_separated(segments.drop_first(), segments[0], max_gap as int);
    }
}

/// Law: two segments in order either merge into one contiguous segment —
/// when the second starts within `max_gap` of the first one's end — keeping
/// the first one's start and the second one's end, or they stay distinct.
pub proof fn lemma_merge_pair(a: Segment, b: Segment, max_gap: usize)
    ensures
        b.start_sample <= a.end_sample + max_gap ==> merged_spec(seq![a, b], max_gap as int)
            == seq![Segment { start_sample: a.start_sample, end_sample: b.end_sample }],
        b.start_sample > a.end_sample + max_gap ==> merged_spec(seq![a, b], max_gap as int)
            == seq![a, b],
{
    let s = seq![a, b];
    assert(s.drop_first() =~= seq![b]);
    let joined = Segment { start_sample: a.start_sample, end_sample: b.end_sample };
    if b.start_sample <= a.end_sample + max_gap {
        assert(merge_walk(seq![b], a, max_gap as int) == merge_walk(
            seq![b].drop_first(),
            joined,
            max_gap as int,
        ));
        assert(seq![b].drop_first() =~= Seq::<Segment>::empty());
        assert(merge_walk(Seq::<Segment>::empty(), joined, max_gap as int) == seq![joined]);
    } else {
        assert(seq![b].drop_first() =~= Seq::<Segment>::empty());
        assert(merge_walk(seq![b], a, max_gap as int) == seq![a] + merge_walk(
            Seq::<Segment>::empty(),
            b,
            max_gap as int,
        ));
        assert(seq![a] + seq![b] =~= seq![a, b]);
    }
}

/// State and closed segments of the hysteresis walk do not change over a run
/// of profile entries that stay at or below the entry threshold while the
/// walk is outside a transmission.
proof fn lemma_hyst_idle_run(
    profile: Seq<i64>,
    on: int,
    off: int,
    hop: int,
    window_size: int,
    i0: int,
    i1: int,
)
    requires
        0 <= i0 <= i1 <= profile.len(),
        !hyst_state(profile, on, off, i0).0,
        forall|j: int| i0 <= j < i1 ==> profile[j] <= on,
    ensures
        hyst_state(profile, on, off, i1) == hyst_state(profile, on, off, i0),
        hyst_closed(profile, on, off, hop, window_size, i1) == hyst_closed(
            profile,
            on,
            off,
            hop,
            window_size,
            i0,
        ),
    decreases i1 - i0,
{
    if i1 > i0 {
        lemma_hyst_idle_run(profile, on, off, hop, window_size, i0, i1 - 1);
        assert(profile[i1 - 1] <= on);
    }
}

/// State and closed segments of the hysteresis walk do not change over a run
/// of profile entries that stay at or above the exit threshold while the
/// walk is inside a transmission.
proof fn lemma_hyst_active_run(
    profile: Seq<i64>,
    on: int,
    off: int,
    hop: int,
    window_size: int,
    i0: int,
    i1: int,
)
    requires
        0 <= i0 <= i1 <= profile.len(),
        hyst_state(profile, on, off, i0).0,
        forall|j: int| i0 <= j < i1 ==> profile[j] >= off,
    ensures
        hyst_state(profile, on, off, i1) == hyst_state(profile, on, off, i0),
        hyst_closed(profile, on, off, hop, window_size, i1) == hyst_closed(
            profile,
            on,
            off,
            hop,
            window_size,
            i0,
        ),
    decreases i1 - i0,
{
    if i1 > i0 {
        lemma_hyst_active_run(profile, on, off, hop, window_size, i0, i1 - 1);
        assert(profile[i1 - 1] >= off);
    }
}

/// Law: a profile of quiet entries (strictly below the exit threshold)
/// surrounding one contiguous burst of entries strictly above the entry
/// threshold is detected as exactly one segment, starting where the burst's
/// first frame starts and ending one frame length after its last frame
/// starts — so the segment's duration is the burst's length in hops plus one
/// frame length — whenever that duration meets the minimum.
pub proof fn lemma_detect_single_burst(
    profile: Seq<i64>,
    noise_len: int,
    burst_len: int,
    tail_len: int,
    threshold: int,
    window_size: int,
    min_duration: int,
    max_gap: int,
    total_samples: int,
)
    requires
        profile.len() == noise_len + burst_len + tail_len,
        noise_len >= 0,
        burst_len >= 1,
        tail_len >= 1,
        window_size >= 2,
        profile.len() * hop_of(window_size) + window_size <= usize::MAX,
        forall|j: int| 0 <= j < noise_len ==> profile[j] < threshold - HYSTERESIS_MDB,
        forall|j: int|
            noise_len <= j < noise_len + burst_len ==> profile[j] > threshold,
        forall|j: int|
            noise_len + burst_len <= j < profile.len() ==> profile[j] < threshold
                - HYSTERESIS_MDB,
        burst_len * hop_of(window_size) + window_size >= min_duration,
    ensures
        detect_segments_spec(profile, threshold, window_size, min_duration, max_gap, total_samples)
            == seq![
            Segment {
                start_sample: (noise_len * hop_of(window_size)) as usize,
                end_sample: ((noise_len + burst_len) * hop_of(window_size)
                    + window_size) as usize,
            },
        ],
{
    let on = threshold;
    let off = threshold - HYSTERESIS_MDB;
    let hop = hop_of(window_size);
    let a = noise_len;
    let k = burst_len;
    let len = profile.len() as int;

    lemma_mul_inequality(a, len, hop);
    lemma_mul_inequality(a + k, len, hop);
    vstd::arithmetic::mul::lemma_mul_is_distributive_add_other_way(hop, a, k);
    vstd::arithmetic::mul::lemma_mul_nonnegative(a, hop);
    let seg = Segment {
        start_sample: (a * hop) as usize,
        end_sample: ((a + k) * hop + window_size) as usize,
    };

    assert(hyst_state(profile, on, off, 0) == (false, 0int));
    assert(hyst_closed(profile, on, off, hop, window_size, 0) == Seq::<Segment>::empty());
    lemma_hyst_idle_run(profile, on, off, hop, window_size, 0, a);
    assert(profile[a] > on);
    assert(hyst_state(profile, on, off, a + 1) == (true, a));
    assert(hyst_closed(profile, on, off, hop, window_size, a + 1) == Seq::<Segment>::empty());
    lemma_hyst_active_run(profile, on, off, hop, window_size, a + 1, a + k);
    assert(profile[a + k] < off);
    assert(hyst_state(profile, on, off, a + k + 1) == (false, a));
    assert(hyst_closed(profile, on, off, hop, window_size, a + k + 1) == Seq::<
        Segment,
    >::empty().push(seg));
    lemma_hyst_idle_run(profile, on, off, hop, window_size, a + k + 1, len);
    assert(!hyst_state(profile, on, off, len).0);
    assert(raw_segments_spec(profile, threshold, window_size, total_samples) =~= seq![seg]);

    assert(seq![seg].drop_first() =~= Seq::<Segment>::empty());
    assert(merged_spec(seq![seg], max_gap) == merge_walk(
        Seq::<Segment>::empty(),
        seg,
        max_gap,
    ));
    assert(merge_walk(Seq::<Segment>::empty(), seg, max_gap) == seq![seg]);

    assert(seg.end_sample - seg.start_sample == k * hop + window_size);
    assert(keep_at_least(seq![seg], min_duration) =~= seq![seg] + keep_at_least(
        Seq::<Segment>::empty(),
        min_duration,
    ));
    assert(seq![seg] + Seq::<Segment>::empty() =~= seq![seg]);
}

/// The entries of `s` never decrease from left to right.
pub open spec fn sorted_ascending(s: Seq<i64>) -> bool {
    forall|p: int, q: int| 0 <= p <= q < s.len() ==> s[p] <= s[q]
}

/// `s` is `orig` rearranged into ascending order.
pub open spec fn is_sort_of(s: Seq<i64>, orig: Seq<i64>) -> bool {
    sorted_ascending(s) && s.to_multiset() == orig.to_multiset()
}

/// Rearrange a power profile into ascending order (insertion sort into a
/// fresh vector), leaving the input untouched.
pub fn sort_powers(profile: &Vec<i64>) -> (r: Vec<i64>)
    ensures
        r@.len() == profile@.len(),
        is_sort_of(r@, profile@),
{
    let mut sorted: Vec<i64> = Vec::new();
    let mut i: usize = 0;

    proof {
        assert(profile@.take(0) =~= Seq::<i64>::empty());
        assert(sorted@.to_multiset() =~= profile@.take(0).to_multiset());
    }
    while i < profile.len()
        invariant
            0 <= i <= profile@.len(),
            sorted@.len() == i,
            sorted_ascending(sorted@),
            sorted@.to_multiset() == profile@.take(i as int).to_multiset(),
        decreases profile@.len() - i,
    {
        let x = profile[i];
        let mut j: usize = 0;
        while j < sorted.len() && sorted[j] <= x
            invariant
                0 <= j <= sorted@.len(),
                forall|k: int| 0 <= k < j ==> sorted@[k] <= x,
            decreases sorted@.len() - j,
        {
            j = j + 1;
        }
        proof {
            let old_sorted = sorted@;
            let new_sorted = sorted@.insert(j as int, x);
            assert forall|p: int, q: int|
                0 <= p <= q < new_sorted.len() implies new_sorted[p] <= new_sorted[q] by {
                if p < j && q < j {
                } else if p >= j + 1 && q >= j + 1 {
                    assert(new_sorted[p] == old_sorted[p - 1]);
                    assert(new_sorted[q] == old_sorted[q - 1]);
                } else if p < j && q == j {
                    assert(new_sorted[p] == old_sorted[p]);
                } else if p == j && q == j {
                } else if p == j && q >= j + 1 {
                    assert(new_sorted[q] == old_sorted[q - 1]);
                    assert(old_sorted[j as int] <= old_sorted[q - 1]);
                } else if p < j && q >= j + 1 {
                    assert(new_sorted[p] == old_sorted[p]);
                    assert(new_sorted[q] == old_sorted[q - 1]);
                    assert(old_sorted[p] <= x);
                }
            }
            vstd::seq_lib::to_multiset_insert(sorted@, j as int, x);
            vstd::seq_lib::to_multiset_build(profile@.take(i as int), x);
            assert(profile@.take(i as int + 1) =~= profile@.take(i as int).push(x));
        }
        sorted.insert(j, x);
        i = i + 1;
    }
    proof {
        assert(profile@.take(i as int) =~= profile@);
    }
    sorted
}

/// Result of the adaptive threshold analysis, in thousandths of a dB.
#[derive(Debug, Clone, Copy, PartialEq, Eq, Structural)]
pub struct ThresholdAnalysis {
    pub threshold: i64,
    pub noise_floor: i64,
    pub p95: i64,
}

/// The analysis a sorted, non-empty profile yields: the noise floor is the
/// value at the 10th-percentile index, the upper reference the value at the
/// 99th-percentile index (clamped to the last entry), and the threshold sits
/// 70% of the way up from the noise floor to the upper reference.
pub open spec fn threshold_analysis_of(sorted: Seq<i64>) -> ThresholdAnalysis
    recommends
        sorted.len() > 0,
{
    let len = sorted.len() as int;
    let noise_floor = sorted[len / 10];
    let p99_idx = if len * 99 / 100 < len - 1 {
        len * 99 / 100
    } else {
        len - 1
    };
    let p95 = sorted[p99_idx];
    ThresholdAnalysis {
        threshold: (noise_floor + (p95 - noise_floor) * 7 / 10) as i64,
        noise_floor: noise_floor,
        p95: p95,
    }
}

/// Every entry of a rearrangement of `orig` lies in the same bounds as the
/// entries of `orig`.
proof fn lemma_rearrangement_preserves_bounds(s: Seq<i64>, orig: Seq<i64>, lo: int, hi: int)
    requires
        s.to_multiset() == orig.to_multiset(),
        forall|k: int| 0 <= k < orig.len() ==> lo <= #[trigger] orig[k] <= hi,
    ensures
        forall|k: int| 0 <= k < s.len() ==> lo <= #[trigger] s[k] <= hi,
{
    broadcast use vstd::seq_lib::group_to_multiset_ensures;

    assert forall|k: int| 0 <= k < s.len() implies lo <= #[trigger] s[k] <= hi by {
        assert(s.contains(s[k]));
        assert(orig.to_multiset().count(s[k]) > 0);
        assert(orig.contains(s[k]));
        let idx = choose|idx: int| 0 <= idx < orig.len() && orig[idx] == s[k];
        assert(lo <= orig[idx] <= hi);
    }
}

/// Derive a detection threshold from the statistical distribution of a power
/// profile. An empty profile yields the fixed fallback analysis
/// (threshold −60 dB, noise floor −70 dB, upper reference −50 dB); otherwise
/// the result is `threshold_analysis_of` applied to the profile's ascending
/// rearrangement.
pub fn auto_threshold(profile: &Vec<i64>) -> (r: ThresholdAnalysis)
    requires
        forall|k: int|
            0 <= k < profile@.len() ==> POWER_MIN_MDB <= #[trigger] profile@[k] <= POWER_MAX_MDB,
    ensures
        profile@.len() == 0 ==> r == (ThresholdAnalysis {
            threshold: -60_000i64,
            noise_floor: -70_000i64,
            p95: -50_000i64,
        }),
        profile@.len() > 0 ==> exists|s: Seq<i64>|
            {
                &&& #[trigger] is_sort_of(s, profile@)
                &&& r == threshold_analysis_of(s)
            },
{
    if profile.len() == 0 {
        return ThresholdAnalysis { threshold: -60_000, noise_floor: -70_000, p95: -50_000 };
    }

    let sorted = sort_powers(profile);
    proof {
        lemma_rearrangement_preserves_bounds(
            sorted@,
            profile@,
            POWER_MIN_MDB as int,
            POWER_MAX_MDB as int,
        );
    }
    let len = sorted.len();
    let p10_idx = len / 10;
    let p99_raw = ((len as u128) * 99 / 100) as usize;
    proof {
        lemma_mul_inequality(99, 100, len as int);
        lemma_fundamental_div_mod(len as int * 100, 100);
        lemma_mod_bound(len as int * 100, 100);
        assert(len as int * 99 / 100 <= len as int * 100 / 100) by {
            vstd::arithmetic::div_mod::lemma_div_is_ordered(
                len as int * 99,
                len as int * 100,
                100,
            );
        }
        assert(len as int * 100 / 100 == len as int) by {
            vstd::arithmetic::div_mod::lemma_div_by_multiple(len as int, 100);
        }
    }
    let p99_idx = if p99_raw < len - 1 {
        p99_raw
    } else {
        len - 1
    };
    let noise_floor = sorted[p10_idx];
    let p95 = sorted[p99_idx];
    proof {
        assert(p10_idx as int <= p99_idx as int);
        assert(noise_floor <= p95);
    }
    let threshold = noise_floor + (p95 - noise_floor) * 7 / 10;
    let r = ThresholdAnalysis { threshold: threshold, noise_floor: noise_floor, p95: p95 };
    proof {
        assert(is_sort_of(sorted@, profile@) && r == threshold_analysis_of(sorted@));
    }
    r
}

/// Law: the derived threshold lies between the noise floor and the upper
/// reference — 70% of the way up overshoots neither end.
pub proof fn lemma_threshold_between(sorted: Seq<i64>)
    requires
        sorted.len() > 0,
        sorted_ascending(sorted),
        forall|k: int|
            0 <= k < sorted.len() ==> POWER_MIN_MDB <= #[trigger] sorted[k] <= POWER_MAX_MDB,
    ensures
        threshold_analysis_of(sorted).noise_floor <= threshold_analysis_of(sorted).threshold,
        threshold_analysis_of(sorted).threshold <= threshold_analysis_of(sorted).p95,
{
    let len = sorted.len() as int;
    let p99_idx = if len * 99 / 100 < len - 1 {
        len * 99 / 100
    } else {
        len - 1
    };
    lemma_mul_inequality(99, 100, len);
    vstd::arithmetic::div_mod::lemma_div_is_ordered(len * 99, len * 100, 100);
    vstd::arithmetic::div_mod::lemma_div_by_multiple(len, 100);
    assert(len / 10 <= p99_idx);
    let noise_floor = sorted[len / 10];
    let p95 = sorted[p99_idx];
    assert(noise_floor <= p95);
    let diff = p95 - noise_floor;
    vstd::arithmetic::div_mod::lemma_div_pos_is_pos(diff * 7, 10);
    lemma_mul_inequality(7, 10, diff);
    vstd::arithmetic::div_mod::lemma_div_is_ordered(diff * 7, diff * 10, 10);
    vstd::arithmetic::div_mod::lemma_div_by_multiple(diff, 10);
    assert(0 <= diff * 7 / 10 <= diff);
}

/// Law: a non-empty profile of one repeated value `v` is analysed as noise
/// floor, upper reference and threshold all equal to `v`.
pub proof fn lemma_auto_threshold_constant(s: Seq<i64>, orig: Seq<i64>, v: i64)
    requires
        is_sort_of(s, orig),
        orig.len() > 0,
        forall|k: int| 0 <= k < orig.len() ==> #[trigger] orig[k] == v,
    ensures
        threshold_analysis_of(s) == (ThresholdAnalysis { threshold: v, noise_floor: v, p95: v }),
{
    broadcast use vstd::seq_lib::group_to_multiset_ensures;

    assert(s.len() == s.to_multiset().len());
    assert(orig.len() == orig.to_multiset().len());
    lemma_rearrangement_preserves_bounds(s, orig, v as int, v as int);
    let len = s.len() as int;
    assert(0 <= len / 10 < len);
    let p99_idx = if len * 99 / 100 < len - 1 {
        len * 99 / 100
    } else {
        len - 1
    };
    assert(0 <= p99_idx < len) by {
        lemma_mul_inequality(0, 99, len);
    }
    assert(s[len / 10] == v);
    assert(s[p99_idx] == v);
}

} // verus!
