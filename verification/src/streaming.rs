//! Streaming transmission detection: a stateful, single-pass state machine
//! that consumes fixed-size chunks of samples one at a time, tracks the noise
//! floor with an exponential moving average while idle, and accumulates a
//! transmission — led in by a bounded pre-roll ring buffer — while active.
//!
//! The machine never looks at the samples themselves, only at the one power
//! value measured per chunk, so it is generic over the sample type.

use vstd::prelude::*;
use crate::detector::{HYSTERESIS_MDB, POWER_MAX_MDB, POWER_MIN_MDB};

verus! {

/// Configuration of the streaming detector; all sizes are in samples.
#[derive(Debug, Clone, Copy)]
pub struct StreamConfig {
    /// Samples per incoming chunk (10 ms worth).
    pub chunk_size: usize,
    /// Detection threshold margin above the noise floor, thousandths of a dB.
    pub margin_mdb: i64,
    /// Consecutive low-power samples after which a transmission is closed.
    pub gap_samples: usize,
    /// Pre-roll budget: samples kept from before a detected transmission.
    pub padding_samples: usize,
    /// Shortest transmission worth emitting, in samples, pre-roll excluded.
    pub min_duration_samples: usize,
}

impl StreamConfig {
    /// The configuration stays within what the detector's arithmetic carries.
    pub open spec fn wf(self) -> bool {
        &&& POWER_MIN_MDB <= self.margin_mdb <= POWER_MAX_MDB
        &&& self.gap_samples + self.chunk_size <= usize::MAX
    }
}

/// One step of the noise-floor exponential moving average with α = 0.005:
/// the floor moves one two-hundredth of the way toward the measured power,
/// the division truncating toward the old floor.
pub open spec fn ema_update(noise_floor: int, power: int) -> int {
    if power >= noise_floor {
        noise_floor + (power - noise_floor) / 200
    } else {
        noise_floor - (noise_floor - power) / 200
    }
}

/// Content of a ring buffer of capacity `cap` after `chunk` arrives: the
/// newest `cap` elements of the old content followed by the chunk.
pub open spec fn ring_append<T>(buf: Seq<T>, chunk: Seq<T>, cap: int) -> Seq<T> {
    let all = buf + chunk;
    if all.len() <= cap {
        all
    } else {
        all.skip(all.len() - cap)
    }
}

/// Append a copy of every element of `src` to `dst`.
fn append_copy<T: Copy>(dst: &mut Vec<T>, src: &Vec<T>)
    ensures
        final(dst)@ == old(dst)@ + src@,
{
    let mut k: usize = 0;
    proof {
        assert(dst@ =~= old(dst)@ + src@.take(0));
    }
    while k < src.len()
        invariant
            k <= src@.len(),
            dst@ == old(dst)@ + src@.take(k as int),
        decreases src@.len() - k,
    {
        dst.push(src[k]);
        proof {
            assert((old(dst)@ + src@.take(k as int)).push(src@[k as int]) =~= old(dst)@
                + src@.take(k as int + 1));
        }
        k = k + 1;
    }
    proof {
        assert(src@.take(src@.len() as int) =~= src@);
    }
}

/// Append `chunk` to the ring buffer `buf` and drop its oldest elements until
/// at most `cap` remain.
fn ring_push<T: Copy>(buf: &mut Vec<T>, chunk: &Vec<T>, cap: usize)
    ensures
        final(buf)@ == ring_append(old(buf)@, chunk@, cap as int),
{
    append_copy(buf, chunk);
    let ghost all: Seq<T> = old(buf)@ + chunk@;
    while buf.len() > cap
        invariant
            buf@.len() <= all.len(),
            all.len() <= cap ==> buf@.len() == all.len(),
            all.len() > cap ==> buf@.len() >= cap,
            buf@ == all.skip(all.len() - buf@.len()),
        decreases buf@.len(),
    {
        buf.remove(0);
        proof {
            assert(all.skip(all.len() - (buf@.len() + 1)).remove(0) =~= all.skip(
                all.len() - buf@.len(),
            ));
        }
    }
    proof {
        assert(all.skip(0) =~= all);
    }
}

/// The streaming burst detector: either idle, with a bounded pre-roll ring
/// buffer of the most recent samples, or inside a transmission, growing an
/// accumulator that is emitted when the transmission closes.
pub struct StreamingDetector<T> {
    pub config: StreamConfig,
    /// Whether the machine is inside a transmission (`Active`) or not (`Idle`).
    pub in_transmission: bool,
    /// Running noise-floor estimate, thousandths of a dB; frozen while active.
    pub noise_floor_mdb: i64,
    /// Consecutive below-threshold samples seen inside the transmission.
    pub silence_counter: usize,
    /// The most recent samples seen while idle, at most `padding_samples`.
    pub pre_buffer: Vec<T>,
    /// The samples of the transmission being accumulated while active.
    pub tx_buffer: Vec<T>,
}

impl<T: Copy> StreamingDetector<T> {
    /// The detector's internal invariant, established by `new` and preserved
    /// by every step.
    pub open spec fn wf(self) -> bool {
        &&& self.config.wf()
        &&& POWER_MIN_MDB <= self.noise_floor_mdb <= POWER_MAX_MDB
        &&& self.pre_buffer@.len() <= self.config.padding_samples
        &&& (self.in_transmission ==> self.silence_counter <= self.config.gap_samples)
    }

    /// The entry threshold a step with measured power `power` decides
    /// against: the noise floor — moved by one EMA step while idle, frozen
    /// while active — plus the margin.
    pub open spec fn threshold_on_spec(self, power: int) -> int {
        (if self.in_transmission {
            self.noise_floor_mdb as int
        } else {
            ema_update(self.noise_floor_mdb as int, power)
        }) + self.config.margin_mdb
    }

    /// A fresh, idle detector with an initial noise-floor estimate of −60 dB.
    pub fn new(config: StreamConfig) -> (r: Self)
        requires
            config.wf(),
        ensures
            r.wf(),
            r.config == config,
            !r.in_transmission,
            r.noise_floor_mdb == -60_000i64,
            r.silence_counter == 0,
            r.pre_buffer@ == Seq::<T>::empty(),
            r.tx_buffer@ == Seq::<T>::empty(),
    {
        StreamingDetector {
            config,
            in_transmission: false,
            noise_floor_mdb: -60_000,
            silence_counter: 0,
            pre_buffer: Vec::new(),
            tx_buffer: Vec::new(),
        }
    }

    /// Advance the machine by one chunk whose measured peak power is
    /// `power_mdb`. Returns the accumulated transmission when this chunk
    /// closes one that meets the minimum duration, and `None` otherwise.
    ///
    /// Idle: the noise floor moves by one EMA step, the chunk enters the
    /// pre-roll ring buffer, and a power strictly above the entry threshold
    /// starts a transmission seeded with the ring buffer's content followed
    /// by the chunk. Active: the noise floor is frozen, the chunk joins the
    /// accumulator, and power strictly below the exit threshold grows the
    /// silence counter by one chunk's samples — reaching the configured gap
    /// closes the transmission, which is emitted if the accumulator minus the
    /// pre-roll budget meets the minimum duration. Power at or above the exit
    /// threshold resets the silence counter.
    pub fn process_chunk(&mut self, power_mdb: i64, chunk: &Vec<T>) -> (r: Option<Vec<T>>)
        requires
            old(self).wf(),
            POWER_MIN_MDB <= power_mdb <= POWER_MAX_MDB,
            chunk@.len() == old(self).config.chunk_size,
        ensures
            final(self).wf(),
            final(self).config == old(self).config,
            final(self).noise_floor_mdb as int == (if old(self).in_transmission {
                old(self).noise_floor_mdb as int
            } else {
                ema_update(old(self).noise_floor_mdb as int, power_mdb as int)
            }),
            (!old(self).in_transmission && power_mdb <= old(self).threshold_on_spec(
                power_mdb as int,
            )) ==> {
                &&& !final(self).in_transmission
                &&& final(self).silence_counter == old(self).silence_counter
                &&& final(self).pre_buffer@ == ring_append(
                    old(self).pre_buffer@,
                    chunk@,
                    old(self).config.padding_samples as int,
                )
                &&& final(self).tx_buffer@ == old(self).tx_buffer@
                &&& r is None
            },
            (!old(self).in_transmission && power_mdb > old(self).threshold_on_spec(
                power_mdb as int,
            )) ==> {
                &&& final(self).in_transmission
                &&& final(self).silence_counter == 0
                &&& final(self).pre_buffer@ == ring_append(
                    old(self).pre_buffer@,
                    chunk@,
                    old(self).config.padding_samples as int,
                )
                &&& final(self).tx_buffer@ == ring_append(
                    old(self).pre_buffer@,
                    chunk@,
                    old(self).config.padding_samples as int,
                ) + chunk@
                &&& r is None
            },
            (old(self).in_transmission && (power_mdb as int) >= old(self).threshold_on_spec(
                power_mdb as int,
            ) - HYSTERESIS_MDB) ==> {
                &&& final(self).in_transmission
                &&& final(self).silence_counter == 0
                &&& final(self).pre_buffer@ == old(self).pre_buffer@
                &&& final(self).tx_buffer@ == old(self).tx_buffer@ + chunk@
                &&& r is None
            },
            (old(self).in_transmission && (power_mdb as int) < old(self).threshold_on_spec(
                power_mdb as int,
            ) - HYSTERESIS_MDB) ==> {
                let new_silence = old(self).silence_counter + old(self).config.chunk_size;
                let acc = old(self).tx_buffer@ + chunk@;
                let kept = if acc.len() >= old(self).config.padding_samples {
                    acc.len() - old(self).config.padding_samples
                } else {
                    0
                };
                &&& final(self).pre_buffer@ == old(self).pre_buffer@
                &&& (new_silence < old(self).config.gap_samples ==> {
                    &&& final(self).in_transmission
                    &&& final(self).silence_counter == new_silence
                    &&& final(self).tx_buffer@ == acc
                    &&& r is None
                })
                &&& (new_silence >= old(self).config.gap_samples ==> {
                    &&& !final(self).in_transmission
                    &&& final(self).silence_counter == new_silence
                    &&& final(self).tx_buffer@ == Seq::<T>::empty()
                    &&& (kept >= old(self).config.min_duration_samples ==> (r matches Some(buf)
                        && buf@ == acc))
                    &&& (kept < old(self).config.min_duration_samples ==> r is None)
                })
            },
    {
        if !self.in_transmission {
            let nf = self.noise_floor_mdb;
            self.noise_floor_mdb = if power_mdb >= nf {
                nf + (power_mdb - nf) / 200
            } else {
                nf - (nf - power_mdb) / 200
            };
        }
        let threshold_on = self.noise_floor_mdb + self.config.margin_mdb;
        let threshold_off = threshold_on - HYSTERESIS_MDB;

        if !self.in_transmission {
            ring_push(&mut self.pre_buffer, chunk, self.config.padding_samples);
            if power_mdb > threshold_on {
                self.in_transmission = true;
                self.silence_counter = 0;
                self.tx_buffer.clear();
                append_copy(&mut self.tx_buffer, &self.pre_buffer);
                append_copy(&mut self.tx_buffer, chunk);
            }
            None
        } else {
            append_copy(&mut self.tx_buffer, chunk);
            if power_mdb < threshold_off {
                self.silence_counter = self.silence_counter + self.config.chunk_size;
                if self.silence_counter >= self.config.gap_samples {
                    self.in_transmission = false;
                    let accumulated = self.tx_buffer.len();
                    let actual_duration = if accumulated >= self.config.padding_samples {
                        accumulated - self.config.padding_samples
                    } else {
                        0
                    };
                    if actual_duration >= self.config.min_duration_samples {
                        let mut out: Vec<T> = Vec::new();
                        append_copy(&mut out, &self.tx_buffer);
                        self.tx_buffer.clear();
                        Some(out)
                    } else {
                        self.tx_buffer.clear();
                        None
                    }
                } else {
                    None
                }
            } else {
                self.silence_counter = 0;
                None
            }
        }
    }

    /// End of stream: a transmission still open is emitted if the whole
    /// accumulator meets the minimum duration, regardless of trailing
    /// padding; the machine returns to idle either way.
    pub fn flush(&mut self) -> (r: Option<Vec<T>>)
        requires
            old(self).wf(),
        ensures
            final(self).wf(),
            final(self).config == old(self).config,
            final(self).noise_floor_mdb == old(self).noise_floor_mdb,
            final(self).pre_buffer@ == old(self).pre_buffer@,
            final(self).silence_counter == old(self).silence_counter,
            !final(self).in_transmission,
            final(self).tx_buffer@ == Seq::<T>::empty(),
            (old(self).in_transmission && old(self).tx_buffer@.len()
                >= old(self).config.min_duration_samples) ==> (r matches Some(buf) && buf@ == old(
                self,
            ).tx_buffer@),
            !(old(self).in_transmission && old(self).tx_buffer@.len()
                >= old(self).config.min_duration_samples) ==> r is None,
    {
        let r = if self.in_transmission && self.tx_buffer.len()
            >= self.config.min_duration_samples {
            let mut out: Vec<T> = Vec::new();
            append_copy(&mut out, &self.tx_buffer);
            Some(out)
        } else {
            None
        };
        self.in_transmission = false;
        self.tx_buffer.clear();
        r
    }
}

} // verus!
