//! Adaptive voice-activity detection: per-frame classification against a
//! strategy-dependent silence threshold, a silence timer that speech resets,
//! a step function lowering the required trailing silence as the chunk grows,
//! and a speech-density gate deciding split versus skip.
use crate::samples::{frame_has_speech, frame_is_silent, has_speech_frame, is_silent_frame,
    mean_sq, mean_square};
use std::collections::VecDeque;
use vstd::arithmetic::mul::lemma_mul_upper_bound;
use vstd::prelude::*;

verus! {

/// Chunk-splitting strategy: `Normal` favours transcript quality, while
/// `Aggressive` splits earlier and finer for lower perceived latency.
#[derive(Clone, Copy, Debug, PartialEq, Eq, Structural)]
pub enum VadStrategy {
    Normal,
    Aggressive,
}

/// Result of the per-frame chunk-splitting decision.
#[derive(Debug, Clone)]
pub enum SplitDecision {
    /// Keep recording into the current chunk.
    Continue,
    /// Close the current chunk and transcribe it.
    Split { reason: String },
    /// Discard a silence-only chunk.
    Skip,
}

/// Fixed-point silence threshold (0.005 full scale) of the normal strategy.
pub const NORMAL_SILENCE_THRESHOLD: u32 = 5_000;

/// Fixed-point silence threshold (0.007 full scale) of the aggressive
/// strategy.
pub const AGGRESSIVE_SILENCE_THRESHOLD: u32 = 7_000;

/// The silence threshold the strategy classifies frames with.
pub open spec fn strategy_threshold(st: VadStrategy) -> u32 {
    match st {
        VadStrategy::Normal => 5_000,
        VadStrategy::Aggressive => 7_000,
    }
}

/// Base (longest) required trailing silence, in milliseconds.
pub open spec fn strategy_base_silence_ms(st: VadStrategy) -> u32 {
    match st {
        VadStrategy::Normal => 2_000,
        VadStrategy::Aggressive => 1_000,
    }
}

/// Shortest chunk the strategy allows to close on silence, in milliseconds.
pub open spec fn strategy_min_chunk_ms(st: VadStrategy) -> u32 {
    match st {
        VadStrategy::Normal => 3_000,
        VadStrategy::Aggressive => 1_500,
    }
}

/// Chunk length that forces a split, in milliseconds.
pub open spec fn strategy_max_chunk_ms(st: VadStrategy) -> u32 {
    match st {
        VadStrategy::Normal => 30_000,
        VadStrategy::Aggressive => 25_000,
    }
}

/// `cs` samples at `rate` Hz last at least `ms` milliseconds.
pub open spec fn spans_ms(cs: int, rate: int, ms: int) -> bool {
    cs * 1000 >= ms * rate
}

/// Required trailing silence (ms) for a chunk of `cs` samples: longer chunks
/// need progressively less silence, so long utterances close faster.
pub open spec fn required_silence_ms(st: VadStrategy, cs: int, rate: int) -> int {
    match st {
        VadStrategy::Normal => if !spans_ms(cs, rate, 8_000) {
            2_000
        } else if !spans_ms(cs, rate, 15_000) {
            1_000
        } else if !spans_ms(cs, rate, 25_000) {
            500
        } else {
            300
        },
        VadStrategy::Aggressive => if !spans_ms(cs, rate, 6_000) {
            1_000
        } else if !spans_ms(cs, rate, 12_000) {
            500
        } else if !spans_ms(cs, rate, 20_000) {
            300
        } else {
            200
        },
    }
}

/// More than 10% of the frames counted so far carried speech.
pub open spec fn ratio_above_tenth(speech: int, total: int) -> bool {
    speech * 10 > total
}

/// Decides `cs * 1000 >= ms * rate` exactly (no floating-point durations).
fn scaled_ge(cs: u64, ms: u32, rate: u32) -> (r: bool)
    ensures
        r == spans_ms(cs as int, rate as int, ms as int),
{
    proof {
        lemma_mul_upper_bound(ms as int, 0xffff_ffff, rate as int, 0xffff_ffff);
        assert((ms as int) * (rate as int) >= 0) by (nonlinear_arith)
            requires
                ms as int >= 0,
                rate as int >= 0,
        ;
    }
    (cs as u128) * 1000 >= (ms as u128) * (rate as u128)
}

/// Voice-activity detector for one recording session: classifies each
/// ~100 ms frame and decides whether to keep, split, or skip the chunk
/// being accumulated.
pub struct VoiceActivityDetector {
    /// Sample rate of the conditioned stream, Hz.
    pub sample_rate: u32,
    /// Rolling buffer of recent frame mean-square energies (bounded length).
    pub rms_buffer: VecDeque<u64>,
    /// Fixed-point silence threshold of the active strategy.
    pub silence_threshold: u32,
    /// Base required silence, ms.
    pub base_silence_ms: u32,
    /// Minimum chunk length before a silence split, ms.
    pub min_chunk_ms: u32,
    /// Chunk length that forces a split, ms.
    pub max_chunk_ms: u32,
    /// The strategy selected at session start; never mutated mid-session.
    pub strategy: VadStrategy,
    /// Whether the recording clock has started.
    pub recording_started: bool,
    /// When the current run of silence began (ms), if within one.
    pub silence_started: Option<u64>,
    /// Samples processed over the whole session.
    pub total_samples: u64,
    /// Samples accumulated in the current chunk.
    pub chunk_samples: u64,
    /// Frames of the current chunk classified as speech.
    pub speech_frames: u64,
    /// Frames counted in the current chunk.
    pub total_frames: u64,
}

impl VoiceActivityDetector {
    /// Internal consistency: strategy parameters are in force, counters are
    /// coherent, and the energy buffer stays bounded.
    pub open spec fn wf(&self) -> bool {
        &&& self.sample_rate >= 1
        &&& self.silence_threshold == strategy_threshold(self.strategy)
        &&& self.base_silence_ms == strategy_base_silence_ms(self.strategy)
        &&& self.min_chunk_ms == strategy_min_chunk_ms(self.strategy)
        &&& self.max_chunk_ms == strategy_max_chunk_ms(self.strategy)
        &&& self.speech_frames <= self.total_frames
        &&& self.rms_buffer@.len() <= 100
        &&& !self.recording_started ==> (self.chunk_samples == 0 && self.speech_frames == 0
            && self.total_frames == 0)
    }

    /// The frame is below the silence threshold.
    pub open spec fn frame_silent(&self, frame: Seq<i32>) -> bool {
        frame_is_silent(frame, self.silence_threshold)
    }

    /// The silence timer after classifying this frame: a loud frame clears
    /// it, a quiet frame starts it at `now_ms` or leaves it running.
    pub open spec fn silence_start_after(&self, frame: Seq<i32>, now_ms: u64) -> Option<u64> {
        if self.frame_silent(frame) {
            match self.silence_started {
                Some(t) => Some(t),
                None => Some(now_ms),
            }
        } else {
            None
        }
    }

    /// Length of the continuous run of silence ending at `now_ms`, in ms.
    pub open spec fn silence_ms(&self, frame: Seq<i32>, now_ms: u64) -> int {
        match self.silence_start_after(frame, now_ms) {
            Some(t) => if now_ms >= t {
                now_ms - t
            } else {
                0
            },
            None => 0,
        }
    }

    /// Chunk length including this frame, in samples.
    pub open spec fn counted_samples(&self, frame: Seq<i32>) -> int {
        self.chunk_samples + frame.len()
    }

    /// The chunk has lasted long enough, and the trailing silence long
    /// enough, for a silence-triggered boundary.
    pub open spec fn silence_trigger(&self, frame: Seq<i32>, now_ms: u64) -> bool {
        &&& self.frame_silent(frame)
        &&& spans_ms(self.counted_samples(frame), self.sample_rate as int, self.min_chunk_ms as int)
        &&& self.silence_ms(frame, now_ms) >= required_silence_ms(
            self.strategy,
            self.counted_samples(frame),
            self.sample_rate as int,
        )
    }

    /// More than 10% of the chunk's frames (this one included) carry speech.
    pub open spec fn speech_present(&self, frame: Seq<i32>) -> bool {
        ratio_above_tenth(
            self.speech_frames + (if frame_has_speech(frame, self.silence_threshold) {
                1int
            } else {
                0int
            }),
            self.total_frames + 1,
        )
    }

    /// The chunk including this frame has reached the forced-split length.
    pub open spec fn max_reached(&self, frame: Seq<i32>) -> bool {
        spans_ms(self.counted_samples(frame), self.sample_rate as int, self.max_chunk_ms as int)
    }

    /// The frame closes the chunk for transcription.
    pub open spec fn decision_splits(&self, frame: Seq<i32>, now_ms: u64) -> bool {
        (self.silence_trigger(frame, now_ms) && self.speech_present(frame)) || (
        !self.silence_trigger(frame, now_ms) && self.max_reached(frame))
    }

    /// The frame closes the chunk as silence-only, to be discarded.
    pub open spec fn decision_skips(&self, frame: Seq<i32>, now_ms: u64) -> bool {
        self.silence_trigger(frame, now_ms) && !self.speech_present(frame)
    }

    /// The energy buffer after recording `m`, bounded at 100 entries.
    pub open spec fn pushed_energy(&self, m: u64) -> Seq<u64> {
        let p = self.rms_buffer@.push(m);
        if p.len() > 100 {
            p.subrange(1, p.len() as int)
        } else {
            p
        }
    }

    /// A fresh detector for one session under the given strategy.
    pub fn new_with_strategy(sample_rate: u32, strategy: VadStrategy) -> (r: Self)
        requires
            sample_rate >= 1,
        ensures
            r.wf(),
            r.sample_rate == sample_rate,
            r.strategy == strategy,
            !r.recording_started,
            r.silence_started is None,
            r.total_samples == 0,
            r.chunk_samples == 0,
            r.speech_frames == 0,
            r.total_frames == 0,
            r.rms_buffer@ == Seq::<u64>::empty(),
    {
        let mut v = VoiceActivityDetector {
            sample_rate,
            rms_buffer: VecDeque::new(),
            silence_threshold: NORMAL_SILENCE_THRESHOLD,
            base_silence_ms: 2_000,
            min_chunk_ms: 3_000,
            max_chunk_ms: 30_000,
            strategy,
            recording_started: false,
            silence_started: None,
            total_samples: 0,
            chunk_samples: 0,
            speech_frames: 0,
            total_frames: 0,
        };
        v.apply_strategy(strategy);
        v
    }

    /// Install the strategy's thresholds and durations.
    fn apply_strategy(&mut self, strategy: VadStrategy)
        ensures
            *final(self) == (VoiceActivityDetector {
                strategy,
                silence_threshold: strategy_threshold(strategy),
                base_silence_ms: strategy_base_silence_ms(strategy),
                min_chunk_ms: strategy_min_chunk_ms(strategy),
                max_chunk_ms: strategy_max_chunk_ms(strategy),
                ..*old(self)
            }),
    {
        match strategy {
            VadStrategy::Normal => {
                self.silence_threshold = 5_000;
                self.base_silence_ms = 2_000;
                self.min_chunk_ms = 3_000;
                self.max_chunk_ms = 30_000;
            },
            VadStrategy::Aggressive => {
                self.silence_threshold = 7_000;
                self.base_silence_ms = 1_000;
                self.min_chunk_ms = 1_500;
                self.max_chunk_ms = 25_000;
            },
        }
        self.strategy = strategy;
    }

    /// Mark the start of recording and zero the per-chunk counters.
    pub fn start_recording(&mut self)
        ensures
            *final(self) == (VoiceActivityDetector {
                recording_started: true,
                chunk_samples: 0,
                speech_frames: 0,
                total_frames: 0,
                ..*old(self)
            }),
    {
        self.recording_started = true;
        self.chunk_samples = 0;
        self.speech_frames = 0;
        self.total_frames = 0;
    }

    /// Required trailing silence for the current strategy at `cs` chunk
    /// samples.
    fn required_silence(&self, cs: u64) -> (r: u32)
        ensures
            r == required_silence_ms(self.strategy, cs as int, self.sample_rate as int),
    {
        match self.strategy {
            VadStrategy::Normal => {
                if !scaled_ge(cs, 8_000, self.sample_rate) {
                    2_000
                } else if !scaled_ge(cs, 15_000, self.sample_rate) {
                    1_000
                } else if !scaled_ge(cs, 25_000, self.sample_rate) {
                    500
                } else {
                    300
                }
            },
            VadStrategy::Aggressive => {
                if !scaled_ge(cs, 6_000, self.sample_rate) {
                    1_000
                } else if !scaled_ge(cs, 12_000, self.sample_rate) {
                    500
                } else if !scaled_ge(cs, 20_000, self.sample_rate) {
                    300
                } else {
                    200
                }
            },
        }
    }

    /// Whether the chunk's counted frames carry enough speech to be worth
    /// transcribing.
    fn contains_speech(&self) -> (r: bool)
        ensures
            r == (self.total_frames > 0 && ratio_above_tenth(
                self.speech_frames as int,
                self.total_frames as int,
            )),
    {
        if self.total_frames == 0 {
            return false;
        }
        proof {
            lemma_mul_upper_bound(self.speech_frames as int, 0xffff_ffff_ffff_ffff, 10, 10);
        }
        (self.speech_frames as u128) * 10 > (self.total_frames as u128)
    }

    /// Reset per-chunk tracking at a chunk boundary.
    fn reset_chunk(&mut self)
        ensures
            *final(self) == (VoiceActivityDetector {
                silence_started: None,
                chunk_samples: 0,
                speech_frames: 0,
                total_frames: 0,
                rms_buffer: final(self).rms_buffer,
                ..*old(self)
            }),
            final(self).rms_buffer@ == Seq::<u64>::empty(),
    {
        self.silence_started = None;
        self.chunk_samples = 0;
        self.speech_frames = 0;
        self.total_frames = 0;
        self.rms_buffer.clear();
    }

    /// Classify one frame and decide whether the chunk in progress goes on
    /// (`Continue`), closes for transcription (`Split`), or is discarded as
    /// silence (`Skip`). `now_ms` is the caller's monotonic clock reading.
    ///
    /// A loud frame always clears the silence timer; a split on silence
    /// happens only once the continuous quiet run since the last loud frame
    /// has met the strategy's required duration.
    pub fn process_audio(&mut self, samples: &Vec<i32>, now_ms: u64) -> (d: SplitDecision)
        requires
            old(self).wf(),
            old(self).chunk_samples + samples@.len() <= u64::MAX,
            old(self).total_samples + samples@.len() <= u64::MAX,
            old(self).total_frames < u64::MAX,
        ensures
            final(self).wf(),
            final(self).recording_started,
            final(self).total_samples == old(self).total_samples + samples@.len(),
            final(self).sample_rate == old(self).sample_rate,
            final(self).strategy == old(self).strategy,
            final(self).silence_threshold == old(self).silence_threshold,
            (d is Split) == old(self).decision_splits(samples@, now_ms),
            (d is Skip) == old(self).decision_skips(samples@, now_ms),
            d matches SplitDecision::Split { reason } ==> reason@ == (
            if old(self).silence_trigger(samples@, now_ms) {
                "silence"@
            } else {
                "max duration"@
            }),
            // a decision boundary resets the per-chunk state; otherwise the
            // counters advance and the silence timer follows the frame
            (old(self).decision_splits(samples@, now_ms) || old(self).decision_skips(samples@, now_ms))
                ==> (final(self).chunk_samples == 0
                    && final(self).speech_frames == 0
                    && final(self).total_frames == 0
                    && final(self).silence_started is None
                    && final(self).rms_buffer@ =~= Seq::<u64>::empty()),
            (!old(self).decision_splits(samples@, now_ms) && !old(self).decision_skips(samples@, now_ms))
                ==> (final(self).chunk_samples == old(self).chunk_samples + samples@.len()
                    && final(self).total_frames == old(self).total_frames + 1
                    && final(self).speech_frames == old(self).speech_frames
                        + (if frame_has_speech(samples@, old(self).silence_threshold) { 1int } else { 0int })
                    && final(self).silence_started == old(self).silence_start_after(samples@, now_ms)
                    && final(self).rms_buffer@ =~= old(self).pushed_energy(mean_sq(samples@) as u64)),
            !frame_is_silent(samples@, old(self).silence_threshold)
                ==> final(self).silence_started is None,
    {
        if !self.recording_started {
            self.start_recording();
        }
        let n: u64 = samples.len() as u64;
        self.total_samples = self.total_samples + n;
        self.chunk_samples = self.chunk_samples + n;
        self.total_frames = self.total_frames + 1;

        let m = mean_square(samples);
        self.rms_buffer.push_back(m);
        if self.rms_buffer.len() > 100 {
            let _ = self.rms_buffer.pop_front();
        }

        if has_speech_frame(samples, self.silence_threshold) {
            self.speech_frames = self.speech_frames + 1;
        }

        let cs = self.chunk_samples;
        let required = self.required_silence(cs);

        if is_silent_frame(samples, self.silence_threshold) {
            if self.silence_started.is_none() {
                self.silence_started = Some(now_ms);
            }
            let started_at = match self.silence_started {
                Some(t) => t,
                None => now_ms,
            };
            let silence_dur: u64 = if now_ms >= started_at {
                now_ms - started_at
            } else {
                0
            };
            if scaled_ge(cs, self.min_chunk_ms, self.sample_rate) && silence_dur
                >= required as u64 {
                if self.contains_speech() {
                    self.reset_chunk();
                    return SplitDecision::Split { reason: String::from_str("silence") };
                } else {
                    self.reset_chunk();
                    return SplitDecision::Skip;
                }
            }
        } else {
            self.silence_started = None;
        }

        if scaled_ge(cs, self.max_chunk_ms, self.sample_rate) {
            self.reset_chunk();
            return SplitDecision::Split { reason: String::from_str("max duration") };
        }

        SplitDecision::Continue
    }
}

} // verus!
