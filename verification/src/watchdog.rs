//! Session-wide auto-stop tracking: a silence timer spanning the whole
//! recording and an absolute duration bound, each able to fire the stop
//! signal at most once per session.
use crate::samples::{frame_is_silent, is_silent_frame};
use crate::vad::{strategy_threshold, VadStrategy};
use vstd::prelude::*;

verus! {

/// Watchdog state for one recording session. Durations are milliseconds;
/// zero disables the corresponding trigger.
pub struct SessionWatchdog {
    /// Continuous whole-session silence that stops the recording; 0 disables.
    pub auto_stop_silence_ms: u64,
    /// Absolute recording duration that stops the recording; 0 disables.
    pub max_record_ms: u64,
    /// Fixed-point silence threshold, from the session's strategy.
    pub silence_threshold: u32,
    /// When the current whole-session run of silence began, if within one.
    pub silence_started: Option<u64>,
    /// One-shot guard: set when either trigger has fired.
    pub triggered: bool,
}

impl SessionWatchdog {
    /// A fresh watchdog for a session under the given strategy.
    pub fn new(strategy: VadStrategy, auto_stop_silence_ms: u64, max_record_ms: u64) -> (r: Self)
        ensures
            r.auto_stop_silence_ms == auto_stop_silence_ms,
            r.max_record_ms == max_record_ms,
            r.silence_threshold == strategy_threshold(strategy),
            r.silence_started is None,
            !r.triggered,
    {
        let threshold = match strategy {
            VadStrategy::Normal => 5_000u32,
            VadStrategy::Aggressive => 7_000u32,
        };
        SessionWatchdog {
            auto_stop_silence_ms,
            max_record_ms,
            silence_threshold: threshold,
            silence_started: None,
            triggered: false,
        }
    }

    /// The silence timer after observing this frame.
    pub open spec fn silence_start_after(&self, frame: Seq<i32>, now_ms: u64) -> Option<u64> {
        if frame_is_silent(frame, self.silence_threshold) {
            match self.silence_started {
                Some(t) => Some(t),
                None => Some(now_ms),
            }
        } else {
            None
        }
    }

    /// Whether this frame completes the configured run of silence.
    pub open spec fn silence_fires(&self, frame: Seq<i32>, now_ms: u64) -> bool {
        &&& !self.triggered
        &&& self.auto_stop_silence_ms > 0
        &&& match self.silence_start_after(frame, now_ms) {
            Some(t) => now_ms >= t && now_ms - t >= self.auto_stop_silence_ms,
            None => false,
        }
    }

    /// Observe one drained frame at `now_ms`. Returns true exactly when the
    /// whole-session silence bound is reached for the first time: the
    /// trigger is one-shot, so once it has fired it never fires again.
    pub fn observe_frame(&mut self, samples: &Vec<i32>, now_ms: u64) -> (stop: bool)
        ensures
            stop == old(self).silence_fires(samples@, now_ms),
            final(self).triggered == (old(self).triggered || stop),
            old(self).triggered ==> *final(self) == *old(self),
            final(self).auto_stop_silence_ms == old(self).auto_stop_silence_ms,
            final(self).max_record_ms == old(self).max_record_ms,
            final(self).silence_threshold == old(self).silence_threshold,
            !old(self).triggered && old(self).auto_stop_silence_ms > 0
                ==> final(self).silence_started == old(self).silence_start_after(samples@, now_ms),
    {
        if self.triggered || self.auto_stop_silence_ms == 0 {
            return false;
        }
        if is_silent_frame(samples, self.silence_threshold) {
            if self.silence_started.is_none() {
                self.silence_started = Some(now_ms);
            }
        } else {
            self.silence_started = None;
        }
        match self.silence_started {
            Some(t) => {
                if now_ms >= t && now_ms - t >= self.auto_stop_silence_ms {
                    self.triggered = true;
                    true
                } else {
                    false
                }
            },
            None => false,
        }
    }

    /// Whether the elapsed session time reaches the maximum bound.
    pub open spec fn max_fires(&self, elapsed_ms: u64) -> bool {
        !self.triggered && self.max_record_ms > 0 && elapsed_ms >= self.max_record_ms
    }

    /// Check the absolute recording bound against the elapsed session time.
    /// Returns true exactly when the bound is reached for the first time;
    /// the one-shot guard is shared with the silence trigger.
    pub fn check_max_duration(&mut self, elapsed_ms: u64) -> (stop: bool)
        ensures
            stop == old(self).max_fires(elapsed_ms),
            final(self).triggered == (old(self).triggered || stop),
            old(self).triggered ==> *final(self) == *old(self),
            final(self).auto_stop_silence_ms == old(self).auto_stop_silence_ms,
            final(self).max_record_ms == old(self).max_record_ms,
            final(self).silence_threshold == old(self).silence_threshold,
            final(self).silence_started == old(self).silence_started,
    {
        if !self.triggered && self.max_record_ms > 0 && elapsed_ms >= self.max_record_ms {
            self.triggered = true;
            true
        } else {
            false
        }
    }
}

} // verus!
