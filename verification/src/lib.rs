//! Core of a real-time dictation pipeline: audio conditioning, adaptive
//! voice-activity detection, chunk dispatch bookkeeping, transcript cleanup
//! and overlap-aware reassembly, plus the pure settings logic around it.
#![verifier::loop_isolation(false)]

pub mod capture;
pub mod chars;
pub mod chunk;
pub mod dictionary;
pub mod history;
pub mod i18n;
pub mod llm;
pub mod output;
pub mod params;
pub mod postprocess;
pub mod samples;
pub mod textproc;
pub mod update;
pub mod vad;
pub mod watchdog;
