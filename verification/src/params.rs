//! Decoding parameters handed to the inference engine, and the thread-count
//! policy derived from the machine's core count.
use vstd::prelude::*;

verus! {

/// Decoding and context controls for the inference engine. The temperature
/// is carried in thousandths (0 = greedy decoding).
#[derive(Clone, Debug)]
pub struct WhisperOptimizationParams {
    pub no_timestamps: bool,
    pub token_timestamps: bool,
    pub use_physical_cores: bool,
    pub enable_beam_search: bool,
    pub beam_size: i32,
    pub temperature_milli: u32,
    pub n_max_text_ctx: i32,
    pub no_context: bool,
}

impl Default for WhisperOptimizationParams {
    /// Small beam search at temperature zero, long text context, physical
    /// cores, and no cross-chunk context carry-over.
    fn default() -> (r: Self)
        ensures
            r.no_timestamps == true,
            r.token_timestamps == false,
            r.use_physical_cores == true,
            r.enable_beam_search == true,
            r.beam_size == 3,
            r.temperature_milli == 0,
            r.n_max_text_ctx == 16384,
            r.no_context == false,
    {
        WhisperOptimizationParams {
            no_timestamps: true,
            token_timestamps: false,
            use_physical_cores: true,
            enable_beam_search: true,
            beam_size: 3,
            temperature_milli: 0,
            n_max_text_ctx: 16384,
            no_context: false,
        }
    }
}

/// Relies on `num_cpus::get`: the number of logical cores, documented to be
/// at least 1.
#[verifier::external_body]
fn logical_cores() -> (r: usize)
    ensures
        r >= 1,
{
    num_cpus::get()
}

/// Relies on `num_cpus::get_physical`: the number of physical cores,
/// documented to be at least 1.
#[verifier::external_body]
fn physical_cores() -> (r: usize)
    ensures
        r >= 1,
{
    num_cpus::get_physical()
}

/// The number of decoding threads: physical or logical cores as configured,
/// capped at 4 and never below 1.
pub fn decode_thread_count(use_physical_cores: bool) -> (r: i32)
    ensures
        1 <= r <= 4,
{
    let n = if use_physical_cores {
        physical_cores()
    } else {
        logical_cores()
    };
    if n > 4 {
        4
    } else {
        n as i32
    }
}

} // verus!
