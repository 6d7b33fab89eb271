//! The post-processing engine's settings holder and its decision logic:
//! whether the transcript goes to the LLM at all, and which text is the
//! final one. The request transport lives outside the library.
use crate::llm::LlmPostProcessSettings;
use vstd::prelude::*;

verus! {

/// Outcome of the post-processing step: the text handed on, and how long
/// the LLM took (zero when it was not consulted).
#[derive(Debug, Clone)]
pub struct PostProcessResult {
    pub final_text: String,
    pub llm_latency_ms: u64,
}

/// Holds the active LLM post-processing settings for the session.
#[derive(Debug)]
pub struct PostProcessEngine {
    pub settings: LlmPostProcessSettings,
}

impl PostProcessEngine {
    /// An engine with the given settings.
    pub fn new(settings: LlmPostProcessSettings) -> (r: Self)
        ensures
            r.settings == settings,
    {
        PostProcessEngine { settings }
    }

    /// Install new settings.
    pub fn set_settings(&mut self, settings: LlmPostProcessSettings)
        ensures
            final(self).settings == settings,
    {
        self.settings = settings;
    }

    /// With post-processing disabled the transcript passes through
    /// unchanged, with no LLM latency.
    pub fn passthrough(&self, base_text: &str) -> (r: Option<PostProcessResult>)
        ensures
            self.settings.enabled ==> r is None,
            !self.settings.enabled ==> (r matches Some(p) && p.final_text@ == base_text@
                && p.llm_latency_ms == 0),
    {
        if !self.settings.enabled {
            Some(
                PostProcessResult {
                    final_text: String::from_str(base_text),
                    llm_latency_ms: 0,
                },
            )
        } else {
            None
        }
    }

    /// The text delivered after a successful LLM pass: the model's output
    /// when it applies to auto-paste, the original transcript otherwise.
    pub fn choose_final_text(&self, base_text: &str, llm_output: &str) -> (r: String)
        ensures
            self.settings.apply_to_autopaste ==> r@ == llm_output@,
            !self.settings.apply_to_autopaste ==> r@ == base_text@,
    {
        if self.settings.apply_to_autopaste {
            String::from_str(llm_output)
        } else {
            String::from_str(base_text)
        }
    }
}

} // verus!
