//! Bookkeeping for the LLM post-processing history: the entry and
//! snapshot shapes, the mode label, and the bounded list the history file
//! keeps. Reading and writing the file itself is I/O outside the library.
use crate::chars::{str_eq, trim_seq, trim_string};
use crate::llm::{mode_index, spec_is_builtin, LlmPostProcessSettings, MODE_ID_CUSTOM_DRAFT,
    PRESET_ID_FORMAT, PRESET_ID_SUMMARY};
use vstd::prelude::*;

verus! {

/// Most entries the history keeps.
pub const MAX_HISTORY_ENTRIES: usize = 20;

/// One saved post-processing exchange.
#[derive(Debug, Clone, PartialEq)]
pub struct LlmHistoryEntry {
    pub timestamp: String,
    pub transcript: String,
    pub llm_output: String,
    pub truncated_input: bool,
    pub llm_latency_ms: u64,
    pub settings: LlmHistorySettingsSnapshot,
}

/// The settings in force when an entry was saved.
#[derive(Debug, Clone, PartialEq)]
pub struct LlmHistorySettingsSnapshot {
    pub api_base_url: String,
    pub model: String,
    pub mode_id: String,
    pub mode_label: String,
    pub language_override: Option<String>,
    pub custom_prompt_system: Option<String>,
    pub custom_prompt_user: Option<String>,
}

/// Result of saving one entry.
#[derive(Debug, Clone, Copy)]
pub struct HistorySaveOutcome {
    pub total_entries: usize,
}

/// The human-readable label of the selected mode: `format` or `summary`
/// for the presets, the stored custom mode's name, or the raw id.
pub fn mode_label(snapshot: &LlmPostProcessSettings) -> (r: String)
    ensures
        snapshot.mode_id@ == PRESET_ID_FORMAT@ ==> r@ == "format"@,
        snapshot.mode_id@ != PRESET_ID_FORMAT@ && snapshot.mode_id@ == PRESET_ID_SUMMARY@ ==> r@
            == "summary"@,
        !spec_is_builtin(snapshot.mode_id@) && mode_index(
            snapshot.custom_prompts@,
            snapshot.mode_id@,
        ) >= 0 ==> r@ == snapshot.custom_prompts@[mode_index(
            snapshot.custom_prompts@,
            snapshot.mode_id@,
        )].name@,
        !spec_is_builtin(snapshot.mode_id@) && mode_index(
            snapshot.custom_prompts@,
            snapshot.mode_id@,
        ) == -1 ==> r@ == snapshot.mode_id@,
{
    if str_eq(snapshot.mode_id.as_str(), PRESET_ID_FORMAT) {
        String::from_str("format")
    } else if str_eq(snapshot.mode_id.as_str(), PRESET_ID_SUMMARY) {
        String::from_str("summary")
    } else {
        match snapshot.custom_prompt(snapshot.mode_id.as_str()) {
            Some(m) => m.name.clone(),
            None => snapshot.mode_id.clone(),
        }
    }
}

/// The snapshot saved with an entry: the effective base URL, the model
/// and mode, and—when a custom mode or the draft is selected—its prompts.
pub fn build_settings_snapshot(settings: &LlmPostProcessSettings) -> (r:
    LlmHistorySettingsSnapshot)
    ensures
        r.api_base_url@ == (if trim_seq(settings.api_base_url@).len() == 0 {
            crate::llm::DEFAULT_LOCAL_BASE_URL@
        } else {
            trim_seq(settings.api_base_url@)
        }),
        r.model@ == settings.model@,
        r.mode_id@ == settings.mode_id@,
        r.language_override == settings.language_override,
        mode_index(settings.custom_prompts@, settings.mode_id@) >= 0 ==> ({
            let cm = settings.custom_prompts@[mode_index(
                settings.custom_prompts@,
                settings.mode_id@,
            )];
            &&& r.custom_prompt_system == cm.system_prompt
            &&& (r.custom_prompt_user matches Some(u) && u@ == cm.user_prompt@)
        }),
        mode_index(settings.custom_prompts@, settings.mode_id@) == -1 && settings.mode_id@
            == MODE_ID_CUSTOM_DRAFT@ ==> ({
            &&& (trim_seq(settings.custom_prompt_system@).len() == 0 ==> r.custom_prompt_system
                is None)
            &&& (trim_seq(settings.custom_prompt_system@).len() > 0
                ==> (r.custom_prompt_system matches Some(s) && s@
                    == settings.custom_prompt_system@))
            &&& (trim_seq(settings.custom_prompt@).len() == 0 ==> r.custom_prompt_user is None)
            &&& (trim_seq(settings.custom_prompt@).len() > 0 ==> (r.custom_prompt_user matches
                Some(u) && u@ == settings.custom_prompt@))
        }),
        mode_index(settings.custom_prompts@, settings.mode_id@) == -1 && settings.mode_id@
            != MODE_ID_CUSTOM_DRAFT@ ==> (r.custom_prompt_system is None && r.custom_prompt_user
            is None),
{
    let found = settings.custom_prompt_index(settings.mode_id.as_str());
    let mut custom_system: Option<String> = None;
    let mut custom_user: Option<String> = None;
    match found {
        Some(i) => {
            let cm = &settings.custom_prompts[i];
            custom_system = match &cm.system_prompt {
                Some(s) => Some(s.clone()),
                None => None,
            };
            custom_user = Some(cm.user_prompt.clone());
        },
        None => {
            if str_eq(settings.mode_id.as_str(), MODE_ID_CUSTOM_DRAFT) {
                let st = trim_string(settings.custom_prompt_system.as_str());
                if !st.as_str().is_empty() {
                    custom_system = Some(settings.custom_prompt_system.clone());
                }
                let ut = trim_string(settings.custom_prompt.as_str());
                if !ut.as_str().is_empty() {
                    custom_user = Some(settings.custom_prompt.clone());
                }
            }
        },
    }
    LlmHistorySettingsSnapshot {
        api_base_url: settings.effective_base_url(),
        model: settings.model.clone(),
        mode_id: settings.mode_id.clone(),
        mode_label: mode_label(settings),
        language_override: match &settings.language_override {
            Some(l) => Some(l.clone()),
            None => None,
        },
        custom_prompt_system: custom_system,
        custom_prompt_user: custom_user,
    }
}

/// Append one entry and keep only the newest `MAX_HISTORY_ENTRIES`,
/// dropping the oldest from the front.
pub fn push_history_entry(entries: &mut Vec<LlmHistoryEntry>, entry: LlmHistoryEntry) -> (r:
    HistorySaveOutcome)
    ensures
        final(entries)@.len() <= MAX_HISTORY_ENTRIES,
        old(entries)@.len() < MAX_HISTORY_ENTRIES ==> final(entries)@ == old(entries)@.push(
            entry,
        ),
        old(entries)@.len() >= MAX_HISTORY_ENTRIES ==> final(entries)@ == old(entries)@.push(
            entry,
        ).skip(old(entries)@.len() + 1 - MAX_HISTORY_ENTRIES),
        r.total_entries == final(entries)@.len(),
        final(entries)@.len() > 0 && final(entries)@.last() == entry,
{
    entries.push(entry);
    let ghost pushed = entries@;
    if entries.len() > MAX_HISTORY_ENTRIES {
        let excess = entries.len() - MAX_HISTORY_ENTRIES;
        let mut i: usize = 0;
        while i < excess
            invariant
                i <= excess,
                entries@ == pushed.skip(i as int),
                excess == pushed.len() - MAX_HISTORY_ENTRIES,
                pushed.len() >= MAX_HISTORY_ENTRIES,
            decreases excess - i,
        {
            let _ = entries.remove(0);
            i = i + 1;
            proof {
                assert(entries@ =~= pushed.skip(i as int));
            }
        }
    } else {
        proof {
            assert(pushed.skip(0) =~= pushed);
        }
    }
    HistorySaveOutcome { total_entries: entries.len() }
}

} // verus!
