//! Settings and pure request-shaping logic for the optional LLM
//! post-processing step: mode bookkeeping, locale-aware prompt resolution,
//! placeholder rendering, transcript truncation, and the retry/backoff
//! bookkeeping. The HTTP transport itself lives outside the library.
use crate::chars::{ascii_lower, chars_of, chars_equal, contains_chars, contains_seq, dec_str,
    deep_str, lower_of, lowercase, replace_all, replace_pat, str_eq, string_from_chars,
    to_ascii_lower, trim_back_matching, trim_chars, trim_end_char, trim_front_matching, trim_seq,
    trim_start_char, trim_string, u64_to_string, upper_of, uppercase};
use vstd::prelude::*;

verus! {

/// Default API base URL of the OpenAI-compatible local endpoint.
pub const DEFAULT_LOCAL_BASE_URL: &'static str = "http://localhost:11434/v1";

/// Default model of the local provider.
pub const DEFAULT_LOCAL_MODEL: &'static str = "llama3.1:8b";

/// Default cap on the characters sent to the LLM.
pub const DEFAULT_MAX_INPUT_CHARS: usize = 4_000;

/// Default request timeout, seconds.
pub const DEFAULT_TIMEOUT_SECS: u64 = 30;

/// Consecutive failures that arm the backoff.
pub const BACKOFF_FAILURES: u32 = 3;

/// Backoff length, seconds.
pub const BACKOFF_SECS: u64 = 60;

/// Longest error-body preview kept in messages, characters.
pub const MAX_ERROR_BODY_PREVIEW: usize = 300;

pub const GLOBAL_LOCALE: &'static str = "global";

pub const LOCALE_JA_JP: &'static str = "ja-JP";

pub const LOCALE_EN_US: &'static str = "en-US";

pub const PLACEHOLDER_TRANSCRIPT: &'static str = "{{transcript}}";

pub const PLACEHOLDER_DICTIONARY: &'static str = "{{dictionary}}";

pub const PRESET_ID_FORMAT: &'static str = "preset:format";

pub const PRESET_ID_SUMMARY: &'static str = "preset:summary";

pub const MODE_ID_CUSTOM_DRAFT: &'static str = "custom:draft";

pub const FORMAT_SYSTEM_JA: &'static str =
    "\u{30e6}\u{30fc}\u{30b6}\u{30fc}\u{306f}\u{6587}\u{5b57}\u{8d77}\u{3053}\u{3057}\u{3055}\u{308c}\u{305f}\u{30c6}\u{30ad}\u{30b9}\u{30c8}\u{3092}\u{9001}\u{3063}\u{3066}\u{304f}\u{308b}\u{306e}\u{3067}\u{5185}\u{5bb9}\u{3092}\u{78ba}\u{8a8d}\u{3057}\u{3066}\u{3001}\u{6587}\u{5b57}\u{8d77}\u{3053}\u{3057}\u{3067}\u{6b20}\u{640d}\u{3057}\u{305f}\u{308a}\u{8aa4}\u{5909}\u{63db}\u{3057}\u{305f}\u{5358}\u{8a9e}\u{306a}\u{3069}\u{3092}\u{5168}\u{4f53}\u{306e}\u{6587}\u{8108}\u{3092}\u{8003}\u{616e}\u{3057}\u{3066}\u{4fee}\u{6b63}\u{3057}\u{3066}\u{304f}\u{3060}\u{3055}\u{3044}\u{3002}\u{6bb5}\u{843d}\u{3054}\u{3068}\u{306b}\u{6539}\u{884c}\u{3084}\u{7a7a}\u{884c}\u{3092}\u{7a4d}\u{6975}\u{7684}\u{306b}\u{4f7f}\u{3063}\u{3066}\u{3001}\u{8aad}\u{307f}\u{3084}\u{3059}\u{3044}\u{69cb}\u{9020}\u{306b}\u{3057}\u{3066}\u{304f}\u{3060}\u{3055}\u{3044}\u{3002}\u{7d50}\u{679c}\u{306f}\u{4fee}\u{6b63}\u{5f8c}\u{306e}\u{30c6}\u{30ad}\u{30b9}\u{30c8}\u{306e}\u{307f}\u{3092}\u{8fd4}\u{5374}\u{3057}\u{307e}\u{3059}\u{3002}\u{4fee}\u{6b63}\u{304c}\u{5fc5}\u{8981}\u{306a}\u{3044}\u{5834}\u{5408}\u{306f}\u{5143}\u{306e}\u{6587}\u{7ae0}\u{306e}\u{307f}\u{3092}\u{8fd4}\u{3057}\u{307e}\u{3059}\u{3002}\u{51fa}\u{529b}\u{3059}\u{308b}\u{6587}\u{5b57}\u{5217}\u{306b}\u{306f}\u{6821}\u{6b63}\u{5f8c}\u{306e}\u{6587}\u{7ae0}\u{4ee5}\u{5916}\u{306f}\u{4e00}\u{5207}\u{542b}\u{307e}\u{306a}\u{3044}\u{3053}\u{3068}\u{3002}\u{300c}\u{3048}\u{30fc}\u{3068}\u{300d}\u{300c}\u{3042}\u{30fc}\u{300d}\u{306a}\u{3069}\u{306e}\u{4eba}\u{304c}\u{8a71}\u{3059}\u{969b}\u{306b}\u{767a}\u{3057}\u{305f}\u{4e0d}\u{8981}\u{306a}\u{60c5}\u{5831}\u{306f}\u{9664}\u{53bb}\u{3057}\u{307e}\u{3059}\u{3002}";

pub const FORMAT_SYSTEM_EN: &'static str =
    "You receive an automatic transcript. Fix recognition mistakes, add punctuation, keep a neutral narrator style, and remove filler words such as \"um\" or \"uh\". Return only the corrected text.";

pub const FORMAT_SYSTEM_GLOBAL: &'static str =
    "You receive an automatic transcript. Clean it up, fix recognition mistakes, add punctuation, and remove filler words. Return only the corrected text in the same language as the input.";

pub const SUMMARY_SYSTEM_JA: &'static str =
    "\u{4ee5}\u{4e0b}\u{306e}\u{6587}\u{5b57}\u{8d77}\u{3053}\u{3057}\u{3092}\u{6700}\u{5927}5\u{3064}\u{306e}\u{7c21}\u{6f54}\u{306a}\u{7b87}\u{6761}\u{66f8}\u{304d}\u{3067}\u{65e5}\u{672c}\u{8a9e}\u{306e}\u{307e}\u{307e}\u{8981}\u{7d04}\u{3057}\u{3066}\u{304f}\u{3060}\u{3055}\u{3044}\u{3002}\u{5404}\u{884c}\u{306f} \"- \" \u{3067}\u{958b}\u{59cb}\u{3057}\u{3001}\u{4f59}\u{8a08}\u{306a}\u{524d}\u{7f6e}\u{304d}\u{3084}\u{611f}\u{60f3}\u{306f}\u{5165}\u{308c}\u{306a}\u{3044}\u{3067}\u{304f}\u{3060}\u{3055}\u{3044}\u{3002}";

pub const SUMMARY_SYSTEM_EN: &'static str =
    "Summarize the transcript into at most five concise bullet points written in English. Start each bullet with \"- \" and avoid any commentary.";

pub const SUMMARY_SYSTEM_GLOBAL: &'static str =
    "Summarize the transcript into at most five concise bullet points. Prefer the transcript language when obvious, otherwise use English. Start each bullet with \"- \".";

pub const FORMAT_USER_JA: &'static str =
    "\u{6821}\u{6b63}\u{5bfe}\u{8c61}:\n{{transcript}}";

pub const FORMAT_USER_EN: &'static str = "Transcript to revise:\n{{transcript}}";

pub const FORMAT_USER_GLOBAL: &'static str = "Transcript:\n{{transcript}}";

pub const SUMMARY_USER_DEFAULT: &'static str = "{{transcript}}";

/// User-configurable LLM post-processing settings.
#[derive(Debug, Clone, PartialEq)]
pub struct LlmPostProcessSettings {
    pub enabled: bool,
    pub api_base_url: String,
    pub model: String,
    pub mode_id: String,
    pub custom_prompts: Vec<CustomPromptMode>,
    pub custom_prompt_name: String,
    pub language_override: Option<String>,
    pub custom_prompt_system: String,
    pub custom_prompt: String,
    pub max_input_chars: usize,
    pub timeout_secs: u64,
    pub apply_to_autopaste: bool,
}

/// A user-defined custom prompt mode.
#[derive(Debug, Clone, PartialEq, Eq)]
pub struct CustomPromptMode {
    pub id: String,
    pub name: String,
    pub system_prompt: Option<String>,
    pub user_prompt: String,
}

impl Default for LlmPostProcessSettings {
    /// Disabled, pointing at the local default endpoint and model, in the
    /// format preset, with the default truncation and timeout.
    fn default() -> (r: Self)
        ensures
            !r.enabled,
            r.api_base_url@ == DEFAULT_LOCAL_BASE_URL@,
            r.model@ == DEFAULT_LOCAL_MODEL@,
            r.mode_id@ == PRESET_ID_FORMAT@,
            r.custom_prompts@.len() == 0,
            r.language_override is None,
            r.custom_prompt_system@.len() == 0,
            r.custom_prompt@ == PLACEHOLDER_TRANSCRIPT@,
            r.max_input_chars == DEFAULT_MAX_INPUT_CHARS,
            r.timeout_secs == DEFAULT_TIMEOUT_SECS,
            r.apply_to_autopaste,
    {
        proof {
            reveal_strlit("");
        }
        LlmPostProcessSettings {
            enabled: false,
            api_base_url: String::from_str(DEFAULT_LOCAL_BASE_URL),
            model: String::from_str(DEFAULT_LOCAL_MODEL),
            mode_id: String::from_str(PRESET_ID_FORMAT),
            custom_prompts: Vec::new(),
            custom_prompt_name: String::from_str("Custom prompt"),
            language_override: None,
            custom_prompt_system: String::new(),
            custom_prompt: String::from_str(PLACEHOLDER_TRANSCRIPT),
            max_input_chars: DEFAULT_MAX_INPUT_CHARS,
            timeout_secs: DEFAULT_TIMEOUT_SECS,
            apply_to_autopaste: true,
        }
    }
}

/// The preset mode selected when nothing else is.
pub fn default_mode_id() -> (r: String)
    ensures
        r@ == PRESET_ID_FORMAT@,
{
    String::from_str(PRESET_ID_FORMAT)
}

/// Whether the mode id names one of the two built-in presets.
pub open spec fn spec_is_builtin(id: Seq<char>) -> bool {
    id == PRESET_ID_FORMAT@ || id == PRESET_ID_SUMMARY@
}

pub fn is_builtin_mode(id: &str) -> (r: bool)
    ensures
        r == spec_is_builtin(id@),
{
    str_eq(id, PRESET_ID_FORMAT) || str_eq(id, PRESET_ID_SUMMARY)
}

/// First index of the custom mode carrying this id, if any.
pub open spec fn mode_index(s: Seq<CustomPromptMode>, id: Seq<char>) -> int
    decreases s.len(),
{
    if s.len() == 0 {
        -1
    } else if s[0].id@ == id {
        0
    } else {
        let t = mode_index(s.skip(1), id);
        if t == -1 {
            -1
        } else {
            t + 1
        }
    }
}

proof fn lemma_mode_index_range(s: Seq<CustomPromptMode>, id: Seq<char>)
    ensures
        mode_index(s, id) == -1 ==> forall|k: int| 0 <= k < s.len() ==> (#[trigger] s[k]).id@
            != id,
        mode_index(s, id) != -1 ==> 0 <= mode_index(s, id) < s.len() && s[mode_index(s, id)].id@
            == id && forall|k: int| 0 <= k < mode_index(s, id) ==> (#[trigger] s[k]).id@ != id,
    decreases s.len(),
{
    if s.len() > 0 && s[0].id@ != id {
        lemma_mode_index_range(s.skip(1), id);
        let t = mode_index(s.skip(1), id);
        if t == -1 {
            assert forall|k: int| 0 <= k < s.len() implies (#[trigger] s[k]).id@ != id by {
                if k >= 1 {
                    assert(s.skip(1)[k - 1].id@ != id);
                }
            }
        } else {
            assert(s[t + 1].id@ == s.skip(1)[t].id@);
            assert forall|k: int| 0 <= k < t + 1 implies (#[trigger] s[k]).id@ != id by {
                if k >= 1 {
                    assert(s.skip(1)[k - 1].id@ != id);
                }
            }
        }
    }
}

/// Find the first custom mode with the given id.
fn find_mode(s: &Vec<CustomPromptMode>, id: &str) -> (r: Option<usize>)
    ensures
        match r {
            Some(i) => i == mode_index(s@, id@) && i < s@.len() && s@[i as int].id@ == id@,
            None => mode_index(s@, id@) == -1,
        },
{
    proof {
        lemma_mode_index_range(s@, id@);
    }
    let mut i: usize = 0;
    while i < s.len()
        invariant
            i <= s@.len(),
            forall|k: int| 0 <= k < i ==> (#[trigger] s@[k]).id@ != id@,
        decreases s@.len() - i,
    {
        if str_eq(s[i].id.as_str(), id) {
            proof {
                lemma_mode_index_first(s@, id@, i as int);
            }
            return Some(i);
        }
        i = i + 1;
    }
    proof {
        if mode_index(s@, id@) != -1 {
            assert(s@[mode_index(s@, id@)].id@ == id@);
        }
    }
    None
}

proof fn lemma_mode_index_first(s: Seq<CustomPromptMode>, id: Seq<char>, i: int)
    requires
        0 <= i < s.len(),
        s[i].id@ == id,
        forall|k: int| 0 <= k < i ==> (#[trigger] s[k]).id@ != id,
    ensures
        mode_index(s, id) == i,
    decreases i,
{
    if i > 0 {
        lemma_mode_index_first(s.skip(1), id, i - 1);
    }
}

impl LlmPostProcessSettings {
    /// The API base URL in force: the configured one trimmed, or the local
    /// default when blank.
    pub fn effective_base_url(&self) -> (r: String)
        ensures
            r@ == (if trim_seq(self.api_base_url@).len() == 0 {
                DEFAULT_LOCAL_BASE_URL@
            } else {
                trim_seq(self.api_base_url@)
            }),
    {
        let t = trim_string(self.api_base_url.as_str());
        if t.as_str().is_empty() {
            String::from_str(DEFAULT_LOCAL_BASE_URL)
        } else {
            t
        }
    }

    /// The model used when the settings name none.
    pub fn default_model() -> (r: &'static str)
        ensures
            r@ == DEFAULT_LOCAL_MODEL@,
    {
        DEFAULT_LOCAL_MODEL
    }

    /// The model in force: the configured one trimmed, or the default when
    /// blank.
    pub fn effective_model(&self) -> (r: String)
        ensures
            r@ == (if trim_seq(self.model@).len() == 0 {
                DEFAULT_LOCAL_MODEL@
            } else {
                trim_seq(self.model@)
            }),
    {
        let t = trim_string(self.model.as_str());
        if t.as_str().is_empty() {
            String::from_str(DEFAULT_LOCAL_MODEL)
        } else {
            t
        }
    }

    /// The locale list prompts are resolved against: the normalized
    /// override or hint first, then always the global fallback.
    pub open spec fn locale_priority_spec(&self, hint: Option<Seq<char>>) -> Seq<Seq<char>> {
        let first = match self.language_override {
            Some(l) => normalize_locale(l@),
            None => match hint {
                Some(h) => normalize_locale(h),
                None => None,
            },
        };
        let first2 = match self.language_override {
            Some(l) => match normalize_locale(l@) {
                Some(n) => Some(n),
                None => match hint {
                    Some(h) => normalize_locale(h),
                    None => None,
                },
            },
            None => first,
        };
        match first2 {
            Some(loc) => if ascii_lower(loc) == ascii_lower(GLOBAL_LOCALE@) {
                seq![loc]
            } else {
                seq![loc, GLOBAL_LOCALE@]
            },
            None => seq![GLOBAL_LOCALE@],
        }
    }

    /// Locale priority for prompt resolution.
    pub fn locale_priority(&self, language_hint: Option<&str>) -> (r: Vec<String>)
        ensures
            deep_str(r@) == self.locale_priority_spec(
                match language_hint {
                    Some(h) => Some(h@),
                    None => None,
                },
            ),
    {
        let mut locales: Vec<String> = Vec::new();
        let mut first: Option<String> = None;
        match &self.language_override {
            Some(l) => {
                first = normalize_locale_code(l.as_str());
                if first.is_none() {
                    match language_hint {
                        Some(h) => {
                            first = normalize_locale_code(h);
                        },
                        None => {},
                    }
                }
            },
            None => {
                match language_hint {
                    Some(h) => {
                        first = normalize_locale_code(h);
                    },
                    None => {},
                }
            },
        }
        match first {
            Some(loc) => {
                let lv = chars_of(loc.as_str());
                let ll = to_ascii_lower(&lv);
                let gv = chars_of(GLOBAL_LOCALE);
                let gl = to_ascii_lower(&gv);
                let is_global = chars_equal(&ll, &gl);
                locales.push(loc);
                if !is_global {
                    locales.push(String::from_str(GLOBAL_LOCALE));
                }
                proof {
                    assert(deep_str(locales@) =~= self.locale_priority_spec(
                        match language_hint {
                            Some(h) => Some(h@),
                            None => None,
                        },
                    ));
                }
            },
            None => {
                locales.push(String::from_str(GLOBAL_LOCALE));
                proof {
                    assert(deep_str(locales@) =~= self.locale_priority_spec(
                        match language_hint {
                            Some(h) => Some(h@),
                            None => None,
                        },
                    ));
                }
            },
        }
        locales
    }

    /// The first custom mode carrying this id.
    pub fn custom_prompt(&self, id: &str) -> (r: Option<&CustomPromptMode>)
        ensures
            match r {
                Some(m) => mode_index(self.custom_prompts@, id@) >= 0 && *m
                    == self.custom_prompts@[mode_index(self.custom_prompts@, id@)],
                None => mode_index(self.custom_prompts@, id@) == -1,
            },
    {
        match find_mode(&self.custom_prompts, id) {
            Some(i) => Some(&self.custom_prompts[i]),
            None => None,
        }
    }

    /// A mutable borrow of the first custom mode carrying this id.
    pub fn custom_prompt_mut(&mut self, id: &str) -> (r: Option<&mut CustomPromptMode>)
        ensures
            mode_index(old(self).custom_prompts@, id@) == -1 ==> (r is None && *final(self)
                == *old(self)),
            mode_index(old(self).custom_prompts@, id@) >= 0 ==> (match r {
                Some(m) => {
                    let idx = mode_index(old(self).custom_prompts@, id@);
                    &&& *m == old(self).custom_prompts@[idx]
                    &&& final(self).custom_prompts@ == old(self).custom_prompts@.update(
                        idx,
                        *final(m),
                    )
                    &&& final(self).mode_id@ == old(self).mode_id@
                    &&& final(self).enabled == old(self).enabled
                },
                None => false,
            }),
    {
        match find_mode(&self.custom_prompts, id) {
            Some(i) => Some(&mut self.custom_prompts[i]),
            None => None,
        }
    }

    /// The position of the first custom mode carrying this id, for
    /// in-place edits.
    pub fn custom_prompt_index(&self, id: &str) -> (r: Option<usize>)
        ensures
            match r {
                Some(i) => i == mode_index(self.custom_prompts@, id@) && i
                    < self.custom_prompts@.len(),
                None => mode_index(self.custom_prompts@, id@) == -1,
            },
    {
        find_mode(&self.custom_prompts, id)
    }

    /// The mode id after validation: empty falls back to the format
    /// preset, legacy custom spellings become the draft, and an id that
    /// names neither a preset nor a stored custom mode becomes the draft.
    pub open spec fn valid_mode_of(&self) -> Seq<char> {
        let m0 = self.mode_id@;
        let m1 = if m0.len() == 0 {
            PRESET_ID_FORMAT@
        } else {
            m0
        };
        let m2 = if m1 == "custom"@ || m1 == "preset:custom"@ {
            MODE_ID_CUSTOM_DRAFT@
        } else {
            m1
        };
        if m2 != MODE_ID_CUSTOM_DRAFT@ && !spec_is_builtin(m2) && mode_index(
            self.custom_prompts@,
            m2,
        ) == -1 {
            MODE_ID_CUSTOM_DRAFT@
        } else {
            m2
        }
    }

    /// Repair the selected mode id so it always names something usable.
    pub fn ensure_mode_valid(&mut self)
        ensures
            final(self).mode_id@ == old(self).valid_mode_of(),
            final(self).custom_prompts@ == old(self).custom_prompts@,
            final(self).enabled == old(self).enabled,
            final(self).api_base_url@ == old(self).api_base_url@,
            final(self).model@ == old(self).model@,
            final(self).custom_prompt@ == old(self).custom_prompt@,
            final(self).custom_prompt_system@ == old(self).custom_prompt_system@,
            final(self).custom_prompt_name@ == old(self).custom_prompt_name@,
            final(self).language_override == old(self).language_override,
            final(self).max_input_chars == old(self).max_input_chars,
            final(self).timeout_secs == old(self).timeout_secs,
            final(self).apply_to_autopaste == old(self).apply_to_autopaste,
    {
        if self.mode_id.as_str().is_empty() {
            self.mode_id = default_mode_id();
        }
        if str_eq(self.mode_id.as_str(), "custom") || str_eq(
            self.mode_id.as_str(),
            "preset:custom",
        ) {
            self.mode_id = String::from_str(MODE_ID_CUSTOM_DRAFT);
        }
        if !str_eq(self.mode_id.as_str(), MODE_ID_CUSTOM_DRAFT) && !is_builtin_mode(
            self.mode_id.as_str(),
        ) {
            let found = find_mode(&self.custom_prompts, self.mode_id.as_str());
            if found.is_none() {
                self.mode_id = String::from_str(MODE_ID_CUSTOM_DRAFT);
            }
        }
    }
}

/// The locale code after normalization: trimmed, split on `-`/`_`, the
/// language lowered and the region uppered; blank and `auto` mean none,
/// and the bare languages `ja` and `en` widen to their usual regions.
pub open spec fn normalize_locale(raw: Seq<char>) -> Option<Seq<char>> {
    let t = trim_seq(raw);
    if t.len() == 0 {
        None
    } else if lower_of(t) == "auto"@ {
        None
    } else {
        let parts = split_parts(t);
        if parts.len() == 0 {
            None
        } else {
            let language = lower_of(parts[0]);
            if parts.len() >= 2 {
                Some(language + seq!['-'] + upper_of(parts[1]))
            } else if language == "ja"@ {
                Some(LOCALE_JA_JP@)
            } else if language == "en"@ {
                Some(LOCALE_EN_US@)
            } else {
                Some(language)
            }
        }
    }
}

/// The non-empty stretches of the text between `-` and `_` separators.
pub open spec fn split_parts(s: Seq<char>) -> Seq<Seq<char>> {
    split_go(s, Seq::empty(), Seq::empty())
}

pub open spec fn split_go(s: Seq<char>, buf: Seq<char>, out: Seq<Seq<char>>) -> Seq<Seq<char>>
    decreases s.len(),
{
    if s.len() == 0 {
        if buf.len() > 0 {
            out.push(buf)
        } else {
            out
        }
    } else if s[0] == '-' || s[0] == '_' {
        split_go(s.skip(1), Seq::empty(), if buf.len() > 0 {
            out.push(buf)
        } else {
            out
        })
    } else {
        split_go(s.skip(1), buf.push(s[0]), out)
    }
}

/// Split a text on `-` and `_`, keeping the non-empty parts.
fn split_locale_parts(v: &Vec<char>) -> (r: Vec<Vec<char>>)
    ensures
        r@.map_values(|p: Vec<char>| p@) == split_parts(v@),
{
    let mut out: Vec<Vec<char>> = Vec::new();
    let mut buf: Vec<char> = Vec::new();
    let mut i: usize = 0;
    proof {
        assert(v@.skip(0) =~= v@);
        assert(buf@ =~= Seq::<char>::empty());
        assert(out@.map_values(|p: Vec<char>| p@) =~= Seq::<Seq<char>>::empty());
    }
    while i < v.len()
        invariant
            i <= v@.len(),
            split_parts(v@) == split_go(
                v@.skip(i as int),
                buf@,
                out@.map_values(|p: Vec<char>| p@),
            ),
        decreases v@.len() - i,
    {
        let ghost rem = v@.skip(i as int);
        let ghost pre_out = out@.map_values(|p: Vec<char>| p@);
        proof {
            assert(rem.skip(1) =~= v@.skip(i + 1));
            assert(rem[0] == v@[i as int]);
        }
        let c = v[i];
        if c == '-' || c == '_' {
            if buf.len() > 0 {
                out.push(buf);
                proof {
                    assert(out@.map_values(|p: Vec<char>| p@) =~= pre_out.push(
                        out@.last()@,
                    ));
                }
            }
            buf = Vec::new();
            proof {
                assert(buf@ =~= Seq::<char>::empty());
            }
        } else {
            buf.push(c);
        }
        i = i + 1;
    }
    proof {
        assert(v@.skip(v@.len() as int) =~= Seq::<char>::empty());
    }
    let ghost pre_out = out@.map_values(|p: Vec<char>| p@);
    if buf.len() > 0 {
        out.push(buf);
        proof {
            assert(out@.map_values(|p: Vec<char>| p@) =~= pre_out.push(out@.last()@));
        }
    }
    out
}

/// Normalize a locale code, as `normalize_locale` states.
pub fn normalize_locale_code(raw: &str) -> (r: Option<String>)
    ensures
        match r {
            Some(s) => normalize_locale(raw@) == Some(s@),
            None => normalize_locale(raw@) is None,
        },
{
    let rv = chars_of(raw);
    let t = trim_chars(&rv);
    if t.len() == 0 {
        return None;
    }
    let ts = string_from_chars(&t);
    let low = lowercase(ts.as_str());
    if str_eq(low.as_str(), "auto") {
        return None;
    }
    let parts = split_locale_parts(&t);
    if parts.len() == 0 {
        return None;
    }
    let p0 = string_from_chars(&parts[0]);
    let language = lowercase(p0.as_str());
    proof {
        assert(parts@.map_values(|p: Vec<char>| p@)[0] == parts@[0]@);
    }
    if parts.len() >= 2 {
        let p1 = string_from_chars(&parts[1]);
        let region = uppercase(p1.as_str());
        let mut out = language;
        push_dash(&mut out);
        let mut r2 = region;
        out.append(&mut r2);
        proof {
            assert(parts@.map_values(|p: Vec<char>| p@)[1] == parts@[1]@);
            assert(out@ =~= lower_of(parts@[0]@) + seq!['-'] + upper_of(parts@[1]@));
        }
        Some(out)
    } else if str_eq(language.as_str(), "ja") {
        Some(String::from_str(LOCALE_JA_JP))
    } else if str_eq(language.as_str(), "en") {
        Some(String::from_str(LOCALE_EN_US))
    } else {
        Some(language)
    }
}

/// Append one `-` separator.
fn push_dash(s: &mut String)
    ensures
        final(s)@ == old(s)@ + seq!['-'],
{
    s.append("-");
    proof {
        reveal_strlit("-");
        assert(old(s)@ + "-"@ =~= old(s)@ + seq!['-']);
    }
}

/// A resolved prompt: an optional system message and the user message.
#[derive(Debug, Clone)]
pub struct PromptTemplateResolved {
    pub system: Option<String>,
    pub user: String,
}

/// A template with its placeholders filled: every `{{transcript}}` becomes
/// the transcript and every `{{dictionary}}` the dictionary hint.
pub open spec fn rendered(t: Seq<char>, transcript: Seq<char>, dictionary: Seq<char>) -> Seq<
    char,
> {
    replace_pat(replace_pat(t, PLACEHOLDER_TRANSCRIPT@, transcript), PLACEHOLDER_DICTIONARY@,
        dictionary)
}

/// Render a template: fill both placeholders and report whether the
/// template carried the transcript placeholder itself.
pub fn render_with_placeholders(template: &str, transcript: &str, dictionary: &str) -> (r: (
    String,
    bool,
))
    ensures
        r.0@ == rendered(template@, transcript@, dictionary@),
        r.1 == contains_seq(template@, PLACEHOLDER_TRANSCRIPT@),
{
    let tv = chars_of(template);
    let ph_t = chars_of(PLACEHOLDER_TRANSCRIPT);
    let ph_d = chars_of(PLACEHOLDER_DICTIONARY);
    proof {
        reveal_strlit("{{transcript}}");
        reveal_strlit("{{dictionary}}");
    }
    let has = contains_chars(&tv, &ph_t);
    let trv = chars_of(transcript);
    let dv = chars_of(dictionary);
    let r0 = replace_all(&tv, &ph_t, &trv);
    let r1 = replace_all(&r0, &ph_d, &dv);
    (string_from_chars(&r1), has)
}

/// Fill the dictionary placeholder of a text, leaving the rest alone.
pub open spec fn injected(t: Seq<char>, dictionary: Seq<char>) -> Seq<char> {
    replace_pat(t, PLACEHOLDER_DICTIONARY@, dictionary)
}

/// Replace `{{dictionary}}` in a text by the dictionary hint.
pub fn inject_dictionary(text: String, dictionary: &str) -> (r: String)
    ensures
        r@ == injected(text@, dictionary@),
{
    let tv = chars_of(text.as_str());
    let ph_d = chars_of(PLACEHOLDER_DICTIONARY);
    proof {
        reveal_strlit("{{dictionary}}");
    }
    let dv = chars_of(dictionary);
    let r0 = replace_all(&tv, &ph_d, &dv);
    string_from_chars(&r0)
}

impl PromptTemplateResolved {
    /// The dictionary hint filled into both messages.
    pub fn apply_dictionary(self, dictionary: &str) -> (r: Self)
        ensures
            match self.system {
                Some(s) => r.system matches Some(rs) && rs@ == injected(s@, dictionary@),
                None => r.system is None,
            },
            r.user@ == injected(self.user@, dictionary@),
    {
        let system = match self.system {
            Some(s) => Some(inject_dictionary(s, dictionary)),
            None => None,
        };
        let user = inject_dictionary(self.user, dictionary);
        PromptTemplateResolved { system, user }
    }
}

/// The format preset's system and user templates for a locale, when the
/// locale has its own.
pub open spec fn format_template(loc: Seq<char>) -> Option<(Seq<char>, Seq<char>)> {
    let n = ascii_lower(loc);
    if n == "ja-jp"@ {
        Some((FORMAT_SYSTEM_JA@, FORMAT_USER_JA@))
    } else if n == "en-us"@ {
        Some((FORMAT_SYSTEM_EN@, FORMAT_USER_EN@))
    } else if n == "global"@ {
        Some((FORMAT_SYSTEM_GLOBAL@, FORMAT_USER_GLOBAL@))
    } else {
        None
    }
}

/// The summary preset's system and user templates for a locale.
pub open spec fn summary_template(loc: Seq<char>) -> Option<(Seq<char>, Seq<char>)> {
    let n = ascii_lower(loc);
    if n == "ja-jp"@ {
        Some((SUMMARY_SYSTEM_JA@, SUMMARY_USER_DEFAULT@))
    } else if n == "en-us"@ {
        Some((SUMMARY_SYSTEM_EN@, SUMMARY_USER_DEFAULT@))
    } else if n == "global"@ {
        Some((SUMMARY_SYSTEM_GLOBAL@, SUMMARY_USER_DEFAULT@))
    } else {
        None
    }
}

/// The first locale with a format template wins; the global pair is the
/// fallback.
pub open spec fn first_format_template(locs: Seq<Seq<char>>) -> (Seq<char>, Seq<char>)
    decreases locs.len(),
{
    if locs.len() == 0 {
        (FORMAT_SYSTEM_GLOBAL@, FORMAT_USER_GLOBAL@)
    } else {
        match format_template(locs[0]) {
            Some(p) => p,
            None => first_format_template(locs.skip(1)),
        }
    }
}

/// The first locale with a summary template wins.
pub open spec fn first_summary_template(locs: Seq<Seq<char>>) -> (Seq<char>, Seq<char>)
    decreases locs.len(),
{
    if locs.len() == 0 {
        (SUMMARY_SYSTEM_GLOBAL@, SUMMARY_USER_DEFAULT@)
    } else {
        match summary_template(locs[0]) {
            Some(p) => p,
            None => first_summary_template(locs.skip(1)),
        }
    }
}

/// The format preset's templates for this locale, if it has its own.
pub fn format_prompt_template_for_locale(locale: &str) -> (r: Option<(String, String)>)
    ensures
        match r {
            Some(p) => format_template(locale@) == Some((p.0@, p.1@)),
            None => format_template(locale@) is None,
        },
{
    let lv = chars_of(locale);
    let low = to_ascii_lower(&lv);
    let lows = string_from_chars(&low);
    if str_eq(lows.as_str(), "ja-jp") {
        Some((String::from_str(FORMAT_SYSTEM_JA), String::from_str(FORMAT_USER_JA)))
    } else if str_eq(lows.as_str(), "en-us") {
        Some((String::from_str(FORMAT_SYSTEM_EN), String::from_str(FORMAT_USER_EN)))
    } else if str_eq(lows.as_str(), "global") {
        Some((String::from_str(FORMAT_SYSTEM_GLOBAL), String::from_str(FORMAT_USER_GLOBAL)))
    } else {
        None
    }
}

/// The summary preset's templates for this locale, if it has its own.
pub fn summary_prompt_template_for_locale(locale: &str) -> (r: Option<(String, String)>)
    ensures
        match r {
            Some(p) => summary_template(locale@) == Some((p.0@, p.1@)),
            None => summary_template(locale@) is None,
        },
{
    let lv = chars_of(locale);
    let low = to_ascii_lower(&lv);
    let lows = string_from_chars(&low);
    if str_eq(lows.as_str(), "ja-jp") {
        Some((String::from_str(SUMMARY_SYSTEM_JA), String::from_str(SUMMARY_USER_DEFAULT)))
    } else if str_eq(lows.as_str(), "en-us") {
        Some((String::from_str(SUMMARY_SYSTEM_EN), String::from_str(SUMMARY_USER_DEFAULT)))
    } else if str_eq(lows.as_str(), "global") {
        Some((String::from_str(SUMMARY_SYSTEM_GLOBAL), String::from_str(SUMMARY_USER_DEFAULT)))
    } else {
        None
    }
}

/// The format preset's templates under the locale priority.
pub fn format_prompt_strings(locales: &Vec<String>) -> (r: (String, String))
    ensures
        (r.0@, r.1@) == first_format_template(deep_str(locales@)),
{
    let mut i: usize = 0;
    proof {
        assert(deep_str(locales@).skip(0) =~= deep_str(locales@));
    }
    while i < locales.len()
        invariant
            i <= locales@.len(),
            first_format_template(deep_str(locales@)) == first_format_template(
                deep_str(locales@).skip(i as int),
            ),
        decreases locales@.len() - i,
    {
        let ghost rem = deep_str(locales@).skip(i as int);
        proof {
            assert(rem[0] == locales@[i as int]@);
            assert(rem.skip(1) =~= deep_str(locales@).skip(i + 1));
        }
        if let Some(p) = format_prompt_template_for_locale(locales[i].as_str()) {
            return p;
        }
        i = i + 1;
    }
    proof {
        assert(deep_str(locales@).skip(locales@.len() as int) =~= Seq::<Seq<char>>::empty());
    }
    (String::from_str(FORMAT_SYSTEM_GLOBAL), String::from_str(FORMAT_USER_GLOBAL))
}

/// The summary preset's templates under the locale priority.
pub fn summary_prompt_strings(locales: &Vec<String>) -> (r: (String, String))
    ensures
        (r.0@, r.1@) == first_summary_template(deep_str(locales@)),
{
    let mut i: usize = 0;
    proof {
        assert(deep_str(locales@).skip(0) =~= deep_str(locales@));
    }
    while i < locales.len()
        invariant
            i <= locales@.len(),
            first_summary_template(deep_str(locales@)) == first_summary_template(
                deep_str(locales@).skip(i as int),
            ),
        decreases locales@.len() - i,
    {
        let ghost rem = deep_str(locales@).skip(i as int);
        proof {
            assert(rem[0] == locales@[i as int]@);
            assert(rem.skip(1) =~= deep_str(locales@).skip(i + 1));
        }
        if let Some(p) = summary_prompt_template_for_locale(locales[i].as_str()) {
            return p;
        }
        i = i + 1;
    }
    proof {
        assert(deep_str(locales@).skip(locales@.len() as int) =~= Seq::<Seq<char>>::empty());
    }
    (String::from_str(SUMMARY_SYSTEM_GLOBAL), String::from_str(SUMMARY_USER_DEFAULT))
}

/// The resolved format prompt: the locale's templates with the transcript
/// filled into the user message.
pub fn format_prompt_for_locales(locales: &Vec<String>, transcript: &str) -> (r:
    PromptTemplateResolved)
    ensures
        r.system matches Some(s) && s@ == first_format_template(deep_str(locales@)).0,
        r.user@ == rendered(first_format_template(deep_str(locales@)).1, transcript@, Seq::empty()),
{
    let (system, user_t) = format_prompt_strings(locales);
    let (user, _) = render_with_placeholders(user_t.as_str(), transcript, "");
    proof {
        reveal_strlit("");
        assert(""@ =~= Seq::<char>::empty());
    }
    PromptTemplateResolved { system: Some(system), user }
}

/// The resolved summary prompt for the locale priority.
pub fn summary_prompt_for_locales(locales: &Vec<String>, transcript: &str) -> (r:
    PromptTemplateResolved)
    ensures
        r.system matches Some(s) && s@ == first_summary_template(deep_str(locales@)).0,
        r.user@ == rendered(
            first_summary_template(deep_str(locales@)).1,
            transcript@,
            Seq::empty(),
        ),
{
    let (system, user_t) = summary_prompt_strings(locales);
    let (user, _) = render_with_placeholders(user_t.as_str(), transcript, "");
    proof {
        reveal_strlit("");
        assert(""@ =~= Seq::<char>::empty());
    }
    PromptTemplateResolved { system: Some(system), user }
}

/// Preview of a built-in preset's prompt under the locale priority.
pub fn builtin_prompt_preview(mode_id: &str, locales: &Vec<String>) -> (r: Option<(
    String,
    String,
)>)
    ensures
        !spec_is_builtin(mode_id@) ==> r is None,
        spec_is_builtin(mode_id@) ==> (r matches Some(p) && (p.0@, p.1@) == (
        if mode_id@ == PRESET_ID_FORMAT@ {
            first_format_template(deep_str(locales@))
        } else {
            first_summary_template(deep_str(locales@))
        })),
{
    if !is_builtin_mode(mode_id) {
        return None;
    }
    if str_eq(mode_id, PRESET_ID_FORMAT) {
        Some(format_prompt_strings(locales))
    } else if str_eq(mode_id, PRESET_ID_SUMMARY) {
        Some(summary_prompt_strings(locales))
    } else {
        None
    }
}

/// The user message of a custom prompt whose template did not name the
/// transcript: the rendered text (or a bare heading) with the transcript
/// appended.
pub open spec fn appended_transcript(content: Seq<char>, transcript: Seq<char>) -> Seq<char> {
    if trim_seq(content).len() == 0 {
        content + "Transcript:\n"@ + transcript
    } else {
        content + "\n\nTranscript:\n"@ + transcript
    }
}

/// What a custom prompt resolves to.
pub open spec fn custom_resolved_spec(
    system_prompt: Seq<char>,
    user_prompt: Seq<char>,
    transcript: Seq<char>,
    dictionary: Seq<char>,
) -> (Option<Seq<char>>, Seq<char>) {
    let sys = if trim_seq(system_prompt).len() == 0 {
        None
    } else {
        Some(rendered(system_prompt, transcript, dictionary))
    };
    let ru = rendered(user_prompt, transcript, dictionary);
    let user = if contains_seq(user_prompt, PLACEHOLDER_TRANSCRIPT@) {
        ru
    } else {
        appended_transcript(ru, transcript)
    };
    (sys, user)
}

/// Resolve a custom prompt: placeholders are filled; a template without
/// the transcript placeholder gets the transcript appended under a
/// heading.
pub fn custom_prompt_to_resolved(
    system_prompt: &str,
    user_prompt: &str,
    transcript: &str,
    dictionary: &str,
) -> (r: PromptTemplateResolved)
    ensures
        ({
            let spec = custom_resolved_spec(system_prompt@, user_prompt@, transcript@,
                dictionary@);
            &&& (match r.system {
                Some(s) => spec.0 == Some(s@),
                None => spec.0 is None,
            })
            &&& r.user@ == spec.1
        }),
{
    let st = trim_string(system_prompt);
    let system = if st.as_str().is_empty() {
        None
    } else {
        let (rs, _) = render_with_placeholders(system_prompt, transcript, dictionary);
        Some(rs)
    };
    let (ru, had) = render_with_placeholders(user_prompt, transcript, dictionary);
    let user = if had {
        ru
    } else {
        let rt = trim_string(ru.as_str());
        let mut content = ru;
        if rt.as_str().is_empty() {
            content.append("Transcript:\n");
        } else {
            content.append("\n\nTranscript:\n");
        }
        content.append(transcript);
        content
    };
    PromptTemplateResolved { system, user }
}

/// One chat message of the request payload.
#[derive(Debug, Clone)]
pub struct ChatMessage {
    pub role: String,
    pub content: String,
}

/// The messages of a resolved prompt: the system message first when
/// present, then the user message.
pub fn prompt_to_messages(resolved: PromptTemplateResolved) -> (r: Vec<ChatMessage>)
    ensures
        match resolved.system {
            Some(s) => r@.len() == 2 && r@[0].role@ == "system"@ && r@[0].content@ == s@
                && r@[1].role@ == "user"@ && r@[1].content@ == resolved.user@,
            None => r@.len() == 1 && r@[0].role@ == "user"@ && r@[0].content@
                == resolved.user@,
        },
{
    let mut r: Vec<ChatMessage> = Vec::new();
    match resolved.system {
        Some(s) => {
            r.push(ChatMessage { role: String::from_str("system"), content: s });
        },
        None => {},
    }
    r.push(ChatMessage { role: String::from_str("user"), content: resolved.user });
    r
}

/// The transcript prepared for the request: trimmed, and cut to the
/// configured character budget (0 disables the cut). The flag reports
/// whether anything was cut.
pub open spec fn prepared_transcript(text: Seq<char>, max_chars: int) -> (Seq<char>, bool) {
    let t = trim_seq(text);
    if t.len() == 0 {
        (Seq::empty(), false)
    } else if max_chars == 0 {
        (t, false)
    } else if t.len() > max_chars {
        (t.take(max_chars), true)
    } else {
        (t, false)
    }
}

/// Trim and truncate the transcript to the configured budget.
pub fn prepare_transcript(text: &str, max_chars: usize) -> (r: (String, bool))
    ensures
        r.0@ == prepared_transcript(text@, max_chars as int).0,
        r.1 == prepared_transcript(text@, max_chars as int).1,
{
    let tv = chars_of(text);
    let t = trim_chars(&tv);
    if t.len() == 0 {
        proof {
            assert(trim_seq(text@) =~= Seq::<char>::empty());
        }
        return (String::new(), false);
    }
    if max_chars == 0 {
        return (string_from_chars(&t), false);
    }
    if t.len() > max_chars {
        let cut = crate::chars::prefix_chars(&t, max_chars);
        (string_from_chars(&cut), true)
    } else {
        (string_from_chars(&t), false)
    }
}

/// A preview of a response body for error messages: at most 300
/// characters, trimmed, with an ellipsis when cut.
pub open spec fn previewed(body: Seq<char>) -> Seq<char> {
    if body.len() > MAX_ERROR_BODY_PREVIEW {
        trim_seq(body.take(MAX_ERROR_BODY_PREVIEW as int)).push('\u{2026}')
    } else {
        trim_seq(body)
    }
}

pub fn preview_body(body: &str) -> (r: String)
    ensures
        r@ == previewed(body@),
{
    let bv = chars_of(body);
    if bv.len() > MAX_ERROR_BODY_PREVIEW {
        let cut = crate::chars::prefix_chars(&bv, MAX_ERROR_BODY_PREVIEW);
        let t = trim_chars(&cut);
        let mut out = string_from_chars(&t);
        crate::chars::push_char(&mut out, '\u{2026}');
        out
    } else {
        let t = trim_chars(&bv);
        string_from_chars(&t)
    }
}

/// A base URL and a path joined with exactly one slash.
pub open spec fn joined_url(base: Seq<char>, path: Seq<char>) -> Seq<char> {
    trim_back_matching(base, '/') + seq!['/'] + trim_front_matching(path, '/')
}

pub fn join_url(base: &str, path: &str) -> (r: String)
    ensures
        r@ == joined_url(base@, path@),
{
    let bv = chars_of(base);
    let b = trim_end_char(&bv, '/');
    let pv = chars_of(path);
    let p = trim_start_char(&pv, '/');
    let mut out = string_from_chars(&b);
    crate::chars::push_char(&mut out, '/');
    let ps = string_from_chars(&p);
    out.append(ps.as_str());
    proof {
        assert(out@ =~= joined_url(base@, path@));
    }
    out
}

/// Some stored custom mode carries this name.
pub open spec fn name_taken(ps: Seq<CustomPromptMode>, name: Seq<char>) -> bool {
    exists|i: int| 0 <= i < ps.len() && ps[i].name@ == name
}

/// The first numbered variant of the base name not yet taken, searched
/// within the given bound.
pub open spec fn free_name(ps: Seq<CustomPromptMode>, base: Seq<char>, counter: int, fuel: nat)
    -> Seq<char>
    decreases fuel,
{
    let cand = base + " ("@ + dec_str(counter) + ")"@;
    if fuel == 0 {
        cand
    } else if !name_taken(ps, cand) {
        cand
    } else {
        free_name(ps, base, counter + 1, (fuel - 1) as nat)
    }
}

/// The display name a new custom mode gets: the trimmed requested name
/// (or `Custom prompt` when blank), numbered when already taken.
pub open spec fn unique_name_of(ps: Seq<CustomPromptMode>, raw: Seq<char>) -> Seq<char> {
    let base = if trim_seq(raw).len() == 0 {
        "Custom prompt"@
    } else {
        trim_seq(raw)
    };
    if !name_taken(ps, base) {
        base
    } else {
        free_name(ps, base, 2, (if ps.len() < 1_000_000 {
            ps.len() + 1
        } else {
            1_000_001
        }) as nat)
    }
}

/// The custom modes without those carrying the given id.
pub open spec fn without_mode(ps: Seq<CustomPromptMode>, id: Seq<char>) -> Seq<CustomPromptMode>
    decreases ps.len(),
{
    if ps.len() == 0 {
        Seq::empty()
    } else {
        (if ps[0].id@ == id {
            Seq::empty()
        } else {
            seq![ps[0]]
        }) + without_mode(ps.skip(1), id)
    }
}

/// Whether any stored custom mode carries this name.
fn any_name_equals(ps: &Vec<CustomPromptMode>, cand: &Vec<char>) -> (r: bool)
    ensures
        r == name_taken(ps@, cand@),
{
    let mut i: usize = 0;
    while i < ps.len()
        invariant
            i <= ps@.len(),
            forall|k: int| 0 <= k < i ==> (#[trigger] ps@[k]).name@ != cand@,
        decreases ps@.len() - i,
    {
        let nv = chars_of(ps[i].name.as_str());
        if chars_equal(&nv, cand) {
            return true;
        }
        i = i + 1;
    }
    false
}

impl LlmPostProcessSettings {
    /// A display name not colliding with the stored custom modes.
    pub fn unique_custom_name(&self, raw_name: &str) -> (r: String)
        ensures
            r@ == unique_name_of(self.custom_prompts@, raw_name@),
    {
        let t = trim_string(raw_name);
        let base = if t.as_str().is_empty() {
            String::from_str("Custom prompt")
        } else {
            t
        };
        let bv = chars_of(base.as_str());
        if !any_name_equals(&self.custom_prompts, &bv) {
            return base;
        }
        let open_v = chars_of(" (");
        let close_v = chars_of(")");
        proof {
            reveal_strlit(" (");
            reveal_strlit(")");
        }
        let mut counter: u64 = 2;
        let mut fuel: usize = if self.custom_prompts.len() < 1_000_000 {
            self.custom_prompts.len() + 1
        } else {
            1_000_001
        };
        let ghost base_s = bv@;
        while fuel > 0
            invariant
                counter >= 2,
                counter + fuel <= 1_000_003,
                base_s == bv@,
                open_v@ == " ("@,
                close_v@ == ")"@,
                unique_name_of(self.custom_prompts@, raw_name@) == free_name(
                    self.custom_prompts@,
                    base_s,
                    counter as int,
                    fuel as nat,
                ),
            decreases fuel,
        {
            let num = u64_to_string(counter);
            let numv = chars_of(num.as_str());
            let mut cand: Vec<char> = crate::chars::copy_chars(&bv);
            let mut o = crate::chars::copy_chars(&open_v);
            cand.append(&mut o);
            let mut n = crate::chars::copy_chars(&numv);
            cand.append(&mut n);
            let mut c = crate::chars::copy_chars(&close_v);
            cand.append(&mut c);
            proof {
                assert(cand@ =~= base_s + " ("@ + dec_str(counter as int) + ")"@);
            }
            if !any_name_equals(&self.custom_prompts, &cand) {
                return string_from_chars(&cand);
            }
            counter = counter + 1;
            fuel = fuel - 1;
        }
        let num = u64_to_string(counter);
        let numv = chars_of(num.as_str());
        let mut cand: Vec<char> = crate::chars::copy_chars(&bv);
        let mut o = crate::chars::copy_chars(&open_v);
        cand.append(&mut o);
        let mut n = crate::chars::copy_chars(&numv);
        cand.append(&mut n);
        let mut c = crate::chars::copy_chars(&close_v);
        cand.append(&mut c);
        proof {
            assert(cand@ =~= base_s + " ("@ + dec_str(counter as int) + ")"@);
        }
        string_from_chars(&cand)
    }

    /// Switch to the draft custom mode, seeded from the format preset's
    /// templates under the locale priority.
    pub fn begin_custom_draft(&mut self, language_hint: Option<&str>)
        ensures
            final(self).mode_id@ == MODE_ID_CUSTOM_DRAFT@,
            final(self).custom_prompt_name@.len() == 0,
            ({
                let t = first_format_template(
                    old(self).locale_priority_spec(
                        match language_hint {
                            Some(h) => Some(h@),
                            None => None,
                        },
                    ),
                );
                final(self).custom_prompt_system@ == t.0 && final(self).custom_prompt@ == t.1
            }),
            final(self).custom_prompts@ == old(self).custom_prompts@,
            final(self).enabled == old(self).enabled,
            final(self).api_base_url@ == old(self).api_base_url@,
            final(self).model@ == old(self).model@,
            final(self).language_override == old(self).language_override,
            final(self).max_input_chars == old(self).max_input_chars,
            final(self).timeout_secs == old(self).timeout_secs,
            final(self).apply_to_autopaste == old(self).apply_to_autopaste,
    {
        self.mode_id = String::from_str(MODE_ID_CUSTOM_DRAFT);
        self.custom_prompt_name = String::new();
        let locales = self.locale_priority(language_hint);
        let (system, user) = format_prompt_strings(&locales);
        self.custom_prompt_system = system;
        self.custom_prompt = user;
    }

    /// Store a new custom mode under a fresh id and a non-colliding name;
    /// returns the new id. A blank system prompt is stored as none.
    pub fn create_custom_mode(&mut self, name: &str, system_prompt: &str, user_prompt: &str)
        -> (r: String)
        ensures
            final(self).custom_prompts@.len() == old(self).custom_prompts@.len() + 1,
            final(self).custom_prompts@.drop_last() =~= old(self).custom_prompts@,
            final(self).custom_prompts@.last().id@ == r@,
            final(self).custom_prompts@.last().name@ == unique_name_of(
                old(self).custom_prompts@,
                name@,
            ),
            trim_seq(system_prompt@).len() == 0
                ==> final(self).custom_prompts@.last().system_prompt is None,
            trim_seq(system_prompt@).len() > 0
                ==> (final(self).custom_prompts@.last().system_prompt matches Some(sp) && sp@
                    == system_prompt@),
            final(self).custom_prompts@.last().user_prompt@ == user_prompt@,
            final(self).mode_id@ == old(self).mode_id@,
    {
        let final_name = self.unique_custom_name(name);
        let mut existing: Vec<String> = Vec::new();
        let mut i: usize = 0;
        while i < self.custom_prompts.len()
            invariant
                i <= self.custom_prompts@.len(),
                existing@.len() == i,
            decreases self.custom_prompts@.len() - i,
        {
            existing.push(self.custom_prompts[i].id.clone());
            i = i + 1;
        }
        existing.push(String::from_str(PRESET_ID_FORMAT));
        existing.push(String::from_str(PRESET_ID_SUMMARY));
        existing.push(String::from_str(MODE_ID_CUSTOM_DRAFT));
        let id = generate_custom_mode_id(&existing, final_name.as_str());
        let st = trim_string(system_prompt);
        let system = if st.as_str().is_empty() {
            None
        } else {
            Some(String::from_str(system_prompt))
        };
        let mode = CustomPromptMode {
            id: id.clone(),
            name: final_name,
            system_prompt: system,
            user_prompt: String::from_str(user_prompt),
        };
        self.custom_prompts.push(mode);
        id
    }

    /// Update a stored custom mode in place; an unknown id is an error.
    pub fn update_custom_mode(
        &mut self,
        id: &str,
        name: &str,
        system_prompt: &str,
        user_prompt: &str,
    ) -> (r: Result<(), ()>)
        ensures
            (r is Ok) == (mode_index(old(self).custom_prompts@, id@) >= 0),
            r is Err ==> *final(self) == *old(self),
            r is Ok ==> ({
                let idx = mode_index(old(self).custom_prompts@, id@);
                &&& final(self).custom_prompts@.len() == old(self).custom_prompts@.len()
                &&& forall|k: int| 0 <= k < old(self).custom_prompts@.len() && k != idx
                    ==> final(self).custom_prompts@[k] == old(self).custom_prompts@[k]
                &&& final(self).custom_prompts@[idx].id@ == old(self).custom_prompts@[idx].id@
                &&& final(self).custom_prompts@[idx].name@ == name@
                &&& (trim_seq(system_prompt@).len() == 0
                    ==> final(self).custom_prompts@[idx].system_prompt is None)
                &&& (trim_seq(system_prompt@).len() > 0
                    ==> (final(self).custom_prompts@[idx].system_prompt matches Some(sp) && sp@
                        == system_prompt@))
                &&& final(self).custom_prompts@[idx].user_prompt@ == user_prompt@
                &&& final(self).mode_id@ == old(self).mode_id@
            }),
    {
        match find_mode(&self.custom_prompts, id) {
            Some(idx) => {
                let old_mode = self.custom_prompts.remove(idx);
                let st = trim_string(system_prompt);
                let system = if st.as_str().is_empty() {
                    None
                } else {
                    Some(String::from_str(system_prompt))
                };
                let updated = CustomPromptMode {
                    id: old_mode.id,
                    name: String::from_str(name),
                    system_prompt: system,
                    user_prompt: String::from_str(user_prompt),
                };
                self.custom_prompts.insert(idx, updated);
                proof {
                    assert(final(self).custom_prompts@ =~= old(
                        self,
                    ).custom_prompts@.update(idx as int, final(self).custom_prompts@[idx as int]));
                }
                Ok(())
            },
            None => Err(()),
        }
    }

    /// Remove the custom modes carrying this id; when the removed mode was
    /// selected, the selection falls back to the format preset. Returns
    /// whether anything was removed.
    pub fn remove_custom_mode(&mut self, id: &str) -> (r: bool)
        ensures
            final(self).custom_prompts@ == without_mode(old(self).custom_prompts@, id@),
            r == (final(self).custom_prompts@.len() != old(self).custom_prompts@.len()),
            r && old(self).mode_id@ == id@ ==> final(self).mode_id@ == PRESET_ID_FORMAT@,
            r && old(self).mode_id@ != id@ ==> final(self).mode_id@ == old(self).mode_id@,
            !r ==> *final(self) == *old(self),
    {
        let before = self.custom_prompts.len();
        let mut kept: Vec<CustomPromptMode> = Vec::new();
        let mut i: usize = 0;
        proof {
            assert(self.custom_prompts@.skip(0) =~= self.custom_prompts@);
            assert(Seq::<CustomPromptMode>::empty() + without_mode(self.custom_prompts@, id@)
                =~= without_mode(self.custom_prompts@, id@));
        }
        while i < self.custom_prompts.len()
            invariant
                i <= self.custom_prompts@.len(),
                kept@.len() <= i,
                without_mode(self.custom_prompts@, id@) == kept@ + without_mode(
                    self.custom_prompts@.skip(i as int),
                    id@,
                ),
            decreases self.custom_prompts@.len() - i,
        {
            let ghost rem = self.custom_prompts@.skip(i as int);
            proof {
                assert(rem[0] == self.custom_prompts@[i as int]);
                assert(rem.skip(1) =~= self.custom_prompts@.skip(i + 1));
            }
            let ghost kept0 = kept@;
            if !str_eq(self.custom_prompts[i].id.as_str(), id) {
                let m = &self.custom_prompts[i];
                kept.push(
                    CustomPromptMode {
                        id: m.id.clone(),
                        name: m.name.clone(),
                        system_prompt: match &m.system_prompt {
                            Some(s) => Some(s.clone()),
                            None => None,
                        },
                        user_prompt: m.user_prompt.clone(),
                    },
                );
                proof {
                    assert(kept@.last() == self.custom_prompts@[i as int]);
                    assert(kept@ =~= kept0.push(self.custom_prompts@[i as int]));
                    assert(kept0 + (seq![rem[0]] + without_mode(rem.skip(1), id@)) =~= kept@
                        + without_mode(rem.skip(1), id@));
                }
            } else {
                proof {
                    assert(kept0 + (Seq::<CustomPromptMode>::empty() + without_mode(
                        rem.skip(1),
                        id@,
                    )) =~= kept@ + without_mode(rem.skip(1), id@));
                }
            }
            i = i + 1;
        }
        proof {
            assert(self.custom_prompts@.skip(self.custom_prompts@.len() as int)
                =~= Seq::<CustomPromptMode>::empty());
            assert(kept@ + Seq::<CustomPromptMode>::empty() =~= kept@);
        }
        let removed = kept.len() != before;
        let same_mode = str_eq(self.mode_id.as_str(), id);
        if removed {
            self.custom_prompts = kept;
            if same_mode {
                self.mode_id = default_mode_id();
            }
            true
        } else {
            proof {
                lemma_without_mode_same(self.custom_prompts@, kept@, id@);
            }
            false
        }
    }
}

proof fn lemma_without_mode_same(orig: Seq<CustomPromptMode>, kept: Seq<CustomPromptMode>, id: Seq<
    char,
>)
    requires
        kept == without_mode(orig, id),
        kept.len() == orig.len(),
    ensures
        kept == orig,
    decreases orig.len(),
{
    lemma_without_mode_len(orig, id);
    if orig.len() > 0 {
        if orig[0].id@ == id {
            lemma_without_mode_len(orig.skip(1), id);
        } else {
            lemma_without_mode_same(orig.skip(1), without_mode(orig.skip(1), id), id);
            assert(kept =~= orig);
        }
    } else {
        assert(kept =~= orig);
    }
}

proof fn lemma_without_mode_len(ps: Seq<CustomPromptMode>, id: Seq<char>)
    ensures
        without_mode(ps, id).len() <= ps.len(),
    decreases ps.len(),
{
    if ps.len() > 0 {
        lemma_without_mode_len(ps.skip(1), id);
    }
}

/// What the prompt resolves to for these settings: a built-in preset under
/// the locale priority with the dictionary injected, the draft prompt, a
/// stored custom mode, or the draft fields as fallback.
pub open spec fn resolve_prompt_spec(
    s: LlmPostProcessSettings,
    transcript: Seq<char>,
    dictionary: Seq<char>,
    hint: Option<Seq<char>>,
) -> (Option<Seq<char>>, Seq<char>) {
    let m0 = trim_seq(s.mode_id@);
    let m = if m0.len() == 0 {
        PRESET_ID_FORMAT@
    } else {
        m0
    };
    if spec_is_builtin(m) {
        let locs = s.locale_priority_spec(hint);
        let t = if m == PRESET_ID_FORMAT@ {
            first_format_template(locs)
        } else {
            first_summary_template(locs)
        };
        (
            Some(injected(t.0, dictionary)),
            injected(rendered(t.1, transcript, Seq::empty()), dictionary),
        )
    } else if m == MODE_ID_CUSTOM_DRAFT@ {
        custom_resolved_spec(s.custom_prompt_system@, s.custom_prompt@, transcript, dictionary)
    } else if mode_index(s.custom_prompts@, m) >= 0 {
        let cm = s.custom_prompts@[mode_index(s.custom_prompts@, m)];
        custom_resolved_spec(
            match cm.system_prompt {
                Some(sp) => sp@,
                None => Seq::empty(),
            },
            cm.user_prompt@,
            transcript,
            dictionary,
        )
    } else {
        custom_resolved_spec(s.custom_prompt_system@, s.custom_prompt@, transcript, dictionary)
    }
}

/// Resolve a built-in preset's prompt, with the dictionary injected.
pub fn resolve_builtin_prompt(
    mode_id: &str,
    settings: &LlmPostProcessSettings,
    transcript: &str,
    dictionary: &str,
    language_hint: Option<&str>,
) -> (r: Option<PromptTemplateResolved>)
    ensures
        !spec_is_builtin(mode_id@) ==> r is None,
        spec_is_builtin(mode_id@) ==> (r matches Some(p) && {
            let locs = settings.locale_priority_spec(
                match language_hint {
                    Some(h) => Some(h@),
                    None => None,
                },
            );
            let t = if mode_id@ == PRESET_ID_FORMAT@ {
                first_format_template(locs)
            } else {
                first_summary_template(locs)
            };
            &&& (p.system matches Some(ps) && ps@ == injected(t.0, dictionary@))
            &&& p.user@ == injected(rendered(t.1, transcript@, Seq::empty()), dictionary@)
        }),
{
    if !is_builtin_mode(mode_id) {
        return None;
    }
    let locales = settings.locale_priority(language_hint);
    let resolved = if str_eq(mode_id, PRESET_ID_FORMAT) {
        format_prompt_for_locales(&locales, transcript)
    } else {
        summary_prompt_for_locales(&locales, transcript)
    };
    Some(resolved.apply_dictionary(dictionary))
}

/// Resolve the prompt for the selected mode.
pub fn resolve_prompt(
    settings: &LlmPostProcessSettings,
    transcript: &str,
    dictionary: &str,
    language_hint: Option<&str>,
) -> (r: PromptTemplateResolved)
    ensures
        ({
            let spec = resolve_prompt_spec(*settings, transcript@, dictionary@,
                match language_hint {
                    Some(h) => Some(h@),
                    None => None,
                });
            &&& (match r.system {
                Some(s) => spec.0 == Some(s@),
                None => spec.0 is None,
            })
            &&& r.user@ == spec.1
        }),
{
    let trimmed = trim_string(settings.mode_id.as_str());
    let mode_id = if trimmed.as_str().is_empty() {
        String::from_str(PRESET_ID_FORMAT)
    } else {
        trimmed
    };
    if let Some(resolved) = resolve_builtin_prompt(
        mode_id.as_str(),
        settings,
        transcript,
        dictionary,
        language_hint,
    ) {
        return resolved;
    }
    if str_eq(mode_id.as_str(), MODE_ID_CUSTOM_DRAFT) {
        return custom_prompt_to_resolved(
            settings.custom_prompt_system.as_str(),
            settings.custom_prompt.as_str(),
            transcript,
            dictionary,
        );
    }
    match find_mode(&settings.custom_prompts, mode_id.as_str()) {
        Some(i) => {
            let custom = &settings.custom_prompts[i];
            let sys: &str = match &custom.system_prompt {
                Some(s) => s.as_str(),
                None => "",
            };
            proof {
                reveal_strlit("");
                assert(""@ =~= Seq::<char>::empty());
            }
            custom_prompt_to_resolved(sys, custom.user_prompt.as_str(), transcript, dictionary)
        },
        None => custom_prompt_to_resolved(
            settings.custom_prompt_system.as_str(),
            settings.custom_prompt.as_str(),
            transcript,
            dictionary,
        ),
    }
}

/// A chat request shaped and ready for the transport: the effective
/// model, the resolved messages, the sampling temperature in thousandths,
/// the token cap, and whether the transcript was truncated to fit.
#[derive(Debug, Clone)]
pub struct PreparedChat {
    pub model: String,
    pub messages: Vec<ChatMessage>,
    pub temperature_milli: u32,
    pub max_tokens: Option<u32>,
    pub truncated_input: bool,
}

/// Successful response of the post-processing step.
#[derive(Debug, Clone)]
pub struct PostProcessOutcome {
    pub content: String,
    pub truncated_input: bool,
    pub latency_ms: u128,
}

/// Error information of a failed LLM request.
#[derive(Debug, Clone)]
pub struct LlmRequestError {
    pub message: String,
    pub status: Option<u16>,
    pub retry_after_secs: Option<u64>,
}

/// Result of a connection test against the configured endpoint.
#[derive(Debug, Clone)]
pub struct ConnectionTestOutcome {
    pub status: Option<u16>,
    pub duration_ms: u128,
    pub message: String,
}

/// A chat-capable model, as reported by the endpoint.
#[derive(Debug, Clone)]
pub struct LlmModelInfo {
    pub id: String,
    pub label: String,
}

/// One entry of the endpoint's model list, as the surrounding glue hands
/// it over after deserializing the response.
#[derive(Debug, Clone)]
pub struct ModelItem {
    pub id: String,
    pub owned_by: Option<String>,
    pub hidden: Option<bool>,
    pub format: Option<String>,
    pub parameter_size: Option<String>,
}

/// Whether a listed model is offered for chat: it has an id, is not
/// hidden, and its format does not mark it as an embedding model.
pub open spec fn model_item_accepted(item: ModelItem) -> bool {
    &&& trim_seq(item.id@).len() > 0
    &&& item.hidden != Some(true)
    &&& match item.format {
        Some(f) => !contains_seq(ascii_lower(f@), "embed"@),
        None => true,
    }
}

/// The display label of an accepted model: its id, with the owner in
/// parentheses and the parameter size in brackets when present.
pub open spec fn model_label_of(item: ModelItem) -> Seq<char> {
    let with_owner = match item.owned_by {
        Some(o) => if o@.len() > 0 {
            item.id@ + " ("@ + o@ + ")"@
        } else {
            item.id@
        },
        None => item.id@,
    };
    match item.parameter_size {
        Some(sz) => if sz@.len() > 0 {
            with_owner + " ["@ + sz@ + "]"@
        } else {
            with_owner
        },
        None => with_owner,
    }
}

/// Turn one listed model into its selectable form, dropping hidden and
/// embedding-only models.
pub fn map_model_item(item: &ModelItem) -> (r: Option<LlmModelInfo>)
    ensures
        (r is Some) == model_item_accepted(*item),
        r matches Some(m) ==> (m.id@ == item.id@ && m.label@ == model_label_of(*item)),
{
    let t = trim_string(item.id.as_str());
    if t.as_str().is_empty() {
        return None;
    }
    if let Some(h) = item.hidden {
        if h {
            return None;
        }
    }
    if let Some(f) = &item.format {
        let fv = chars_of(f.as_str());
        let low = to_ascii_lower(&fv);
        let needle = chars_of("embed");
        proof {
            reveal_strlit("embed");
        }
        if contains_chars(&low, &needle) {
            return None;
        }
    }
    let mut label = chars_of(item.id.as_str());
    proof {
        reveal_strlit(" (");
        reveal_strlit(")");
        reveal_strlit(" [");
        reveal_strlit("]");
    }
    if let Some(o) = &item.owned_by {
        if !o.as_str().is_empty() {
            let mut open_p = chars_of(" (");
            label.append(&mut open_p);
            let mut owner = chars_of(o.as_str());
            label.append(&mut owner);
            let mut close_p = chars_of(")");
            label.append(&mut close_p);
        }
    }
    let ghost with_owner = label@;
    proof {
        assert(with_owner == (match item.owned_by {
            Some(o) => if o@.len() > 0 {
                item.id@ + " ("@ + o@ + ")"@
            } else {
                item.id@
            },
            None => item.id@,
        }));
    }
    if let Some(sz) = &item.parameter_size {
        if !sz.as_str().is_empty() {
            let mut open_b = chars_of(" [");
            label.append(&mut open_b);
            let mut size = chars_of(sz.as_str());
            label.append(&mut size);
            let mut close_b = chars_of("]");
            label.append(&mut close_b);
        }
    }
    proof {
        assert(label@ == model_label_of(*item));
    }
    Some(LlmModelInfo { id: item.id.clone(), label: string_from_chars(&label) })
}

/// Retry/backoff bookkeeping for the post-processing calls: after three
/// consecutive failures, requests pause for sixty seconds.
#[derive(Debug)]
pub struct LlmPostProcessor {
    /// Failures since the last success.
    pub consecutive_failures: u32,
    /// When requests may resume (ms on the caller's clock), if paused.
    pub next_retry_at_ms: Option<u64>,
}

impl LlmPostProcessor {
    /// Fresh bookkeeping: no failures, no pause.
    pub fn new() -> (r: Self)
        ensures
            r.consecutive_failures == 0,
            r.next_retry_at_ms is None,
    {
        LlmPostProcessor { consecutive_failures: 0, next_retry_at_ms: None }
    }

    /// Seconds still to wait when the backoff is active at `now_ms`.
    pub open spec fn backoff_wait(&self, now_ms: u64) -> Option<u64> {
        match self.next_retry_at_ms {
            Some(next) => if next > now_ms {
                if (next - now_ms) / 1000 >= 1 {
                    Some((((next - now_ms) / 1000) as u64))
                } else {
                    Some(1u64)
                }
            } else {
                None
            },
            None => None,
        }
    }

    /// The remaining wait when the backoff is active; a pause that has
    /// passed is cleared.
    pub fn check_backoff(&mut self, now_ms: u64) -> (r: Option<u64>)
        ensures
            r == old(self).backoff_wait(now_ms),
            final(self).consecutive_failures == old(self).consecutive_failures,
            r is Some ==> *final(self) == *old(self),
            r is None ==> final(self).next_retry_at_ms is None,
    {
        match self.next_retry_at_ms {
            Some(next) => {
                if next > now_ms {
                    let remaining_secs: u64 = (next - now_ms) / 1000;
                    if remaining_secs >= 1 {
                        Some(remaining_secs)
                    } else {
                        Some(1)
                    }
                } else {
                    self.next_retry_at_ms = None;
                    None
                }
            },
            None => None,
        }
    }

    /// Count one failure; the third in a row arms a sixty-second pause and
    /// returns its length.
    pub fn register_failure(&mut self, now_ms: u64) -> (r: Option<u64>)
        requires
            now_ms <= u64::MAX - 60_000,
        ensures
            old(self).consecutive_failures + 1 >= BACKOFF_FAILURES ==> (r == Some(BACKOFF_SECS)
                && final(self).consecutive_failures == 0 && final(self).next_retry_at_ms
                == Some((now_ms + 60_000) as u64)),
            old(self).consecutive_failures + 1 < BACKOFF_FAILURES ==> (r is None
                && final(self).consecutive_failures == old(self).consecutive_failures + 1
                && final(self).next_retry_at_ms == old(self).next_retry_at_ms),
    {
        if self.consecutive_failures >= BACKOFF_FAILURES - 1 {
            self.consecutive_failures = 0;
            self.next_retry_at_ms = Some(now_ms + 60_000);
            Some(BACKOFF_SECS)
        } else {
            self.consecutive_failures = self.consecutive_failures + 1;
            None
        }
    }

    /// A success clears the failure count and any pause.
    pub fn note_success(&mut self)
        ensures
            final(self).consecutive_failures == 0,
            final(self).next_retry_at_ms is None,
    {
        self.consecutive_failures = 0;
        self.next_retry_at_ms = None;
    }

    /// Shape the chat request for one transcript, or refuse it: disabled
    /// settings, an active backoff, and a transcript that is empty after
    /// trimming each yield the corresponding error and no request.
    pub fn prepare_request(
        &mut self,
        settings: &LlmPostProcessSettings,
        transcript: &str,
        dictionary_hint: Option<&str>,
        language_hint: Option<&str>,
        now_ms: u64,
    ) -> (r: Result<PreparedChat, LlmRequestError>)
        ensures
            !settings.enabled ==> r is Err,
            settings.enabled && old(self).backoff_wait(now_ms) is Some ==> (r matches Err(e)
                && e.retry_after_secs == old(self).backoff_wait(now_ms)),
            settings.enabled && old(self).backoff_wait(now_ms) is None && trim_seq(
                transcript@,
            ).len() == 0 ==> r is Err,
            settings.enabled && old(self).backoff_wait(now_ms) is None && trim_seq(
                transcript@,
            ).len() > 0 ==> (r matches Ok(p) && {
                let prepared = prepared_transcript(trim_seq(transcript@),
                    settings.max_input_chars as int);
                let spec = resolve_prompt_spec(*settings, prepared.0,
                    match dictionary_hint {
                        Some(d) => d@,
                        None => Seq::empty(),
                    },
                    match language_hint {
                        Some(h) => Some(h@),
                        None => None,
                    });
                &&& p.model@ == (if trim_seq(settings.model@).len() == 0 {
                    DEFAULT_LOCAL_MODEL@
                } else {
                    trim_seq(settings.model@)
                })
                &&& p.truncated_input == prepared.1
                &&& p.temperature_milli == 200
                &&& p.max_tokens == Some(1024u32)
                &&& (match spec.0 {
                    Some(sv) => p.messages@.len() == 2 && p.messages@[0].role@ == "system"@
                        && p.messages@[0].content@ == sv && p.messages@[1].role@ == "user"@
                        && p.messages@[1].content@ == spec.1,
                    None => p.messages@.len() == 1 && p.messages@[0].role@ == "user"@
                        && p.messages@[0].content@ == spec.1,
                })
            }),
    {
        if !settings.enabled {
            return Err(
                LlmRequestError {
                    message: String::from_str("LLM post-processing is disabled"),
                    status: None,
                    retry_after_secs: None,
                },
            );
        }
        if let Some(wait) = self.check_backoff(now_ms) {
            return Err(
                LlmRequestError {
                    message: String::from_str("Backoff active."),
                    status: None,
                    retry_after_secs: Some(wait),
                },
            );
        }
        let trimmed = trim_string(transcript);
        if trimmed.as_str().is_empty() {
            return Err(
                LlmRequestError {
                    message: String::from_str("Transcript is empty"),
                    status: None,
                    retry_after_secs: None,
                },
            );
        }
        let (prepared, truncated) = prepare_transcript(
            trimmed.as_str(),
            settings.max_input_chars,
        );
        let dictionary: &str = match dictionary_hint {
            Some(d) => d,
            None => "",
        };
        proof {
            reveal_strlit("");
            assert(""@ =~= Seq::<char>::empty());
        }
        let resolved = resolve_prompt(settings, prepared.as_str(), dictionary, language_hint);
        let messages = prompt_to_messages(resolved);
        Ok(
            PreparedChat {
                model: settings.effective_model(),
                messages,
                temperature_milli: 200,
                max_tokens: Some(1024),
                truncated_input: truncated,
            },
        )
    }
}

proof fn lemma_replace_pat_len(h: Seq<char>, p: Seq<char>, rep: Seq<char>)
    requires
        p.len() >= 1,
        rep.len() < p.len(),
    ensures
        replace_pat(h, p, rep).len() <= h.len(),
        contains_seq(h, p) ==> replace_pat(h, p, rep).len() < h.len(),
    decreases h.len(),
{
    if h.len() < p.len() {
        assert(!contains_seq(h, p)) by {
            assert forall|i: int| !crate::chars::occurs_at(h, p, i) by {}
        }
    } else if h.take(p.len() as int) == p {
        lemma_replace_pat_len(h.skip(p.len() as int), p, rep);
    } else {
        lemma_replace_pat_len(h.skip(1), p, rep);
        if contains_seq(h, p) {
            let i = choose|i: int| crate::chars::occurs_at(h, p, i);
            assert(i != 0) by {
                assert(h.subrange(0, p.len() as int) =~= h.take(p.len() as int));
            }
            assert(crate::chars::occurs_at(h.skip(1), p, i - 1)) by {
                assert(h.skip(1).subrange(i - 1, i - 1 + p.len()) =~= h.subrange(
                    i,
                    i + p.len(),
                ));
            }
        }
    }
}

/// Runs of dashes collapsed to single dashes, repeating until none remain.
pub open spec fn collapse_dashes(s: Seq<char>) -> Seq<char>
    decreases s.len(),
    via collapse_dashes_decreases
{
    if contains_seq(s, "--"@) {
        collapse_dashes(replace_pat(s, "--"@, "-"@))
    } else {
        s
    }
}

#[via_fn]
proof fn collapse_dashes_decreases(s: Seq<char>) {
    reveal_strlit("--");
    reveal_strlit("-");
    if contains_seq(s, "--"@) {
        lemma_replace_pat_len(s, "--"@, "-"@);
    }
}

/// An ASCII letter or digit.
pub open spec fn is_ascii_alnum(c: char) -> bool {
    let u = c as u32;
    (0x30 <= u && u <= 0x39) || (0x41 <= u && u <= 0x5a) || (0x61 <= u && u <= 0x7a)
}

/// The raw slug of a name: letters and digits lowered, everything else a
/// dash.
pub open spec fn slug_map(s: Seq<char>) -> Seq<char> {
    s.map_values(
        |c: char|
            if is_ascii_alnum(c) {
                crate::chars::ascii_lower_char(c)
            } else {
                '-'
            },
    )
}

/// The slug a custom mode id is built from: the trimmed name mapped to
/// lowercase letters, digits and dashes, dash runs collapsed, and dashes
/// stripped from the ends; a name with nothing left becomes `custom-mode`.
pub open spec fn slug_of(name: Seq<char>) -> Seq<char> {
    let s0 = slug_map(trim_seq(name));
    if trim_front_matching(trim_back_matching(s0, '-'), '-').len() == 0 {
        "custom-mode"@
    } else {
        let s2 = trim_front_matching(trim_back_matching(collapse_dashes(s0), '-'), '-');
        if s2.len() == 0 {
            "custom-mode"@
        } else {
            s2
        }
    }
}

/// Some id of the list equals the candidate.
pub open spec fn id_taken(ids: Seq<Seq<char>>, c: Seq<char>) -> bool {
    exists|i: int| 0 <= i < ids.len() && ids[i] == c
}

/// The first numbered candidate not yet taken, searched within the given
/// bound (one more candidate than there are taken ids, so a free one is
/// always within reach).
pub open spec fn free_id(ids: Seq<Seq<char>>, slug: Seq<char>, counter: int, fuel: nat) -> Seq<
    char,
>
    decreases fuel,
{
    let cand = "custom:"@ + slug + seq!['-'] + dec_str(counter);
    if fuel == 0 {
        cand
    } else if !id_taken(ids, cand) {
        cand
    } else {
        free_id(ids, slug, counter + 1, (fuel - 1) as nat)
    }
}

/// The generated id for a new custom mode: `custom:` plus the slug, with
/// a numeric suffix when that id is taken.
pub open spec fn gen_mode_id(ids: Seq<Seq<char>>, name: Seq<char>) -> Seq<char> {
    let slug = slug_of(name);
    let c0 = "custom:"@ + slug;
    if !id_taken(ids, c0) {
        c0
    } else {
        free_id(ids, slug, 2, (if ids.len() < 1_000_000 {
            ids.len() + 1
        } else {
            1_000_001
        }) as nat)
    }
}

/// Whether any of the ids equals this candidate.
fn any_id_equals(ids: &Vec<String>, cand: &Vec<char>) -> (r: bool)
    ensures
        r == id_taken(deep_str(ids@), cand@),
{
    let mut i: usize = 0;
    while i < ids.len()
        invariant
            i <= ids@.len(),
            forall|k: int| 0 <= k < i ==> deep_str(ids@)[k] != cand@,
        decreases ids@.len() - i,
    {
        let iv = chars_of(ids[i].as_str());
        if chars_equal(&iv, cand) {
            proof {
                assert(deep_str(ids@)[i as int] == cand@);
            }
            return true;
        }
        proof {
            assert(deep_str(ids@)[i as int] == ids@[i as int]@);
        }
        i = i + 1;
    }
    false
}

/// Generate a fresh custom mode id not among the existing ids: a slug of
/// the name under the `custom:` prefix, numbered when already taken.
pub fn generate_custom_mode_id(existing: &Vec<String>, name: &str) -> (r: String)
    ensures
        r@ == gen_mode_id(deep_str(existing@), name@),
{
    let nv = chars_of(name);
    let t = trim_chars(&nv);
    // map to lowercase letters, digits and dashes
    let mut s0: Vec<char> = Vec::new();
    let mut i: usize = 0;
    while i < t.len()
        invariant
            i <= t@.len(),
            s0@.len() == i,
            forall|k: int| 0 <= k < i ==> s0@[k] == (if is_ascii_alnum(t@[k]) {
                crate::chars::ascii_lower_char(t@[k])
            } else {
                '-'
            }),
        decreases t@.len() - i,
    {
        let c = t[i];
        let u = c as u32;
        if (0x30 <= u && u <= 0x39) || (0x61 <= u && u <= 0x7a) {
            s0.push(c);
        } else if 0x41 <= u && u <= 0x5a {
            let low: u8 = (u as u8) + 0x20;
            s0.push(low as char);
        } else {
            s0.push('-');
        }
        i = i + 1;
    }
    proof {
        assert(s0@ =~= slug_map(trim_seq(name@)));
    }
    // collapse dash runs and strip dashes from the ends
    let bare = trim_start_char(&trim_end_char(&s0, '-'), '-');
    let slug: Vec<char>;
    if bare.len() == 0 {
        slug = chars_of("custom-mode");
        proof {
            reveal_strlit("custom-mode");
        }
    } else {
        let mut cur = s0;
        let dd = chars_of("--");
        let d = chars_of("-");
        proof {
            reveal_strlit("--");
            reveal_strlit("-");
        }
        while contains_chars(&cur, &dd)
            invariant
                dd@ == "--"@,
                d@ == "-"@,
                collapse_dashes(cur@) == collapse_dashes(slug_map(trim_seq(name@))),
            decreases cur@.len(),
        {
            proof {
                lemma_replace_pat_len(cur@, "--"@, "-"@);
            }
            cur = replace_all(&cur, &dd, &d);
        }
        let s2 = trim_start_char(&trim_end_char(&cur, '-'), '-');
        if s2.len() == 0 {
            slug = chars_of("custom-mode");
            proof {
                reveal_strlit("custom-mode");
            }
        } else {
            slug = s2;
        }
    }
    proof {
        assert(slug@ == slug_of(name@));
    }
    // first try the bare candidate, then numbered ones
    let prefix = chars_of("custom:");
    proof {
        reveal_strlit("custom:");
    }
    let mut cand: Vec<char> = Vec::new();
    let mut p0 = crate::chars::copy_chars(&prefix);
    cand.append(&mut p0);
    let mut sl0 = crate::chars::copy_chars(&slug);
    cand.append(&mut sl0);
    proof {
        assert(cand@ =~= "custom:"@ + slug_of(name@));
    }
    if !any_id_equals(existing, &cand) {
        return string_from_chars(&cand);
    }
    let mut counter: u64 = 2;
    let mut fuel: usize = if existing.len() < 1_000_000 {
        existing.len() + 1
    } else {
        1_000_001
    };
    let ghost ids = deep_str(existing@);
    while fuel > 0
        invariant
            counter >= 2,
            counter + fuel <= 1_000_003,
            gen_mode_id(ids, name@) == free_id(ids, slug_of(name@), counter as int, fuel as nat),
            ids == deep_str(existing@),
            slug@ == slug_of(name@),
            prefix@ == "custom:"@,
            id_taken(ids, "custom:"@ + slug_of(name@)),
        decreases fuel,
    {
        let num = u64_to_string(counter);
        let numv = chars_of(num.as_str());
        let mut c2: Vec<char> = Vec::new();
        let mut pp = crate::chars::copy_chars(&prefix);
        c2.append(&mut pp);
        let mut ss = crate::chars::copy_chars(&slug);
        c2.append(&mut ss);
        c2.push('-');
        let mut nn = crate::chars::copy_chars(&numv);
        c2.append(&mut nn);
        proof {
            assert(c2@ =~= "custom:"@ + slug_of(name@) + seq!['-'] + dec_str(counter as int));
        }
        if !any_id_equals(existing, &c2) {
            return string_from_chars(&c2);
        }
        counter = counter + 1;
        fuel = fuel - 1;
    }
    // the bound is one more than the taken ids, so this point would need
    // every numbered candidate taken; hand back the last candidate
    let num = u64_to_string(counter);
    let numv = chars_of(num.as_str());
    let mut c2: Vec<char> = Vec::new();
    let mut pp = crate::chars::copy_chars(&prefix);
    c2.append(&mut pp);
    let mut ss = crate::chars::copy_chars(&slug);
    c2.append(&mut ss);
    c2.push('-');
    let mut nn = crate::chars::copy_chars(&numv);
    c2.append(&mut nn);
    proof {
        assert(c2@ =~= "custom:"@ + slug_of(name@) + seq!['-'] + dec_str(counter as int));
    }
    string_from_chars(&c2)
}

/// A successful response's content, tidied: the trimmed text, or the
/// original when trimming would leave nothing.
pub open spec fn polished(content: Seq<char>) -> Seq<char> {
    if trim_seq(content).len() == 0 {
        content
    } else {
        trim_seq(content)
    }
}

/// Tidy a successful response's content.
pub fn polish_content(content: String) -> (r: String)
    ensures
        r@ == polished(content@),
{
    let t = trim_string(content.as_str());
    if t.as_str().is_empty() {
        content
    } else {
        t
    }
}

} // verus!
