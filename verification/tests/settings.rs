use hootvoice::dictionary::{dictionary_prompt_text, DictionaryEntry};
use hootvoice::history::{build_settings_snapshot, mode_label, push_history_entry,
    LlmHistoryEntry, LlmHistorySettingsSnapshot, MAX_HISTORY_ENTRIES};
use hootvoice::i18n::normalize_locale_tag;
use hootvoice::llm::{builtin_prompt_preview, join_url, map_model_item, normalize_locale_code,
    preview_body, prepare_transcript, resolve_prompt, LlmPostProcessSettings, LlmPostProcessor, ModelItem,
    FORMAT_SYSTEM_EN, FORMAT_SYSTEM_GLOBAL, MODE_ID_CUSTOM_DRAFT, PRESET_ID_FORMAT,
    PRESET_ID_SUMMARY, SUMMARY_SYSTEM_EN};
use hootvoice::output::{BehaviorOptions, OutputBehavior};
use hootvoice::params::{decode_thread_count, WhisperOptimizationParams};
use hootvoice::postprocess::PostProcessEngine;

#[test]
fn effective_url_and_model_fall_back_to_defaults() {
    let mut s = LlmPostProcessSettings::default();
    assert_eq!(s.effective_base_url(), "http://localhost:11434/v1");
    assert_eq!(s.effective_model(), "llama3.1:8b");
    s.api_base_url = "  https://example.test/v1  ".to_string();
    s.model = " my-model ".to_string();
    assert_eq!(s.effective_base_url(), "https://example.test/v1");
    assert_eq!(s.effective_model(), "my-model");
}

#[test]
fn locale_priority_prefers_override_then_hint_then_global() {
    let mut s = LlmPostProcessSettings::default();
    assert_eq!(s.locale_priority(None), vec!["global".to_string()]);
    assert_eq!(
        s.locale_priority(Some("ja")),
        vec!["ja-JP".to_string(), "global".to_string()]
    );
    s.language_override = Some("en".to_string());
    assert_eq!(
        s.locale_priority(Some("ja")),
        vec!["en-US".to_string(), "global".to_string()]
    );
    s.language_override = Some("auto".to_string());
    assert_eq!(
        s.locale_priority(Some("ja")),
        vec!["ja-JP".to_string(), "global".to_string()]
    );
}

#[test]
fn locale_codes_normalize_regions() {
    // the region is uppercased, the language lowercased
    assert_eq!(normalize_locale_code("ja_jp"), Some("ja-JP".to_string()));
    assert_eq!(normalize_locale_code("EN-us"), Some("en-US".to_string()));
    assert_eq!(normalize_locale_code("ja"), Some("ja-JP".to_string()));
    assert_eq!(normalize_locale_code("en"), Some("en-US".to_string()));
    assert_eq!(normalize_locale_code("fr"), Some("fr".to_string()));
    assert_eq!(normalize_locale_code("  "), None);
    assert_eq!(normalize_locale_code("auto"), None);
}

#[test]
fn locale_tags_are_cut_at_the_encoding_suffix() {
    assert_eq!(normalize_locale_tag("ja_JP.UTF-8"), "ja-JP");
    assert_eq!(normalize_locale_tag(" en-US "), "en-US");
    assert_eq!(normalize_locale_tag("C"), "C");
}

#[test]
fn mode_validation_falls_back_sensibly() {
    let mut s = LlmPostProcessSettings::default();
    s.mode_id = String::new();
    s.ensure_mode_valid();
    assert_eq!(s.mode_id, PRESET_ID_FORMAT);
    s.mode_id = "custom".to_string();
    s.ensure_mode_valid();
    assert_eq!(s.mode_id, MODE_ID_CUSTOM_DRAFT);
    s.mode_id = "custom:gone".to_string();
    s.ensure_mode_valid();
    assert_eq!(s.mode_id, MODE_ID_CUSTOM_DRAFT);
    s.mode_id = PRESET_ID_SUMMARY.to_string();
    s.ensure_mode_valid();
    assert_eq!(s.mode_id, PRESET_ID_SUMMARY);
}

#[test]
fn custom_modes_get_fresh_ids_and_names() {
    let mut s = LlmPostProcessSettings::default();
    let id1 = s.create_custom_mode("My Mode", "sys", "user {{transcript}}");
    assert_eq!(id1, "custom:my-mode");
    // a second mode under the same name is numbered, in both id and name
    let id2 = s.create_custom_mode("My Mode", "", "x");
    assert_eq!(id2, "custom:my-mode-2");
    assert_eq!(s.custom_prompts[1].name, "My Mode (2)");
    assert!(s.custom_prompts[1].system_prompt.is_none());
    // punctuation collapses into single dashes in the slug
    let id3 = s.create_custom_mode("  Very -- Fancy!! Mode  ", "s", "u");
    assert_eq!(id3, "custom:very-fancy-mode");

    assert!(s.custom_prompt(&id1).is_some());
    assert!(s.custom_prompt("custom:absent").is_none());
    assert!(s.update_custom_mode(&id1, "Renamed", "", "u2").is_ok());
    assert_eq!(s.custom_prompts[0].name, "Renamed");
    assert!(s.update_custom_mode("custom:absent", "n", "s", "u").is_err());
    if let Some(m) = s.custom_prompt_mut(&id2) {
        m.user_prompt = "edited".to_string();
    }
    assert_eq!(s.custom_prompt(&id2).unwrap().user_prompt, "edited");
    assert!(s.custom_prompt_mut("custom:absent").is_none());

    s.mode_id = id1.clone();
    assert!(s.remove_custom_mode(&id1));
    assert_eq!(s.mode_id, PRESET_ID_FORMAT);
    assert!(!s.remove_custom_mode(&id1));
}

#[test]
fn prompt_preview_and_resolution_follow_the_locales() {
    let s = LlmPostProcessSettings::default();
    let locales = s.locale_priority(Some("en"));
    let (sys, user) = builtin_prompt_preview(PRESET_ID_FORMAT, &locales).unwrap();
    assert_eq!(sys, FORMAT_SYSTEM_EN);
    assert_eq!(user, "Transcript to revise:\n{{transcript}}");
    let (ssys, _suser) = builtin_prompt_preview(PRESET_ID_SUMMARY, &locales).unwrap();
    assert_eq!(ssys, SUMMARY_SYSTEM_EN);
    assert!(builtin_prompt_preview("custom:x", &locales).is_none());

    let resolved = resolve_prompt(&s, "hi there", "", None);
    assert_eq!(resolved.system.as_deref(), Some(FORMAT_SYSTEM_GLOBAL));
    assert_eq!(resolved.user, "Transcript:\nhi there");
}

#[test]
fn custom_prompt_templates_render_placeholders() {
    let mut s = LlmPostProcessSettings::default();
    s.mode_id = MODE_ID_CUSTOM_DRAFT.to_string();
    s.custom_prompt_system = "Use {{dictionary}}.".to_string();
    s.custom_prompt = "Fix: {{transcript}}".to_string();
    let r = resolve_prompt(&s, "words", "my dict", None);
    assert_eq!(r.system.as_deref(), Some("Use my dict."));
    assert_eq!(r.user, "Fix: words");
    // a template without the placeholder gets the transcript appended
    s.custom_prompt = "Just clean this up.".to_string();
    let r2 = resolve_prompt(&s, "words", "", None);
    assert_eq!(r2.user, "Just clean this up.\n\nTranscript:\nwords");
}

#[test]
fn transcripts_are_trimmed_and_truncated() {
    assert_eq!(prepare_transcript("  hello  ", 0), ("hello".to_string(), false));
    assert_eq!(prepare_transcript("abcdef", 4), ("abcd".to_string(), true));
    assert_eq!(prepare_transcript("   ", 10), (String::new(), false));
}

#[test]
fn previews_and_urls_are_shaped_exactly() {
    assert_eq!(preview_body("  short  "), "short");
    let long = "x".repeat(350);
    let p = preview_body(&long);
    assert_eq!(p.chars().count(), 301);
    assert!(p.ends_with('\u{2026}'));
    assert_eq!(join_url("http://h/v1/", "/models"), "http://h/v1/models");
    assert_eq!(join_url("http://h/v1", "models"), "http://h/v1/models");
}

#[test]
fn backoff_arms_after_three_failures_and_clears() {
    let mut p = LlmPostProcessor::new();
    assert_eq!(p.check_backoff(1_000), None);
    assert_eq!(p.register_failure(1_000), None);
    assert_eq!(p.register_failure(2_000), None);
    assert_eq!(p.register_failure(3_000), Some(60));
    assert_eq!(p.check_backoff(3_500), Some(59));
    assert_eq!(p.check_backoff(62_999), Some(1));
    assert_eq!(p.check_backoff(63_000), None);
    p.register_failure(1_000);
    p.note_success();
    assert_eq!(p.check_backoff(1_001), None);
}

#[test]
fn request_preparation_gates_and_shapes() {
    let mut p = LlmPostProcessor::new();
    let mut s = LlmPostProcessSettings::default();
    assert!(p.prepare_request(&s, "hello", None, None, 0).is_err()); // disabled
    s.enabled = true;
    assert!(p.prepare_request(&s, "   ", None, None, 0).is_err()); // empty
    let req = p.prepare_request(&s, " hello ", None, Some("en"), 0).unwrap();
    assert_eq!(req.model, "llama3.1:8b");
    assert_eq!(req.temperature_milli, 200);
    assert_eq!(req.max_tokens, Some(1024));
    assert!(!req.truncated_input);
    assert_eq!(req.messages.len(), 2);
    assert_eq!(req.messages[0].role, "system");
    assert_eq!(req.messages[0].content, FORMAT_SYSTEM_EN);
    assert_eq!(req.messages[1].role, "user");
    assert_eq!(req.messages[1].content, "Transcript to revise:\nhello");
    // an armed backoff refuses the request and reports the wait
    p.register_failure(0);
    p.register_failure(0);
    p.register_failure(0);
    let err = p.prepare_request(&s, "hello", None, None, 0).unwrap_err();
    assert_eq!(err.retry_after_secs, Some(60));
}

#[test]
fn history_snapshot_and_bounded_entries() {
    let mut s = LlmPostProcessSettings::default();
    assert_eq!(mode_label(&s), "format");
    s.mode_id = PRESET_ID_SUMMARY.to_string();
    assert_eq!(mode_label(&s), "summary");
    let id = s.create_custom_mode("Notes", "", "u");
    s.mode_id = id;
    assert_eq!(mode_label(&s), "Notes");
    let snap = build_settings_snapshot(&s);
    assert_eq!(snap.mode_label, "Notes");
    assert_eq!(snap.custom_prompt_user.as_deref(), Some("u"));
    assert_eq!(snap.api_base_url, "http://localhost:11434/v1");

    let mut entries: Vec<LlmHistoryEntry> = Vec::new();
    for i in 0..25u64 {
        let e = LlmHistoryEntry {
            timestamp: format!("t{}", i),
            transcript: "in".to_string(),
            llm_output: "out".to_string(),
            truncated_input: false,
            llm_latency_ms: i,
            settings: LlmHistorySettingsSnapshot {
                api_base_url: String::new(),
                model: String::new(),
                mode_id: String::new(),
                mode_label: String::new(),
                language_override: None,
                custom_prompt_system: None,
                custom_prompt_user: None,
            },
        };
        let outcome = push_history_entry(&mut entries, e);
        assert!(outcome.total_entries <= MAX_HISTORY_ENTRIES);
    }
    assert_eq!(entries.len(), MAX_HISTORY_ENTRIES);
    assert_eq!(entries[0].llm_latency_ms, 5); // the oldest five were dropped
    assert_eq!(entries.last().unwrap().llm_latency_ms, 24);
}

#[test]
fn output_behavior_and_engine_hold_their_settings() {
    let mut out = OutputBehavior::new(BehaviorOptions { use_clipboard: true, auto_paste: true });
    out.set_behavior_options(true, false);
    assert!(out.behavior.use_clipboard);
    assert!(!out.behavior.auto_paste);
    out.remember_front_app(Some("org.example.editor".to_string()));
    assert_eq!(out.front_app_before_paste.as_deref(), Some("org.example.editor"));

    let mut engine = PostProcessEngine::new(LlmPostProcessSettings::default());
    let pass = engine.passthrough("text").unwrap();
    assert_eq!(pass.final_text, "text");
    assert_eq!(pass.llm_latency_ms, 0);
    let mut enabled = LlmPostProcessSettings::default();
    enabled.enabled = true;
    engine.set_settings(enabled);
    assert!(engine.passthrough("text").is_none());
    assert_eq!(engine.choose_final_text("base", "polished"), "polished");

    let params = WhisperOptimizationParams::default();
    assert!(params.enable_beam_search);
    assert_eq!(params.beam_size, 3);
    let threads = decode_thread_count(params.use_physical_cores);
    assert!((1..=4).contains(&threads));
}

#[test]
fn model_items_filter_and_label() {
    let full = ModelItem {
        id: "llama3.1:8b".to_string(),
        owned_by: Some("library".to_string()),
        hidden: None,
        format: Some("gguf".to_string()),
        parameter_size: Some("8B".to_string()),
    };
    let info = map_model_item(&full).unwrap();
    assert_eq!(info.id, "llama3.1:8b");
    assert_eq!(info.label, "llama3.1:8b (library) [8B]");
    let hidden = ModelItem { hidden: Some(true), ..full.clone() };
    assert!(map_model_item(&hidden).is_none());
    let embed = ModelItem { format: Some("Embedding".to_string()), ..full.clone() };
    assert!(map_model_item(&embed).is_none());
    let blank = ModelItem { id: "  ".to_string(), ..full };
    assert!(map_model_item(&blank).is_none());
}

#[test]
fn dictionary_hint_lists_entries_with_aliases() {
    let entries = vec![
        DictionaryEntry {
            canonical: "Rust".to_string(),
            aliases: vec!["Rustlang".to_string(), "Rust language".to_string()],
            context_terms: vec!["cargo".to_string()],
        },
        DictionaryEntry {
            canonical: "ignored".to_string(),
            aliases: vec![],
            context_terms: vec![],
        },
    ];
    let hint = dictionary_prompt_text(&entries).unwrap();
    assert_eq!(
        hint,
        "User dictionary replacements:\n- Rust: Rustlang, Rust language (context: cargo)"
    );
    assert!(dictionary_prompt_text(&vec![]).is_none());
}
