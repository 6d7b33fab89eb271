use hootvoice::textproc::{clean_decoded_text, collapse_repetitions, filter_noise_text,
    is_punct_or_space_only, should_suppress_output};

#[test]
fn noise_marker_alone_filters_to_nothing() {
    assert_eq!(filter_noise_text("(music) "), "");
}

#[test]
fn noise_marker_inside_text_is_stripped_cleanly() {
    assert_eq!(filter_noise_text("Hello, (music) world"), "Hello, world");
}

#[test]
fn all_noise_markers_are_stripped() {
    assert_eq!(filter_noise_text("[applause] well [laugh] done"), "well done");
    assert_eq!(filter_noise_text("\u{266a} la la"), "la la");
    assert_eq!(filter_noise_text("keep (sound) it [cough] short"), "keep it short");
}

#[test]
fn punctuation_only_text_is_discarded() {
    assert_eq!(filter_noise_text(" ?! ... "), "");
    assert!(is_punct_or_space_only(" ?! ... "));
    assert!(is_punct_or_space_only("\u{3002}\u{3002}")); // CJK full stops
    assert!(!is_punct_or_space_only("a."));
}

#[test]
fn immediate_duplicate_sentences_collapse() {
    assert_eq!(collapse_repetitions("Okay! Okay! Done?"), "Okay! Done?");
    // non-adjacent repeats are kept
    assert_eq!(collapse_repetitions("Yes! No! Yes!"), "Yes! No! Yes!");
}

#[test]
fn repeated_character_blocks_collapse() {
    let looped = "abcdefghijklabcdefghijklabcdefghijkl";
    assert_eq!(collapse_repetitions(looped), "abcdefghijkl");
    // blocks under twelve characters stay
    assert_eq!(collapse_repetitions("shortshort"), "shortshort");
}

#[test]
fn high_no_speech_probability_suppresses_output() {
    assert!(should_suppress_output("something", 8_500));
    assert!(!should_suppress_output("something", 8_499));
    assert!(should_suppress_output("?!", 0));
    assert_eq!(clean_decoded_text("  hello  ", 100), "hello");
    assert_eq!(clean_decoded_text("hello", 9_000), "");
    assert_eq!(clean_decoded_text(" ... ", 0), "");
}
