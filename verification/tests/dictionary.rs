use hootvoice::dictionary::{apply_pairs, flatten_sorted_with_context, DictionaryEntry};

#[test]
fn no_recursive_replacement() {
    let dict = vec![
        DictionaryEntry {
            canonical: "1".into(),
            aliases: vec!["12".into()],
            context_terms: vec![],
        },
        DictionaryEntry {
            canonical: "one".into(),
            aliases: vec!["1".into()],
            context_terms: vec![],
        },
    ];
    let pairs = flatten_sorted_with_context(&dict, "");
    assert_eq!(apply_pairs("12 1", &pairs), "1 one");
}

#[test]
fn longest_first_without_overlap() {
    let pairs = vec![("foobar".into(), "X".into()), ("foo".into(), "Y".into())];
    assert_eq!(apply_pairs("foobar foo", &pairs), "X Y");
}

#[test]
fn context_terms_gate_entries_case_insensitively() {
    let dict = vec![DictionaryEntry {
        canonical: "Rust".into(),
        aliases: vec!["Rustlang".into()],
        context_terms: vec!["Language".into()],
    }];
    // the entry applies only because both sides are lowercased
    let pairs = flatten_sorted_with_context(&dict, "my favourite LANGUAGE");
    assert_eq!(pairs.len(), 1);
    assert_eq!(pairs[0].0, "Rustlang");
    let none = flatten_sorted_with_context(&dict, "nothing relevant");
    assert!(none.is_empty());
}

#[test]
fn pairs_sorted_longest_alias_first() {
    let dict = vec![
        DictionaryEntry {
            canonical: "A".into(),
            aliases: vec!["ab".into(), "abcdef".into()],
            context_terms: vec![],
        },
        DictionaryEntry {
            canonical: "B".into(),
            aliases: vec!["abcd".into()],
            context_terms: vec![],
        },
    ];
    let pairs = flatten_sorted_with_context(&dict, "");
    let aliases: Vec<&str> = pairs.iter().map(|p| p.0.as_str()).collect();
    assert_eq!(aliases, vec!["abcdef", "abcd", "ab"]);
}

#[test]
fn empty_aliases_and_empty_pairs_are_skipped() {
    let dict = vec![DictionaryEntry {
        canonical: "X".into(),
        aliases: vec!["".into()],
        context_terms: vec![],
    }];
    let pairs = flatten_sorted_with_context(&dict, "anything");
    assert!(pairs.is_empty());
    assert_eq!(apply_pairs("unchanged", &pairs), "unchanged");
}

#[test]
fn overlapping_matches_keep_the_first_range() {
    let pairs = vec![("aba".into(), "X".into()), ("ba".into(), "Y".into())];
    // "aba" claims [0,3); the later "ba" at [1,3) overlaps and is dropped
    assert_eq!(apply_pairs("ababa", &pairs), "XY");
}
