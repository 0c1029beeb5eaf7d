use autokeyboardlayot_core::pack_id::{Language, PackId};
use autokeyboardlayot_core::user_lexicon::UserLexicon;

#[test]
fn accepts_colon_tab_and_space_separated_entries() {
    let lexicon = UserLexicon::from_lines(&[
        "en-US: RustDesk",
        "ru\tруддщ",
        "et-EE klaviatuur",
        "ja-JP: こんにちは",
    ]);
    assert!(lexicon.contains(Language::English, "rustdesk"));
    assert!(lexicon.contains(Language::Russian, "РУДДЩ"));
    assert!(lexicon.contains(Language::Estonian, "klaviatuur"));
    assert!(lexicon.contains(Language::Japanese, "こんにちは"));
}

#[test]
fn ignores_comments_invalid_ids_and_multiword_entries() {
    let lexicon = UserLexicon::from_lines(&["# en: hidden", "../xx: unknown", "en-US two words", "ru-RU:"]);
    assert!(lexicon.is_empty());
}

#[test]
fn formats_an_explicit_exclusion_without_losing_layout_punctuation() {
    assert_eq!(
        UserLexicon::format_entry(Language::English, "HF,JNFTN"),
        Some("en-US: hf,jnftn\n".to_owned())
    );
}

#[test]
fn insert_reports_new_words_once_per_pack() {
    let mut lexicon = UserLexicon::new();
    assert!(lexicon.insert(Language::English, "Word"));
    assert!(!lexicon.insert(Language::English, "WORD"));
    assert!(lexicon.insert(Language::Russian, "word"));
    assert!(!lexicon.insert(Language::English, "two words"));
    assert!(!lexicon.insert(Language::English, ""));
    assert_eq!(lexicon.len(), 2);
    let custom = PackId::parse("de-DE").unwrap();
    assert!(lexicon.insert_pack(custom.clone(), "Wort"));
    assert!(lexicon.contains_pack(&custom, "wort"));
    assert!(!lexicon.contains(Language::Estonian, "word"));
}

#[test]
fn entries_normalize_and_format_round_trip() {
    assert_eq!(
        UserLexicon::normalize_entry("  ru-RU :  Привет "),
        Some((Language::Russian, "привет".to_owned()))
    );
    assert_eq!(UserLexicon::normalize_entry("en-US"), None);
    let de = PackId::parse("DE-de").unwrap();
    assert_eq!(
        UserLexicon::format_pack_entry(&de, "Wort"),
        Some("de-DE: wort\n".to_owned())
    );
    assert_eq!(
        UserLexicon::normalize_pack_entry("de-DE wort"),
        Some((de, "wort".to_owned()))
    );
    assert_eq!(UserLexicon::format_entry(Language::English, "a\tb"), None);
}
