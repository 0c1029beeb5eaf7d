use autokeyboardlayot_core::detector::{CompositionState, Detection, DetectorConfig};
use autokeyboardlayot_core::pack_id::{Language, PackId};
use autokeyboardlayot_core::test_support;

fn chars(text: &str) -> Vec<char> {
    text.chars().collect()
}

#[test]
fn only_an_inactive_composition_lets_typing_continue() {
    assert!(!CompositionState::Inactive.requires_suppression());
    assert!(CompositionState::Active.requires_suppression());
    assert!(CompositionState::Indeterminate.requires_suppression());
}

#[test]
fn english_keys_typed_for_a_russian_word_are_converted() {
    let detector = test_support::detector();
    let detection = detector.detect(&chars("ghbdtn"), Language::English).unwrap();
    assert_eq!(
        detection,
        Detection {
            source_language: Language::English,
            target_language: Language::Russian,
            original: "ghbdtn".to_string(),
            replacement: "привет".to_string(),
        }
    );
}

#[test]
fn russian_keys_typed_for_an_english_word_are_converted() {
    let detector = test_support::detector();
    let detection = detector.detect(&chars("руддщ"), Language::Russian).unwrap();
    assert_eq!(detection.target_language, Language::English);
    assert_eq!(detection.replacement, "hello");
    assert_eq!(detection.original, "руддщ");
}

#[test]
fn a_word_valid_in_the_active_layout_is_never_converted() {
    let detector = test_support::detector();
    assert_eq!(detector.detect(&chars("hello"), Language::English), None);
    assert_eq!(detector.detect(&chars("Hello"), Language::English), None);
    assert_eq!(detector.detect(&chars("привет"), Language::Russian), None);
}

#[test]
fn unknown_readings_and_single_letters_are_left_alone() {
    let detector = test_support::detector();
    assert_eq!(detector.detect(&chars("qqqq"), Language::English), None);
    assert_eq!(detector.detect(&chars("b"), Language::English), None);
    let permissive = test_support::configured_detector(DetectorConfig { single_letter_words: true });
    let detection = permissive.detect(&chars("b"), Language::English).unwrap();
    assert_eq!(detection.replacement, "и");
}

#[test]
fn loaded_languages_and_word_continuations() {
    let detector = test_support::detector();
    assert!(detector.has_language(&Language::English));
    assert!(detector.has_language(&Language::Estonian));
    assert!(!detector.has_language(&Language::Japanese));
    assert!(detector.can_extend_word('õ', Language::Estonian));
    assert!(!detector.can_extend_word('õ', Language::English));
    assert!(detector.can_extend_word(';', Language::English));
    assert!(detector.can_extend_word('ж', Language::Russian));
    assert!(!detector.can_extend_word('1', Language::Russian));
}

#[test]
fn mapped_candidates_prefer_the_language_of_the_previous_word() {
    let detector = test_support::detector();
    let candidates = vec![
        (Language::Russian, "мир".to_string()),
        (Language::Estonian, "tere".to_string()),
    ];
    let word = chars("vbh");
    let first = detector
        .detect_mapped_candidates_in_context(&word, Language::English, &candidates, &[])
        .unwrap();
    assert_eq!(first.target_language, Language::Russian);
    assert_eq!(first.replacement, "мир");
    let in_context = detector
        .detect_mapped_candidates_in_context(&word, Language::English, &candidates, &[Language::Estonian])
        .unwrap();
    assert_eq!(in_context.target_language, Language::Estonian);
    assert_eq!(in_context.replacement, "tere");
}

#[test]
fn forced_conversion_takes_an_unknown_reading_when_no_dictionary_knows_one() {
    let detector = test_support::detector();
    let candidates = vec![(Language::Russian, "щщщ".to_string())];
    assert_eq!(
        detector.detect_mapped_candidates_in_context(&chars("ooo"), Language::English, &candidates, &[]),
        None
    );
    let forced = detector
        .force_mapped_candidates(&chars("ooo"), Language::English, &candidates)
        .unwrap();
    assert_eq!(forced.replacement, "щщщ");
    assert_eq!(forced.source_language, PackId::English);
}
