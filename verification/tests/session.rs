use autokeyboardlayot_core::detector::{CompositionState, Detector};
use autokeyboardlayot_core::pack_id::Language;
use autokeyboardlayot_core::session::{
    InputEvent, InputSession, ResetReason, SessionAction, DEFAULT_MAX_WORD_CHARACTERS,
};
use autokeyboardlayot_core::test_support;

fn type_word(session: &mut InputSession, word: &str, language: Language, detector: &Detector) -> SessionAction {
    for character in word.chars() {
        assert_eq!(
            session.handle(InputEvent::Printable(character), Some(language.clone()), detector),
            SessionAction::NoAction
        );
    }
    session.handle(InputEvent::Boundary, Some(language), detector)
}

fn type_chars(session: &mut InputSession, word: &str, detector: &Detector) {
    for character in word.chars() {
        session.handle(InputEvent::Printable(character), Some(Language::English), detector);
    }
}

#[test]
fn current_word_limit_stays_64_characters_independent_of_dictionary_storage() {
    let detector = test_support::detector();
    let mut session = InputSession::default();
    for _ in 0..64 {
        assert_eq!(
            session.handle(InputEvent::Printable('a'), Some(Language::English), &detector),
            SessionAction::NoAction
        );
    }
    assert_eq!(session.buffered_character_count(), 64);
    assert_eq!(
        session.handle(InputEvent::Printable('a'), Some(Language::English), &detector),
        SessionAction::Reset(ResetReason::UnsupportedInput)
    );
    assert_eq!(session.buffered_character_count(), 0);
    assert!(session.is_suppressed());
    for _ in 0..256 {
        session.handle(InputEvent::Printable('a'), Some(Language::English), &detector);
        assert_eq!(session.buffered_character_count(), 0);
    }
    assert_eq!(
        session.handle(InputEvent::Boundary, Some(Language::English), &detector),
        SessionAction::NoAction
    );
    assert!(!session.is_suppressed());
    assert!(matches!(
        type_word(&mut session, "ghbdtn", Language::English, &detector),
        SessionAction::Candidate(_)
    ));
}

#[test]
fn reports_candidate_only_at_a_boundary() {
    let detector = test_support::detector();
    let mut session = InputSession::default();
    let action = type_word(&mut session, "ghbdtn", Language::English, &detector);
    let SessionAction::Candidate(detection) = action else {
        panic!("expected a candidate");
    };
    assert_eq!(detection.replacement, "привет");
    assert_eq!(session.buffered_character_count(), 0);
}

#[test]
fn active_or_unknown_composition_suppresses_until_a_trusted_boundary() {
    let detector = test_support::detector();
    for state in [CompositionState::Active, CompositionState::Indeterminate] {
        let mut session = InputSession::default();
        for character in "ghbdtn".chars() {
            assert_eq!(
                session.handle(InputEvent::Printable(character), Some(Language::English), &detector),
                SessionAction::NoAction
            );
        }
        assert_eq!(session.observe_composition(state), SessionAction::Reset(ResetReason::Composition));
        assert_eq!(session.buffered_character_count(), 0);
        assert!(session.is_suppressed());
        assert_eq!(
            session.handle(InputEvent::Boundary, Some(Language::English), &detector),
            SessionAction::NoAction
        );
        assert!(!session.is_suppressed());
        assert!(matches!(
            type_word(&mut session, "ghbdtn", Language::English, &detector),
            SessionAction::Candidate(_)
        ));
    }
}

#[test]
fn inactive_composition_preserves_ordinary_conversion() {
    let detector = test_support::detector();
    let mut session = InputSession::default();
    for character in "ghbdtn".chars() {
        assert_eq!(
            session.handle(InputEvent::Printable(character), Some(Language::English), &detector),
            SessionAction::NoAction
        );
    }
    assert_eq!(session.observe_composition(CompositionState::Inactive), SessionAction::NoAction);
    assert_eq!(session.buffered_character_count(), 6);
    assert!(matches!(
        session.handle(InputEvent::Boundary, Some(Language::English), &detector),
        SessionAction::Candidate(_)
    ));
}

#[test]
fn keeps_target_layout_letters_that_look_like_source_punctuation() {
    let detector = test_support::detector();
    let mut session = InputSession::default();
    let action = type_word(&mut session, "gthtrk.xtybt", Language::English, &detector);
    let SessionAction::Candidate(detection) = action else {
        panic!("expected punctuation-backed Russian candidate");
    };
    assert_eq!(detection.replacement, "переключение");
}

#[test]
fn platform_candidates_use_the_same_boundary_and_clear_the_buffer() {
    let detector = test_support::detector();
    let mut session = InputSession::default();
    for character in "t;re".chars() {
        assert_eq!(
            session.handle(InputEvent::Printable(character), Some(Language::English), &detector),
            SessionAction::NoAction
        );
    }
    let action = session.finish_boundary_with_candidates(
        Some(Language::English),
        &detector,
        &[(Language::Estonian, "tere".to_owned())],
    );
    let SessionAction::Candidate(detection) = action else {
        panic!("expected Estonian candidate");
    };
    assert_eq!(detection.target_language, Language::Estonian);
    assert_eq!(session.buffered_character_count(), 0);
}

#[test]
fn force_conversion_consumes_a_short_word_without_a_boundary() {
    let detector = test_support::detector();
    let mut session = InputSession::default();
    type_chars(&mut session, "yt", &detector);
    let action = session.force_current_word_with_candidates(
        Some(Language::English),
        &detector,
        &[(Language::Russian, "не".to_owned()), (Language::Estonian, "yt".to_owned())],
    );
    let SessionAction::Candidate(detection) = action else {
        panic!("expected forced short-word candidate");
    };
    assert_eq!(detection.replacement, "не");
    assert_eq!(session.buffered_character_count(), 0);
}

#[test]
fn ctrl_backspace_can_rearm_a_tracked_first_word_after_enter() {
    let detector = test_support::detector();
    let mut session = InputSession::default();
    session.mark_line_start();
    type_chars(&mut session, "ghbdtn", &detector);
    assert!(session.erase_first_word_by_shortcut());
    let action = type_word(&mut session, "ghbdtn", Language::English, &detector);
    assert!(matches!(action, SessionAction::Candidate(_)));
}

#[test]
fn extra_backspace_at_empty_line_stays_fail_closed() {
    let detector = test_support::detector();
    let mut session = InputSession::default();
    session.mark_line_start();
    session.handle(InputEvent::Printable('g'), Some(Language::English), &detector);
    session.handle(InputEvent::Backspace, Some(Language::English), &detector);
    assert!(!session.is_suppressed());
    session.handle(InputEvent::Backspace, Some(Language::English), &detector);
    assert!(session.is_suppressed());
}

#[test]
fn erasing_a_character_keeps_the_corrected_word() {
    let detector = test_support::detector();
    let mut session = InputSession::default();
    type_chars(&mut session, "ghbdnb", &detector);
    assert!(session.erase_last_character());
    assert!(session.erase_last_character());
    assert_eq!(session.buffered_character_count(), 4);
    assert!(!session.is_suppressed());
    assert!(matches!(
        type_word(&mut session, "tn", Language::English, &detector),
        SessionAction::Candidate(detection) if detection.replacement == "привет"
    ));
}

#[test]
fn erasing_outside_a_known_word_is_refused() {
    let detector = test_support::detector();
    let mut session = InputSession::default();
    assert!(!session.erase_last_character());
    session.handle(InputEvent::UnsupportedInput, None, &detector);
    assert!(!session.erase_last_character());
    assert!(session.is_suppressed());
}

#[test]
fn erasing_the_first_word_returns_to_line_start() {
    let detector = test_support::detector();
    let mut session = InputSession::default();
    session.mark_line_start();
    session.handle(InputEvent::Printable('g'), Some(Language::English), &detector);
    assert!(session.erase_last_character());
    assert!(session.is_at_line_start());
}

#[test]
fn restored_word_can_be_forced_and_bounds_are_checked() {
    let detector = test_support::detector();
    let mut session = InputSession::default();
    session.handle(InputEvent::UnsupportedInput, None, &detector);
    assert!(!session.restore_word(""));
    assert!(!session.restore_word(&"g".repeat(DEFAULT_MAX_WORD_CHARACTERS + 1)));
    assert!(session.restore_word("ghbdtn"));
    assert!(!session.is_suppressed());
    assert_eq!(session.buffered_character_count(), 6);
}

#[test]
fn backspace_suppresses_the_edited_word_until_its_boundary() {
    let detector = test_support::detector();
    let mut session = InputSession::default();
    type_chars(&mut session, "ghb", &detector);
    assert_eq!(
        session.handle(InputEvent::Backspace, Some(Language::English), &detector),
        SessionAction::Reset(ResetReason::Backspace)
    );
    type_chars(&mut session, "dtn", &detector);
    assert_eq!(
        session.handle(InputEvent::Boundary, Some(Language::English), &detector),
        SessionAction::NoAction
    );
    assert!(!session.is_suppressed());
}

#[test]
fn erasing_the_entire_tracked_word_allows_a_fresh_word_immediately() {
    let detector = test_support::detector();
    let mut session = InputSession::default();
    type_chars(&mut session, "abc", &detector);
    for _ in 0..3 {
        session.handle(InputEvent::Backspace, Some(Language::English), &detector);
    }
    assert!(!session.is_suppressed());
    assert_eq!(session.buffered_character_count(), 0);
    assert!(matches!(
        type_word(&mut session, "ghbdtn", Language::English, &detector),
        SessionAction::Candidate(_)
    ));
}

#[test]
fn typing_during_backspace_recovery_keeps_the_word_suppressed() {
    let detector = test_support::detector();
    let mut session = InputSession::default();
    type_chars(&mut session, "abc", &detector);
    session.handle(InputEvent::Backspace, Some(Language::English), &detector);
    session.handle(InputEvent::Printable('x'), Some(Language::English), &detector);
    session.handle(InputEvent::Backspace, Some(Language::English), &detector);
    session.handle(InputEvent::Backspace, Some(Language::English), &detector);
    assert!(session.is_suppressed());
    assert_eq!(
        session.handle(InputEvent::Boundary, Some(Language::English), &detector),
        SessionAction::NoAction
    );
    assert!(!session.is_suppressed());
}

#[test]
fn manual_layout_change_suppresses_the_current_word() {
    let detector = test_support::detector();
    let mut session = InputSession::default();
    session.handle(InputEvent::Printable('g'), Some(Language::English), &detector);
    assert_eq!(
        session.handle(InputEvent::LayoutChanged, Some(Language::Russian), &detector),
        SessionAction::Reset(ResetReason::LayoutChanged)
    );
    assert!(session.is_suppressed());
}

#[test]
fn focus_change_starts_a_fresh_context_without_blocking_the_next_word() {
    let detector = test_support::detector();
    let mut session = InputSession::default();
    session.handle(InputEvent::Printable('x'), Some(Language::English), &detector);
    session.handle(InputEvent::FocusChanged, Some(Language::English), &detector);
    assert!(!session.is_suppressed());
    assert!(matches!(
        type_word(&mut session, "ghbdtn", Language::English, &detector),
        SessionAction::Candidate(_)
    ));
}

#[test]
fn mouse_click_starts_a_fresh_context_without_blocking_the_next_word() {
    let detector = test_support::detector();
    let mut session = InputSession::default();
    session.handle(InputEvent::Printable('x'), Some(Language::English), &detector);
    assert_eq!(
        session.handle(InputEvent::Mouse, Some(Language::English), &detector),
        SessionAction::Reset(ResetReason::Mouse)
    );
    assert!(!session.is_suppressed());
    assert!(matches!(
        type_word(&mut session, "ghbdtn", Language::English, &detector),
        SessionAction::Candidate(_)
    ));
}

#[test]
fn injected_input_does_not_change_the_buffer() {
    let detector = test_support::detector();
    let mut session = InputSession::default();
    session.handle(InputEvent::Printable('g'), Some(Language::English), &detector);
    assert_eq!(
        session.handle(InputEvent::Injected, Some(Language::English), &detector),
        SessionAction::NoAction
    );
    assert_eq!(session.buffered_character_count(), 1);
}

#[test]
fn mid_word_uncertainty_suppresses_the_tail_until_its_boundary() {
    let detector = test_support::detector();
    let mut session = InputSession::default();
    type_chars(&mut session, "ghb", &detector);
    assert_eq!(
        session.handle(InputEvent::UnsupportedInput, Some(Language::English), &detector),
        SessionAction::Reset(ResetReason::UnsupportedInput)
    );
    type_chars(&mut session, "dtn", &detector);
    assert_eq!(
        session.handle(InputEvent::Boundary, Some(Language::English), &detector),
        SessionAction::NoAction
    );
    assert!(!session.is_suppressed());
}

#[test]
fn a_word_valid_in_the_current_layout_is_never_converted() {
    let detector = test_support::detector();
    let mut session = InputSession::default();
    assert_eq!(type_word(&mut session, "hello", Language::English, &detector), SessionAction::NoAction);
    let action = type_word(&mut session, "hf,jnftn", Language::English, &detector);
    let SessionAction::Candidate(detection) = action else {
        panic!("expected a Russian candidate");
    };
    assert_eq!(detection.replacement, "работает");
    assert_eq!(detection.original, "hf,jnftn");
    assert_eq!(detection.source_language, Language::English);
    assert_eq!(detection.target_language, Language::Russian);
}

#[test]
fn russian_layout_words_map_back_to_english() {
    let detector = test_support::detector();
    let mut session = InputSession::default();
    let action = type_word(&mut session, "руддщ", Language::Russian, &detector);
    let SessionAction::Candidate(detection) = action else {
        panic!("expected an English candidate");
    };
    assert_eq!(detection.replacement, "hello");
}

#[test]
fn one_letter_words_need_the_option() {
    let detector = test_support::detector();
    let mut session = InputSession::default();
    assert_eq!(type_word(&mut session, "b", Language::English, &detector), SessionAction::NoAction);
    let permissive = test_support::configured_detector(
        autokeyboardlayot_core::detector::DetectorConfig { single_letter_words: true },
    );
    assert!(matches!(
        type_word(&mut session, "b", Language::English, &permissive),
        SessionAction::Candidate(detection) if detection.replacement == "и"
    ));
}

#[test]
fn context_prefers_the_language_of_the_previous_word() {
    let detector = test_support::detector();
    let mut session = InputSession::default();
    type_chars(&mut session, "ntht", &detector);
    let action = session.finish_boundary_in_context(
        Some(Language::English),
        &detector,
        &[(Language::Russian, "мир".to_owned()), (Language::Estonian, "tere".to_owned())],
        &[Language::Russian, Language::Estonian],
    );
    let SessionAction::Candidate(detection) = action else {
        panic!("expected a candidate");
    };
    assert_eq!(detection.target_language, Language::Estonian);
}

#[test]
fn unsupported_layouts_reset_the_word() {
    let detector = test_support::detector();
    let mut session = InputSession::default();
    assert_eq!(
        session.handle(InputEvent::Printable('g'), Some(Language::Japanese), &detector),
        SessionAction::Reset(ResetReason::UnsupportedInput)
    );
    assert!(session.is_suppressed());
    session.clear();
    assert!(!session.is_suppressed());
    assert_eq!(
        session.handle(InputEvent::Printable('1'), Some(Language::English), &detector),
        SessionAction::Reset(ResetReason::UnsupportedInput)
    );
}
