use autokeyboardlayot_core::pack_id::{Language, PackId};
use autokeyboardlayot_core::settings::Settings;

#[test]
fn legacy_language_flags_migrate_to_ids_without_changing_other_settings() {
    for mask in 0u8..8 {
        let text = format!(
            "automatic_conversion_on_startup=true\npause_break_undo=false\ndiagnostics_enabled=true\nenable_english={}\nenable_russian={}\nenable_estonian={}\n",
            mask & 1 != 0,
            mask & 2 != 0,
            mask & 4 != 0
        );
        let settings = Settings::try_from_text(&text).unwrap();
        assert_eq!(settings.enabled_input_packs.len(), mask.count_ones() as usize);
        for (bit, language) in [(1, Language::English), (2, Language::Russian), (4, Language::Estonian)] {
            assert_eq!(settings.language_enabled(language), mask & bit != 0);
        }
        assert!(settings.automatic_conversion_on_startup);
        assert!(!settings.pause_break_undo);
        assert!(settings.diagnostics_enabled);
        let serialized = settings.to_text();
        assert!(!serialized.contains("enable_english="));
        assert_eq!(Settings::try_from_text(&serialized).unwrap(), settings);
    }
}

#[test]
fn explicit_pack_selection_preserves_unknown_ids_and_rejects_ambiguity() {
    let mut settings = Settings::try_from_text("enabled_input_packs=EN-us,de-DE,zh-Hans").unwrap();
    settings.set_pack_enabled(PackId::parse("ru-RU").unwrap(), false);
    assert!(settings.enabled_input_packs.contains(&PackId::parse("de-DE").unwrap()));
    assert_eq!(Settings::try_from_text(&settings.to_text()).unwrap(), settings);
    for text in [
        "enabled_input_packs=en-US\nenable_russian=false",
        "enable_russian=false\nenabled_input_packs=en-US",
        "enabled_input_packs=en-US\nenabled_input_packs=ru-RU",
        "enabled_input_packs=../bad",
        "enabled_input_packs=en-US,",
        "enable_russian=invalid",
    ] {
        assert!(Settings::try_from_text(text).is_err(), "{text}");
    }
    let tolerant = Settings::from_text("pause_break_undo=false\nenabled_input_packs=../bad\ndiagnostics_enabled=true");
    assert!(!tolerant.pause_break_undo);
    assert!(tolerant.diagnostics_enabled);
    assert!(Settings::try_from_text("enabled_input_packs=").unwrap().enabled_input_packs.is_empty());
    assert!(Settings::try_from_text(&format!("enabled_input_packs={}", vec!["en-US"; 65].join(","))).is_err());
}

#[test]
fn strict_parser_validates_every_serialized_boolean_and_keeps_legacy_spellings() {
    for line in Settings::default().to_text().lines() {
        let Some((key, value)) = line.split_once('=') else {
            continue;
        };
        if !matches!(value, "true" | "false") {
            continue;
        }
        for invalid in ["", "maybe", "2", "tru"] {
            assert!(Settings::try_from_text(&format!("{key}={invalid}")).is_err(), "{key}");
        }
        for valid in ["true", "false", "yes", "no", "on", "off", "1", "0", " TRUE "] {
            let text = format!("{key}={valid}");
            assert_eq!(Settings::try_from_text(&text).unwrap(), Settings::from_text(&text));
        }
    }
}

#[test]
fn strict_parser_rejects_malformed_lines_and_hotkeys_without_echoing_values() {
    for text in [
        "broken line",
        "force_hotkey_key=invalid-private-value",
        "force_hotkey_modifiers=invalid-private-value",
        "force_hotkey_key=A\nforce_hotkey_modifiers=None",
    ] {
        let error = Settings::try_from_text(text).unwrap_err();
        assert!(!error.describe().contains("private-value"));
    }
    let error = Settings::try_from_text("# comment\n\npause_break_undo=bad").unwrap_err();
    assert_eq!(error.line, 3);
}

#[test]
fn strict_parser_preserves_valid_roundtrips_partial_hotkeys_and_unknown_keys() {
    for text in [
        Settings::default().to_text(),
        "force_hotkey_key=F12".to_owned(),
        "force_hotkey_modifiers=Ctrl".to_owned(),
        "unknown=future-value\nui_language=ru\npause_break_undo=no".to_owned(),
    ] {
        assert_eq!(Settings::try_from_text(&text).unwrap(), Settings::from_text(&text));
    }
}

#[test]
fn defaults_enable_startup_conversion_but_keep_hotkey_and_safety_defaults() {
    let settings = Settings::default();
    assert!(settings.automatic_conversion_on_startup);
    assert!(settings.pause_break_undo);
    assert!(settings.offer_word_exclusion_after_undo);
    assert!(settings.offer_dictionary_after_forced_conversion);
    assert_eq!(settings.force_hotkey().display_name(), "Pause/Break");
    assert!(settings.recheck_first_word_after_erasing);
    assert!(settings.physical_fallback_for_unsupported_apps);
    assert!(!settings.single_letter_words);
    assert!(!settings.diagnostics_enabled);
    assert!(settings.suppress_after_backspace);
    assert!(settings.suppress_after_delete);
    assert!(settings.suppress_after_left);
    assert!(settings.suppress_after_right);
    assert!(settings.suppress_after_up);
    assert!(settings.suppress_after_down);
    assert!(settings.suppress_after_home_end);
    assert!(settings.suppress_after_manual_layout_change);
    assert!(settings.language_enabled(Language::English));
    assert!(settings.language_enabled(Language::Russian));
    assert!(settings.language_enabled(Language::Estonian));
}

#[test]
fn parser_is_forward_compatible_and_round_trips() {
    let parsed = Settings::from_text(
        "# comment\nautomatic_conversion_on_startup=yes\n\
         pause_break_undo=off\nunknown=true\n\
         offer_word_exclusion_after_undo=1\n\
         offer_dictionary_after_forced_conversion=no\n\
         force_hotkey_key=F12\n\
         force_hotkey_modifiers=Ctrl+Shift\n\
         recheck_first_word_after_erasing=no\n\
         physical_fallback_for_unsupported_apps=on\n\
         single_letter_words=yes\n\
         manual_terminal_uia_fallback=yes\n\
         diagnostics_enabled=true\n\
         suppress_after_backspace=off\n\
         suppress_after_delete=no\n\
         suppress_after_left=false\n\
         suppress_after_manual_layout_change=0\n\
         enable_estonian=off\n",
    );
    assert!(parsed.automatic_conversion_on_startup);
    assert!(!parsed.pause_break_undo);
    assert!(parsed.offer_word_exclusion_after_undo);
    assert!(!parsed.offer_dictionary_after_forced_conversion);
    assert_eq!(parsed.force_hotkey().display_name(), "Ctrl+Shift+F12");
    assert!(!parsed.recheck_first_word_after_erasing);
    assert!(parsed.physical_fallback_for_unsupported_apps);
    assert!(parsed.single_letter_words);
    assert!(parsed.manual_terminal_uia_fallback);
    assert!(parsed.diagnostics_enabled);
    assert!(!parsed.suppress_after_backspace);
    assert!(!parsed.suppress_after_delete);
    assert!(!parsed.suppress_after_left);
    assert!(!parsed.suppress_after_manual_layout_change);
    assert!(!parsed.language_enabled(Language::Estonian));
    assert_eq!(Settings::from_text(&parsed.to_text()), parsed);
}

#[test]
fn errors_name_their_line_and_fixed_message() {
    let error = Settings::try_from_text("pause_break_undo=true\nenabled_input_packs=en-US,").unwrap_err();
    assert_eq!(error.line, 2);
    assert_eq!(error.describe(), "line 2: invalid input pack ID");
    let error = Settings::try_from_text("a=b\nc=d\n\n\n\n\n\n\n\n\nbroken").unwrap_err();
    assert_eq!(error.describe(), "line 11: expected a settings key=value pair");
}

#[test]
fn default_text_lists_every_key_once() {
    let text = Settings::default().to_text();
    assert!(text.starts_with("# AutoKeyboardLayot settings v2\n"));
    assert!(text.contains("\nforce_hotkey_key=Pause\nforce_hotkey_modifiers=None\n"));
    assert!(text.ends_with("enabled_input_packs=en-US,et-EE,ru-RU\n"));
    assert_eq!(text.lines().count(), 21);
}

#[test]
fn pack_selection_is_a_set_in_order_of_spelling() {
    let a = Settings::try_from_text("enabled_input_packs=ru-RU,en-US").unwrap();
    let b = Settings::try_from_text("enabled_input_packs=en-US,ru-RU,EN-us").unwrap();
    assert!(a == b);
    assert_eq!(a.to_text(), b.to_text());
    assert!(a.to_text().ends_with("enabled_input_packs=en-US,ru-RU\n"));
    let mut c = Settings::try_from_text("enabled_input_packs=zh-Hans,de-DE").unwrap();
    c.set_pack_enabled(PackId::parse("et-EE").unwrap(), true);
    assert!(c.to_text().ends_with("enabled_input_packs=de-DE,et-EE,zh-Hans\n"));
}

#[test]
fn strict_success_reads_the_same_when_tolerant() {
    let text = "unknown=future-value\nui_language=ru\npause_break_undo=false\nenabled_input_packs=ru-RU,en-US\n";
    let strict = Settings::try_from_text(text).unwrap();
    assert!(Settings::from_text(text) == strict);
}
