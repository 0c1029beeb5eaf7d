use autokeyboardlayot_core::agent::{
    capability_decision, classify_text_barrier, contextual_hotkey_action, conversion_gate_budget_ms,
    editable_resolver_action, foreground_identity_key, format_text_barrier_report, gate_request_enabled,
    held_tail_invalidates_undo, hotkey_modifier_bit, is_owned_gate_fence_marker, paced_replay_fits_gate,
    physical_replay_fallback_is_safe, same_input_target, set_pressed, set_wide_text,
    should_arm_space_decision_gate, should_notify_conversion_failure, take_held_replay_prefix,
    text_barrier_matches, tray_interaction, tray_visual_state, BarrierCharacterClass, CapabilityDecision,
    ConversionFailureReason, CorrectionGate, EditableResolverAction, EditableResolverReason,
    ForegroundContext, LayoutIndicator, Modifiers, ObserverFlags, RawKeyEvent, TextBarrierStage,
    TextBarrierStatus, TextEditBackend, TrayInteraction, TrayStatus, UndoHotkeyAction,
    DRAINED_EVENT_MARKER, GATE_FENCE_MARKER_BASE, INJECTED_EVENT_MARKER, WM_KEYDOWN, WM_KEYUP,
};
use autokeyboardlayot_core::tray_visual::{background, TrayVisual, ACTIVE_BACKGROUND, DISABLED_BACKGROUND};

fn context(thread: u32) -> ForegroundContext {
    ForegroundContext { hwnd: 11, focus: 11, input_thread_id: thread, process_id: 31, layout: 41 }
}

fn key(message: u32, virtual_key: u32) -> RawKeyEvent {
    RawKeyEvent {
        message,
        virtual_key,
        scan_code: 0,
        caps_lock: false,
        extended: false,
        foreground: context(21),
        sequence: 0,
        drain_token: 0,
        hotkey_trigger: false,
    }
}

#[test]
fn gate_rejects_duplicate_drain_and_near_deadline_handoff() {
    let now: u64 = 5_000;
    let mut gate = CorrectionGate::default();
    gate.activate(10, now);
    assert!(gate.can_start_drain(10));
    gate.drain_in_flight = true;
    assert!(!gate.can_start_drain(10));
    gate.drain_in_flight = false;
    gate.awaiting_worker_ack = true;
    assert!(!gate.can_start_drain(10));
    assert!(gate.prepare_handoff_budget(10, 200));
    gate.deadline_ms = now + 199;
    assert!(!gate.handoff(10, 20, now));
    assert_eq!(gate.token, 10);
}

#[test]
fn owned_fence_namespace_is_always_recognized() {
    assert!(is_owned_gate_fence_marker(GATE_FENCE_MARKER_BASE));
    assert!(is_owned_gate_fence_marker(GATE_FENCE_MARKER_BASE | 0x7fff));
    assert!(!is_owned_gate_fence_marker(INJECTED_EVENT_MARKER));
    assert!(!is_owned_gate_fence_marker(DRAINED_EVENT_MARKER));
}

#[test]
fn explicit_hotkey_can_arm_gate_with_automatic_conversion_disabled() {
    let mut flags = ObserverFlags::default();
    assert!(!gate_request_enabled(&flags, 10));
    flags.explicit_hotkey_sequence = 10;
    assert!(gate_request_enabled(&flags, 10));
    assert!(!gate_request_enabled(&flags, 11));
    flags.pause_break_undo = false;
    assert!(!gate_request_enabled(&flags, 10));
}

#[test]
fn capability_fallback_never_replays_a_text_mismatch() {
    assert_eq!(capability_decision(TextBarrierStatus::Match, false), CapabilityDecision::ProtectedPaste);
    assert_eq!(capability_decision(TextBarrierStatus::Mismatch, true), CapabilityDecision::CancelMismatch);
    assert_eq!(capability_decision(TextBarrierStatus::Unavailable, false), CapabilityDecision::Unsupported);
    assert_eq!(capability_decision(TextBarrierStatus::Unavailable, true), CapabilityDecision::PhysicalReplay);
    assert!(physical_replay_fallback_is_safe(EditableResolverReason::OwnershipUnproven));
    assert!(physical_replay_fallback_is_safe(EditableResolverReason::ParentUnavailable));
    assert!(!physical_replay_fallback_is_safe(EditableResolverReason::Password));
    assert!(!physical_replay_fallback_is_safe(EditableResolverReason::PasswordPropertyUnavailable));
}

#[test]
fn editable_resolver_accepts_only_an_exact_foreground_process() {
    assert_eq!(editable_resolver_action(false, true), EditableResolverAction::Continue);
    assert_eq!(editable_resolver_action(true, false), EditableResolverAction::Continue);
    assert_eq!(editable_resolver_action(true, true), EditableResolverAction::ReturnCurrent);
}

#[test]
fn text_barrier_allows_only_a_trailing_gecko_nbsp_equivalent() {
    assert!(text_barrier_matches("ghbdtn ", "ghbdtn "));
    assert!(text_barrier_matches("ghbdtn\u{00a0}", "ghbdtn "));
    assert!(!text_barrier_matches("ghb\u{00a0}dtn", "ghb dtn"));
    assert!(!text_barrier_matches("ghbdtn", "ghbdtn "));
    assert!(!text_barrier_matches("other\u{00a0}", "ghbdtn "));

    let shifted = classify_text_barrier(" ghbdtn", "ghbdtn ", TextBarrierStage::TextCompared, -7);
    assert_eq!(shifted.actual_chars, 7);
    assert!(shifted.word_at_end);
    assert!(shifted.actual_without_first_is_word);
    assert_eq!(shifted.leading, BarrierCharacterClass::Space);
    assert_eq!(shifted.trailing, BarrierCharacterClass::Other);
    let diagnostic = format_text_barrier_report(shifted);
    assert!(diagnostic.contains("stage=TextCompared"));
    assert!(!diagnostic.contains("ghbdtn"));
}

#[test]
fn focused_input_thread_changes_do_not_change_session_identity() {
    let first = ForegroundContext { hwnd: 11, focus: 11, input_thread_id: 21, process_id: 31, layout: 41 };
    let second = ForegroundContext { input_thread_id: 22, ..first };
    assert_eq!(foreground_identity_key(first), foreground_identity_key(second));
}

#[test]
fn failure_notice_is_not_repeated_or_shown_for_manual_disable() {
    let before = TrayStatus::initial(LayoutIndicator::English);
    let failed = TrayStatus { failures: 1, failure_reason: ConversionFailureReason::ClipboardEdit.code(), ..before };
    assert!(should_notify_conversion_failure(before, failed));
    assert!(!should_notify_conversion_failure(failed, failed));
    assert!(!should_notify_conversion_failure(before, before));
    assert!(!should_notify_conversion_failure(before, TrayStatus { auto_enabled: true, ..failed }));
}

#[test]
fn localized_tray_text_never_truncates_half_a_surrogate_pair() {
    let mut short = [42u16; 3];
    set_wide_text(&mut short, "A😀");
    assert_eq!(short, [b'A' as u16, 0, 0]);
    let mut complete = [0u16; 4];
    set_wide_text(&mut complete, "A😀B");
    assert_eq!(String::from_utf16(&complete[..3]).unwrap(), "A😀");
    assert_eq!(complete[3], 0);
    set_wide_text(&mut [0u16; 0], "text");
}

#[test]
fn same_input_target_needs_the_same_thread() {
    assert!(same_input_target(context(21), context(21)));
    assert!(!same_input_target(context(21), context(22)));
}

#[test]
fn gate_holds_only_while_open_and_in_time() {
    let mut gate = CorrectionGate::default();
    assert!(!gate.hold(key(WM_KEYDOWN, 0x41), 0));
    gate.activate(7, 100);
    assert_eq!(gate.deadline_ms, 1_300);
    assert_eq!(gate.fence_marker, GATE_FENCE_MARKER_BASE | 7);
    assert!(gate.hold(key(WM_KEYDOWN, 0x41), 1_299));
    assert!(!gate.hold(key(WM_KEYDOWN, 0x42), 1_300));
    assert_eq!(gate.held.len(), 1);
    gate.awaiting_worker_ack = true;
    assert!(!gate.handoff(7, 8, 200));
    assert!(gate.prepare_handoff_budget(7, 300));
    assert!(!gate.prepare_handoff_budget(7, 1_201));
    assert!(gate.handoff(7, 8, 200));
    assert_eq!(gate.token, 8);
    assert!(!gate.awaiting_worker_ack);
    assert!(gate.can_start_drain(8));
}

#[test]
fn deferred_hotkey_is_retargeted_only_to_the_same_input() {
    let mut gate = CorrectionGate::default();
    gate.activate(3, 0);
    gate.defer_hotkey(key(WM_KEYDOWN, 0x13));
    gate.defer_hotkey(key(WM_KEYDOWN, 0x41));
    let taken = gate.take_pending_hotkey(Some(context(21))).unwrap();
    assert_eq!(taken.virtual_key, 0x13);
    assert!(taken.hotkey_trigger);
    assert_eq!(taken.drain_token, 3);
    assert!(gate.take_pending_hotkey(Some(context(21))).is_none());
    gate.defer_hotkey(key(WM_KEYDOWN, 0x13));
    assert!(gate.take_pending_hotkey(Some(context(99))).is_none());
    assert!(gate.pending_hotkey.is_none());
}

#[test]
fn held_prefix_ends_at_the_first_space_press() {
    let mut held = vec![key(WM_KEYDOWN, 0x41), key(WM_KEYUP, 0x41), key(WM_KEYDOWN, 0x20), key(WM_KEYUP, 0x20)];
    let prefix = take_held_replay_prefix(&mut held);
    assert_eq!(prefix.len(), 3);
    assert_eq!(held.len(), 1);
    assert!(!held_tail_invalidates_undo(&held));
    let rest = take_held_replay_prefix(&mut held);
    assert_eq!(rest.len(), 1);
    assert!(held.is_empty());
    assert!(held_tail_invalidates_undo(&[key(WM_KEYDOWN, 0x41)]));
    assert!(!held_tail_invalidates_undo(&[key(WM_KEYDOWN, 0xA0)]));
}

#[test]
fn budgets_add_the_documented_waits() {
    assert_eq!(conversion_gate_budget_ms(1, true, false, false, true), Some(800));
    assert_eq!(conversion_gate_budget_ms(11, true, false, true, false), Some(830));
    assert_eq!(conversion_gate_budget_ms(0, false, true, false, false), Some(985));
    assert_eq!(conversion_gate_budget_ms(0, false, false, false, true), Some(585));
    assert!(paced_replay_fits_gate(134));
    assert!(!paced_replay_fits_gate(135));
}

#[test]
fn pause_hotkey_triggers_on_press_and_modified_hotkey_on_release() {
    let mut flags = ObserverFlags::default();
    assert_eq!(contextual_hotkey_action(&mut flags, WM_KEYDOWN, 0x13, 0), UndoHotkeyAction::TriggerSwallow);
    assert_eq!(contextual_hotkey_action(&mut flags, WM_KEYUP, 0x13, 0), UndoHotkeyAction::Swallow);
    assert!(!flags.undo_hotkey_active);
    let mut flags = ObserverFlags { force_hotkey_virtual_key: 0x7B, force_hotkey_modifiers: 1, ..ObserverFlags::default() };
    assert_eq!(contextual_hotkey_action(&mut flags, WM_KEYDOWN, 0x7B, 1), UndoHotkeyAction::Swallow);
    assert!(flags.hotkey_waiting_for_release);
    assert_eq!(contextual_hotkey_action(&mut flags, WM_KEYUP, 0x7B, 1), UndoHotkeyAction::Swallow);
    assert_eq!(contextual_hotkey_action(&mut flags, WM_KEYUP, 0xA2, 0), UndoHotkeyAction::TriggerPassThrough);
    assert!(!flags.hotkey_waiting_for_release);
    assert_eq!(contextual_hotkey_action(&mut flags, WM_KEYDOWN, 0x7B, 0), UndoHotkeyAction::PassThrough);
    let mut off = ObserverFlags { pause_break_undo: false, ..ObserverFlags::default() };
    assert_eq!(contextual_hotkey_action(&mut off, WM_KEYDOWN, 0x13, 0), UndoHotkeyAction::PassThrough);
}

#[test]
fn modifiers_track_left_right_and_generic_keys() {
    let mut m = Modifiers::default();
    assert!(m.update(0xA2, true, false));
    assert!(m.control() && m.has_shortcut_modifier());
    assert!(m.update(0xA3, true, false));
    assert!(m.update(0xA2, false, true));
    assert!(m.control());
    assert!(m.update(0xA3, false, true));
    assert!(!m.control());
    assert!(m.update(0x10, true, false));
    assert!(m.shift() && !m.has_shortcut_modifier());
    assert!(m.update(0x5C, true, false));
    assert!(m.has_shortcut_modifier());
    assert!(!m.update(0x41, true, false));
    assert_eq!(hotkey_modifier_bit(0xA5), Some(2));
    assert_eq!(hotkey_modifier_bit(0x41), None);
}

#[test]
fn keyboard_state_bits_change_only_at_the_index() {
    let mut state = [0x01u8; 256];
    set_pressed(&mut state, 0x41, true);
    assert_eq!(state[0x41], 0x81);
    set_pressed(&mut state, 0x41, false);
    assert_eq!(state[0x41], 0x01);
    set_pressed(&mut state, 300, true);
    assert!(state.iter().all(|b| *b == 0x01));
}

#[test]
fn layout_indicators_and_tray_modes() {
    assert_eq!(LayoutIndicator::from_layout(0x04090409), LayoutIndicator::English);
    assert_eq!(LayoutIndicator::from_layout(0x08190419), LayoutIndicator::Russian);
    assert_eq!(LayoutIndicator::from_layout(0x0425), LayoutIndicator::Estonian);
    assert_eq!(LayoutIndicator::from_layout(0x0411), LayoutIndicator::Japanese);
    assert_eq!(LayoutIndicator::from_layout(0x10000), LayoutIndicator::Unavailable);
    assert_eq!(LayoutIndicator::from_layout(0x0407), LayoutIndicator::Other(0x0407));
    assert_eq!(LayoutIndicator::Other(0x0407).tooltip_code(), "0x0407");
    assert_eq!(LayoutIndicator::Russian.tooltip_code(), "RUS");
    assert_eq!(LayoutIndicator::Other(1).icon_text(), "??");
    let status = TrayStatus::initial(LayoutIndicator::Estonian);
    assert_eq!(tray_visual_state(status), TrayVisual::Disabled);
    assert_eq!(tray_visual_state(TrayStatus { safety_paused: true, ..status }), TrayVisual::SafetyPaused);
    assert_eq!(tray_visual_state(TrayStatus { auto_enabled: true, ..status }), TrayVisual::Active);
    assert_eq!(background(TrayVisual::SafetyPaused), DISABLED_BACKGROUND);
    assert_eq!(background(TrayVisual::Active), ACTIVE_BACKGROUND);
    assert_eq!(tray_interaction(0x0203), TrayInteraction::Settings);
    assert_eq!(tray_interaction(0x007B), TrayInteraction::QuickMenu);
    assert_eq!(tray_interaction(0x0200), TrayInteraction::Ignore);
    assert!(TextEditBackend::ProtectedPaste.requires_text_barrier());
    assert_eq!(TextEditBackend::CapabilityProbe.status_code(), 3);
    assert!(should_arm_space_decision_gate(false, true, 0x20, true, 0, false, true));
    assert!(!should_arm_space_decision_gate(false, true, 0x20, true, 1, false, true));
}
