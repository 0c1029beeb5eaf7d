use autokeyboardlayot_core::agent::{
    contextual_hotkey_action, held_tail_invalidates_undo, point_from_packed_word, supports_protected_paste,
    GateFailureCause, RetainedInput, INJECTED_EVENT_MARKER, UIA_DOCUMENT_CONTROL_TYPE_ID, UIA_EDIT_CONTROL_TYPE_ID,
    should_arm_space_decision_gate, take_held_replay_prefix, tray_interaction, CorrectionGate,
    ForegroundContext, Modifiers, ObserverFlags, RawKeyEvent, TrayInteraction, UndoHotkeyAction,
    GATE_FENCE_MARKER_BASE, NIN_KEYSELECT, NIN_SELECT, PRIVACY_ALLOWED, PRIVACY_PASSWORD, VK_CONTROL,
    VK_LCONTROL, VK_LSHIFT, VK_RSHIFT, VK_SPACE, WM_CONTEXTMENU, WM_KEYDOWN, WM_KEYUP,
};
use autokeyboardlayot_core::pack_id::{HOTKEY_MOD_ALT, HOTKEY_MOD_CONTROL, VK_PAUSE};
use autokeyboardlayot_core::replay::{build_paste_inputs, KEYEVENTF_KEYUP, VK_V_KEY};

const VK_F12: u16 = 0x7B;
const WM_TIMER: u32 = 0x0113;

fn test_raw_key(message: u32, virtual_key: u16, sequence: u64, drain_token: u64) -> RawKeyEvent {
    RawKeyEvent {
        message,
        virtual_key: u32::from(virtual_key),
        scan_code: 0x20,
        caps_lock: false,
        extended: false,
        foreground: ForegroundContext { hwnd: 1, focus: 1, input_thread_id: 2, process_id: 3, layout: 4 },
        sequence,
        drain_token,
        hotkey_trigger: false,
    }
}

#[test]
fn releasing_one_shift_does_not_clear_the_other_shift() {
    let mut modifiers = Modifiers::default();
    assert!(modifiers.update(u32::from(VK_LSHIFT), true, false));
    assert!(modifiers.update(u32::from(VK_RSHIFT), true, false));
    assert!(modifiers.update(u32::from(VK_LSHIFT), false, true));
    assert!(modifiers.shift());
    assert!(modifiers.update(u32::from(VK_RSHIFT), false, true));
    assert!(!modifiers.shift());
}

#[test]
fn held_replay_prefix_stops_after_first_space_down() {
    let mut held = vec![
        test_raw_key(WM_KEYDOWN, 0x47, 0, 0),
        test_raw_key(WM_KEYUP, 0x47, 0, 0),
        test_raw_key(WM_KEYDOWN, VK_SPACE, 0, 0),
        test_raw_key(WM_KEYUP, VK_SPACE, 0, 0),
        test_raw_key(WM_KEYDOWN, 0x48, 0, 0),
        test_raw_key(WM_KEYUP, 0x48, 0, 0),
    ];
    let prefix = take_held_replay_prefix(&mut held);
    assert_eq!(prefix.len(), 3);
    assert_eq!(prefix.last().map(|event| event.virtual_key), Some(0x20));
    assert!(matches!(prefix.last().map(|event| event.message), Some(WM_KEYDOWN)));
    assert_eq!(held.len(), 3);
    assert_eq!(held[0].virtual_key, u32::from(VK_SPACE));
    assert_eq!(held[0].message, WM_KEYUP);
}

#[test]
fn matching_space_up_tail_preserves_undo() {
    let space_up = [test_raw_key(WM_KEYUP, VK_SPACE, 0, 0)];
    assert!(!held_tail_invalidates_undo(&space_up));
    let space_down = [test_raw_key(WM_KEYDOWN, VK_SPACE, 0, 0)];
    assert!(held_tail_invalidates_undo(&space_down));
    let next_key = [test_raw_key(WM_KEYDOWN, 0x47, 0, 0)];
    assert!(held_tail_invalidates_undo(&next_key));
}

#[test]
fn gate_handoff_preserves_suffix_and_absolute_deadline() {
    let now: u64 = 1_000;
    let mut gate = CorrectionGate::default();
    gate.activate(10, now);
    gate.awaiting_worker_ack = true;
    gate.current_drain_count = 4;
    gate.released_count = 4;
    gate.held.push(test_raw_key(WM_KEYDOWN, 0x48, 0, 0));
    let deadline = gate.deadline_ms;
    assert!(gate.prepare_handoff_budget(10, 100));
    assert!(gate.handoff(10, 20, now));
    assert!(gate.active);
    assert_eq!(gate.token, 20);
    assert_eq!(gate.fence_marker, GATE_FENCE_MARKER_BASE | 20);
    assert_eq!(gate.held.len(), 1);
    assert_eq!(gate.released_count, 0);
    assert_eq!(gate.current_drain_count, 0);
    assert!(!gate.awaiting_worker_ack);
    assert_eq!(gate.deadline_ms, deadline);
    assert!(!gate.handoff(10, 30, now));
}

#[test]
fn deferred_pause_never_moves_to_a_different_control() {
    let mut gate = CorrectionGate::default();
    gate.activate(10, 0);
    let event = test_raw_key(WM_KEYDOWN, VK_PAUSE, 20, 0);
    gate.defer_hotkey(event);
    let changed = ForegroundContext { focus: 99, ..event.foreground };
    assert!(gate.take_pending_hotkey(Some(changed)).is_none());
    assert!(gate.pending_hotkey.is_none());
}

#[test]
fn repeated_pause_is_coalesced_and_deferred_request_is_undo_only() {
    let mut gate = CorrectionGate::default();
    gate.activate(10, 0);
    let first = test_raw_key(WM_KEYDOWN, VK_PAUSE, 20, 0);
    gate.defer_hotkey(first);
    gate.defer_hotkey(test_raw_key(WM_KEYDOWN, VK_PAUSE, 21, 0));
    let pending = gate.take_pending_hotkey(Some(first.foreground)).unwrap();
    assert_eq!(pending.sequence, 20);
    assert_eq!(pending.drain_token, 10);
    assert!(pending.hotkey_trigger);
    assert!(gate.take_pending_hotkey(Some(first.foreground)).is_none());
}

#[test]
fn physical_space_down_arms_the_decision_gate_before_space_up() {
    assert!(should_arm_space_decision_gate(false, true, VK_SPACE, true, PRIVACY_ALLOWED, false, true));
    assert!(!should_arm_space_decision_gate(true, true, VK_SPACE, true, PRIVACY_ALLOWED, false, true));
    assert!(!should_arm_space_decision_gate(false, false, VK_SPACE, true, PRIVACY_ALLOWED, false, true));
    assert!(!should_arm_space_decision_gate(false, true, VK_SPACE, true, PRIVACY_PASSWORD, false, true));
    assert!(!should_arm_space_decision_gate(false, true, VK_SPACE, true, PRIVACY_ALLOWED, true, true));
    assert!(!should_arm_space_decision_gate(false, true, VK_SPACE, true, PRIVACY_ALLOWED, false, false));
}

#[test]
fn win_space_never_arms_or_holds_the_decision_gate() {
    assert!(!should_arm_space_decision_gate(false, true, VK_SPACE, true, PRIVACY_ALLOWED, false, false));
}

#[test]
fn configurable_hotkey_triggers_once_and_waits_for_modifier_release() {
    let mut flags = ObserverFlags::default();
    flags.force_hotkey_virtual_key = u32::from(VK_F12);
    assert_eq!(contextual_hotkey_action(&mut flags, WM_KEYDOWN, VK_F12, 0), UndoHotkeyAction::TriggerSwallow);
    assert_eq!(contextual_hotkey_action(&mut flags, WM_KEYDOWN, VK_F12, 0), UndoHotkeyAction::Swallow);
    assert_eq!(contextual_hotkey_action(&mut flags, WM_KEYUP, VK_F12, 0), UndoHotkeyAction::Swallow);

    flags.force_hotkey_virtual_key = u32::from(VK_F12);
    flags.force_hotkey_modifiers = HOTKEY_MOD_CONTROL;
    assert_eq!(
        contextual_hotkey_action(&mut flags, WM_KEYDOWN, VK_F12, HOTKEY_MOD_CONTROL),
        UndoHotkeyAction::Swallow
    );
    assert_eq!(
        contextual_hotkey_action(&mut flags, WM_KEYUP, VK_F12, HOTKEY_MOD_CONTROL),
        UndoHotkeyAction::Swallow
    );
    assert_eq!(
        contextual_hotkey_action(&mut flags, WM_KEYUP, VK_CONTROL, 0),
        UndoHotkeyAction::TriggerPassThrough
    );

    flags.pause_break_undo = false;
    assert_eq!(
        contextual_hotkey_action(&mut flags, WM_KEYDOWN, VK_F12, HOTKEY_MOD_CONTROL),
        UndoHotkeyAction::PassThrough
    );
}

#[test]
fn hotkey_handles_modifier_first_release_and_unrelated_shortcuts() {
    let mut flags = ObserverFlags::default();
    flags.force_hotkey_virtual_key = u32::from(VK_F12);
    flags.force_hotkey_modifiers = HOTKEY_MOD_CONTROL;
    assert_eq!(contextual_hotkey_action(&mut flags, WM_KEYDOWN, VK_F12, HOTKEY_MOD_ALT), UndoHotkeyAction::PassThrough);
    assert_eq!(contextual_hotkey_action(&mut flags, WM_KEYUP, VK_F12, HOTKEY_MOD_ALT), UndoHotkeyAction::PassThrough);
    assert_eq!(
        contextual_hotkey_action(&mut flags, WM_KEYDOWN, VK_F12, HOTKEY_MOD_CONTROL),
        UndoHotkeyAction::Swallow
    );
    assert_eq!(
        contextual_hotkey_action(&mut flags, WM_KEYUP, VK_LCONTROL, 0),
        UndoHotkeyAction::TriggerPassThrough
    );
    assert_eq!(contextual_hotkey_action(&mut flags, WM_KEYDOWN, VK_F12, 0), UndoHotkeyAction::Swallow);
    assert_eq!(contextual_hotkey_action(&mut flags, WM_KEYUP, VK_F12, 0), UndoHotkeyAction::Swallow);
}

#[test]
fn pause_pulses_and_ctrl_break_rearm_without_a_pause_key_up() {
    let mut flags = ObserverFlags::default();
    for _ in 0..3 {
        assert_eq!(
            contextual_hotkey_action(&mut flags, WM_KEYDOWN, VK_PAUSE, 0),
            UndoHotkeyAction::TriggerSwallow
        );
    }
    flags.undo_hotkey_active = false;
    flags.force_hotkey_modifiers = HOTKEY_MOD_CONTROL;
    for _ in 0..3 {
        assert_eq!(
            contextual_hotkey_action(&mut flags, WM_KEYDOWN, 0x03, HOTKEY_MOD_CONTROL),
            UndoHotkeyAction::Swallow
        );
        assert_eq!(
            contextual_hotkey_action(&mut flags, WM_KEYUP, VK_LCONTROL, 0),
            UndoHotkeyAction::TriggerPassThrough
        );
    }
}

#[test]
fn right_click_opens_menu_and_left_click_opens_settings() {
    assert_eq!(tray_interaction(WM_CONTEXTMENU), TrayInteraction::QuickMenu);
    assert_eq!(tray_interaction(NIN_KEYSELECT), TrayInteraction::Settings);
    assert_eq!(tray_interaction(NIN_SELECT), TrayInteraction::Settings);
    assert_eq!(tray_interaction(WM_TIMER), TrayInteraction::Ignore);
}

#[test]
fn decodes_signed_version_four_interaction_coordinates() {
    let x = -12i16;
    let y = 345i16;
    let packed = u32::from(x as u16) | (u32::from(y as u16) << 16);
    let point = point_from_packed_word(packed as usize);
    assert_eq!(point.0, i32::from(x));
    assert_eq!(point.1, i32::from(y));
}

#[test]
fn protected_paste_chord_is_marked_and_balanced() {
    let inputs = build_paste_inputs();
    assert_eq!(inputs[0].virtual_key, VK_LCONTROL);
    assert_eq!(inputs[0].flags, 0);
    assert_eq!(inputs[1].virtual_key, VK_V_KEY);
    assert_eq!(inputs[1].flags, 0);
    assert_eq!(inputs[2].virtual_key, VK_V_KEY);
    assert_eq!(inputs[2].flags, KEYEVENTF_KEYUP);
    assert_eq!(inputs[3].virtual_key, VK_LCONTROL);
    assert_eq!(inputs[3].flags, KEYEVENTF_KEYUP);
    for input in inputs {
        assert_eq!(input.marker, INJECTED_EVENT_MARKER);
    }
}

#[test]
fn protected_paste_requires_an_editable_uia_control_type() {
    const UIA_TEXT_CONTROL_TYPE_ID: i32 = 50020;
    assert!(supports_protected_paste(UIA_DOCUMENT_CONTROL_TYPE_ID));
    assert!(supports_protected_paste(UIA_EDIT_CONTROL_TYPE_ID));
    assert!(!supports_protected_paste(UIA_TEXT_CONTROL_TYPE_ID));
}

#[test]
fn abort_retains_all_held_input_without_a_worker() {
    let mut gate = CorrectionGate::default();
    let mut retained: Option<RetainedInput> = None;
    gate.activate(10, 0);
    gate.held.push(test_raw_key(WM_KEYDOWN, 0x47, 0, 0));
    gate.held.push(test_raw_key(WM_KEYUP, VK_LCONTROL, 0, 0));
    let abort = gate.break_fail_open(GateFailureCause::Deadline, None, &mut retained).unwrap();
    assert_eq!(retained.as_ref().unwrap().events.len(), 2);
    assert!(!gate.active);
    assert!(abort.failed);
    assert!(abort.request_recovery);
}
