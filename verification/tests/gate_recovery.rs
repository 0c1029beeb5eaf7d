use autokeyboardlayot_core::agent::{
    CorrectionGate, DrainRetention, ForegroundContext, GateAbort, GateFailureCause, RawKeyEvent,
    RetainedInput, CORRECTION_GATE_CAPACITY, VK_LCONTROL, WM_KEYDOWN, WM_KEYUP,
};

fn foreground(thread: u32) -> ForegroundContext {
    ForegroundContext { hwnd: 1, focus: 1, input_thread_id: thread, process_id: 3, layout: 4 }
}

fn test_raw_key(message: u32, virtual_key: u16) -> RawKeyEvent {
    RawKeyEvent {
        message,
        virtual_key: u32::from(virtual_key),
        scan_code: 0x20,
        caps_lock: false,
        extended: false,
        foreground: foreground(2),
        sequence: 0,
        drain_token: 0,
        hotkey_trigger: false,
    }
}

#[test]
fn partial_submission_preserves_prefix_and_suffix_but_marks_delivery_uncertain() {
    let mut gate = CorrectionGate::default();
    let mut retained: Option<RetainedInput> = None;
    gate.activate(10, 0);
    let first = test_raw_key(WM_KEYDOWN, 0x47);
    let last = test_raw_key(WM_KEYUP, 0x48);
    gate.held.push(last);
    let outcome = gate.retain_failed_drain(&mut retained, 10, vec![first], 1, Some(foreground(2)));
    assert_eq!(
        outcome,
        DrainRetention::Aborted(GateAbort { token: 10, retained: true, failed: true, request_recovery: false })
    );
    let retained = retained.unwrap();
    assert_eq!(retained.events.len(), 2);
    assert_eq!(retained.events[0].virtual_key, first.virtual_key);
    assert_eq!(retained.events[1].virtual_key, last.virtual_key);
    assert!(retained.delivery_uncertain);
    assert!(!gate.active);
    assert!(gate.cancelled);
}

#[test]
fn cancellation_during_send_does_not_lose_the_unsent_prefix() {
    let mut gate = CorrectionGate::default();
    let mut retained: Option<RetainedInput> = None;
    gate.activate(10, 0);
    let first = test_raw_key(WM_KEYDOWN, 0x47);
    let last = test_raw_key(WM_KEYUP, 0x48);
    gate.held.push(last);
    let abort = gate.break_fail_open(GateFailureCause::Mouse, None, &mut retained).unwrap();
    assert!(abort.retained);
    assert!(!abort.request_recovery);
    assert_eq!(gate.retain_failed_drain(&mut retained, 10, vec![first], 0, None), DrainRetention::Merged);
    let retained = retained.unwrap();
    assert_eq!(retained.events.len(), 2);
    assert_eq!(retained.events[0].virtual_key, first.virtual_key);
    assert_eq!(retained.events[1].virtual_key, last.virtual_key);
    assert!(!retained.delivery_uncertain);
}

#[test]
fn expired_hold_preserves_swallowed_edges_for_recovery() {
    let mut gate = CorrectionGate::default();
    gate.activate(10, 0);
    let edge = test_raw_key(WM_KEYDOWN, 0x47);
    assert!(gate.hold(edge, 1));
    let expired = gate.deadline_ms + 1;
    assert!(!gate.hold(edge, expired));
    assert!(gate.active);
    assert_eq!(gate.held.len(), 1);
    assert_eq!(gate.held[0].virtual_key, edge.virtual_key);
}

#[test]
fn full_hold_preserves_every_edge_including_modifier_ups() {
    let mut gate = CorrectionGate::default();
    gate.activate(10, 0);
    let edge = test_raw_key(WM_KEYUP, VK_LCONTROL);
    for _ in 0..CORRECTION_GATE_CAPACITY {
        assert!(gate.hold(edge, 1));
    }
    assert!(!gate.hold(edge, 1));
    assert_eq!(gate.held.len(), CORRECTION_GATE_CAPACITY);
    assert!(gate.held.iter().all(|event| event.message == WM_KEYUP));
}

#[test]
fn empty_expired_gate_does_not_disable_automatic_conversion() {
    let mut gate = CorrectionGate::default();
    let mut retained: Option<RetainedInput> = None;
    assert_eq!(gate.break_fail_open(GateFailureCause::Deadline, None, &mut retained), None);
    gate.activate(7, 0);
    let abort = gate.break_fail_open(GateFailureCause::Deadline, None, &mut retained).unwrap();
    assert_eq!(abort, GateAbort { token: 7, retained: false, failed: false, request_recovery: false });
    assert!(retained.is_none());
    assert!(gate.cancelled);
}

#[test]
fn deadline_abort_retains_keys_at_the_current_target_and_requests_recovery() {
    let mut gate = CorrectionGate::default();
    let mut retained: Option<RetainedInput> = None;
    gate.activate(9, 0);
    gate.origin = Some(foreground(2));
    assert!(gate.hold(test_raw_key(WM_KEYDOWN, 0x41), 1));
    let moved = ForegroundContext { layout: 99, ..foreground(2) };
    let abort = gate.break_fail_open(GateFailureCause::Deadline, Some(moved), &mut retained).unwrap();
    assert!(abort.retained && abort.failed && abort.request_recovery);
    let kept = retained.unwrap();
    assert_eq!(kept.foreground, moved);
    assert_eq!(kept.token, 9);
    assert!(!kept.delivery_uncertain);

    let mut gate = CorrectionGate::default();
    let mut retained: Option<RetainedInput> = None;
    gate.activate(9, 0);
    gate.origin = Some(foreground(2));
    assert!(gate.hold(test_raw_key(WM_KEYDOWN, 0x41), 1));
    let elsewhere = foreground(5);
    let abort = gate.break_fail_open(GateFailureCause::DownstreamHook, Some(elsewhere), &mut retained).unwrap();
    assert!(!abort.request_recovery);
    let kept = retained.unwrap();
    assert_eq!(kept.foreground, foreground(2));
    assert!(kept.delivery_uncertain);
}

#[test]
fn a_report_for_another_token_is_ignored() {
    let mut gate = CorrectionGate::default();
    let mut retained: Option<RetainedInput> = None;
    gate.activate(3, 0);
    let outcome = gate.retain_failed_drain(&mut retained, 4, vec![test_raw_key(WM_KEYDOWN, 0x41)], 1, None);
    assert_eq!(outcome, DrainRetention::Ignored);
    assert!(gate.active);
    assert!(retained.is_none());
}
