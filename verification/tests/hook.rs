use autokeyboardlayot_core::agent::{
    CorrectionGate, ForegroundContext, GateFailureCause, ObserverFlags, DRAINED_EVENT_MARKER, INJECTED_EVENT_MARKER,
    PRIVACY_ALLOWED, VK_SPACE, WM_KEYDOWN, WM_KEYUP,
};
use autokeyboardlayot_core::hook::{after_enqueue, after_forward, hook_step, HookEvent, HookQueue};

fn fg(hwnd: usize) -> ForegroundContext {
    ForegroundContext { hwnd, focus: 2, input_thread_id: 3, process_id: 4, layout: 0x0409_0409 }
}

fn edge(message: u32, virtual_key: u32) -> HookEvent {
    HookEvent {
        marker: 0,
        injected: false,
        message,
        virtual_key,
        scan_code: 0x39,
        caps_lock: false,
        extended: false,
        foreground: Some(fg(1)),
        modifiers: 0,
        shutdown: false,
        privacy_reason: PRIVACY_ALLOWED,
        shortcut_released: true,
        observed_sequence: 41,
    }
}

fn auto_flags() -> ObserverFlags {
    let mut flags = ObserverFlags::default();
    flags.auto_enabled = true;
    flags
}

#[test]
fn own_injected_edges_pass_untouched() {
    let mut gate = CorrectionGate::default();
    let mut flags = auto_flags();
    let mut retained = None;
    let event = HookEvent { marker: INJECTED_EVENT_MARKER, ..edge(WM_KEYDOWN, 0x41) };
    let (d, abort) = hook_step(&mut gate, &mut flags, &mut retained, event, 100);
    assert!(!d.swallow && d.forwarded.is_none() && d.enqueue == HookQueue::Nothing && abort.is_none());
}

#[test]
fn space_arms_the_gate_and_later_keys_are_held() {
    let mut gate = CorrectionGate::default();
    let mut flags = auto_flags();
    let mut retained = None;
    let (d, _) = hook_step(&mut gate, &mut flags, &mut retained, edge(WM_KEYDOWN, VK_SPACE as u32), 100);
    assert!(d.armed && !d.swallow);
    assert_eq!(d.forwarded, Some(42));
    assert!(gate.active && gate.token == 42);
    let (d, _) = hook_step(&mut gate, &mut flags, &mut retained, edge(WM_KEYDOWN, 0x41), 110);
    assert!(d.swallow && d.held && d.fail_open.is_none());
    assert_eq!(gate.held.len(), 1);
    let moved = HookEvent { foreground: Some(fg(9)), ..edge(WM_KEYDOWN, 0x42) };
    let (d, abort) = hook_step(&mut gate, &mut flags, &mut retained, moved, 120);
    assert_eq!(d.fail_open, Some(GateFailureCause::FocusChanged));
    assert!(!d.swallow && abort.unwrap().retained);
    assert!(!gate.active && retained.is_some());
}

#[test]
fn a_late_key_fails_the_gate_open_with_the_deadline() {
    let mut gate = CorrectionGate::default();
    let mut flags = auto_flags();
    let mut retained = None;
    hook_step(&mut gate, &mut flags, &mut retained, edge(WM_KEYDOWN, VK_SPACE as u32), 100);
    let (d, abort) = hook_step(&mut gate, &mut flags, &mut retained, edge(WM_KEYDOWN, 0x41), 100 + 1200);
    assert!(d.swallow && d.held);
    assert_eq!(d.fail_open, Some(GateFailureCause::Deadline));
    assert!(abort.unwrap().request_recovery);
    assert_eq!(retained.unwrap().events.len(), 1);
}

#[test]
fn external_injection_and_missing_focus_fail_open_and_notify() {
    let mut gate = CorrectionGate::default();
    let mut flags = auto_flags();
    let mut retained = None;
    hook_step(&mut gate, &mut flags, &mut retained, edge(WM_KEYDOWN, VK_SPACE as u32), 100);
    let injected = HookEvent { injected: true, ..edge(WM_KEYDOWN, 0x41) };
    let (d, _) = hook_step(&mut gate, &mut flags, &mut retained, injected, 110);
    assert_eq!(d.fail_open, Some(GateFailureCause::ExternalInjection));
    assert_eq!(d.enqueue, HookQueue::ExternalInjection);
    assert!(d.sequence_advanced && !gate.active);
    let lost = HookEvent { foreground: None, ..edge(WM_KEYDOWN, 0x41) };
    let (d, abort) = hook_step(&mut gate, &mut flags, &mut retained, lost, 120);
    assert_eq!(d.fail_open, None);
    assert_eq!(d.enqueue, HookQueue::ExternalInjection);
    assert!(abort.is_none());
}

#[test]
fn the_fence_key_up_reports_the_drain() {
    let mut gate = CorrectionGate::default();
    let mut flags = auto_flags();
    let mut retained = None;
    hook_step(&mut gate, &mut flags, &mut retained, edge(WM_KEYDOWN, VK_SPACE as u32), 100);
    gate.current_drain_count = 3;
    gate.drain_in_flight = true;
    let fence = HookEvent { marker: gate.fence_marker, ..edge(WM_KEYUP, 0x87) };
    let (d, _) = hook_step(&mut gate, &mut flags, &mut retained, fence, 110);
    assert!(d.swallow);
    assert_eq!(d.enqueue, HookQueue::DrainReady { token: 42, drained_count: 3, replay_succeeded: true });
    assert!(gate.awaiting_worker_ack && !gate.drain_in_flight && gate.current_drain_count == 0);
    let abort = after_enqueue(&mut gate, &mut retained, d, false, Some(fg(1)));
    assert!(abort.is_some() && !gate.active);
}

#[test]
fn a_consumed_drained_key_cancels_the_drain() {
    let mut gate = CorrectionGate::default();
    let mut flags = auto_flags();
    let mut retained = None;
    hook_step(&mut gate, &mut flags, &mut retained, edge(WM_KEYDOWN, VK_SPACE as u32), 100);
    let drained = HookEvent { marker: DRAINED_EVENT_MARKER, injected: true, ..edge(WM_KEYDOWN, 0x41) };
    let (d, _) = hook_step(&mut gate, &mut flags, &mut retained, drained, 110);
    assert!(d.drained && !d.swallow);
    let (outcome, abort) = after_forward(&mut gate, &mut retained, d, true, Some(fg(1)));
    assert_eq!(outcome.cancelled_token, Some(42));
    assert!(outcome.notify_injection && abort.is_none() && gate.cancelled && gate.drain_failed);
    let (outcome, _) = after_forward(&mut gate, &mut retained, d, false, Some(fg(1)));
    assert_eq!(outcome.delivered, d.forwarded);
}
