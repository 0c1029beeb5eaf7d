use autokeyboardlayot_core::agent::{
    conversion_gate_budget_ms, merge_lexicon_entry, paced_replay_fits_gate,
    pressed_hotkey_modifiers_for_event, CorrectionGate, ForegroundContext, LexiconOfferTarget,
    RawKeyEvent, VolatileLexiconCandidate, DRAINED_EVENT_MARKER, INJECTED_EVENT_MARKER,
    LEXICON_OFFER_MS, VK_BACK, VK_CONTROL, VK_LCONTROL, VK_LSHIFT, VK_LWIN, VK_RCONTROL, VK_RWIN, VK_SHIFT,
    VK_SPACE, WM_KEYDOWN, WM_KEYUP,
};
use autokeyboardlayot_core::agent::{
    next_layout_in_cycle, prepare_translation_state, translated_character, LayoutCycleDecision, Modifiers,
    VK_CAPITAL, VK_MENU,
};
use autokeyboardlayot_core::pack_id::Language;
use autokeyboardlayot_core::replay::{
    build_held_replay_inputs, build_physical_replay_plan, build_raw_replay_inputs,
    build_recovery_inputs, dispatch_next_step, replay_key_from_event, DispatchAction,
    DispatchEvent, PhysicalReplayMode, PhysicalReplayPlan, ReplayAttempt, ReplayDispatch,
    ReplayKey, KEYEVENTF_EXTENDEDKEY, KEYEVENTF_KEYUP, KEYEVENTF_SCANCODE, VK_F24,
};

const VK_RIGHT: u32 = 0x27;

fn foreground() -> ForegroundContext {
    ForegroundContext { hwnd: 1, focus: 1, input_thread_id: 2, process_id: 3, layout: 4 }
}

fn raw(message: u32, virtual_key: u32, scan_code: u32, extended: bool) -> RawKeyEvent {
    RawKeyEvent {
        message,
        virtual_key,
        scan_code,
        caps_lock: false,
        extended,
        foreground: foreground(),
        sequence: 0,
        drain_token: 0,
        hotkey_trigger: false,
    }
}

fn key(scan_code: u16, shift: bool) -> ReplayKey {
    ReplayKey { scan_code, shift, caps_lock: false, extended: false }
}

/// Drives a dispatch the way the platform adapter does.
fn dispatch(
    plan: &PhysicalReplayPlan,
    mode: PhysicalReplayMode,
    mut guard: impl FnMut() -> bool,
    mut send: impl FnMut(usize) -> bool,
    mut pace: impl FnMut(),
) -> ReplayAttempt {
    let mut state = ReplayDispatch::new(mode);
    let mut event = DispatchEvent::Started;
    loop {
        let (next, action) = dispatch_next_step(plan, state, event);
        state = next;
        event = match action {
            DispatchAction::CheckGuard => DispatchEvent::GuardChecked(guard()),
            DispatchAction::Send(start, end) => DispatchEvent::Sent(send(end - start)),
            DispatchAction::Pace => {
                pace();
                DispatchEvent::Paced
            }
            DispatchAction::Finish(outcome) => return outcome,
        };
    }
}

#[test]
fn builds_one_marked_physical_replay_plan() {
    let keys = [key(0x23, false), key(0x12, true)];
    let plan = build_physical_replay_plan(2, &keys, Some(' ')).expect("bounded physical replay should build");
    let inputs = &plan.inputs;
    assert_eq!(inputs.len(), 12);
    for input in inputs {
        assert_eq!(input.marker, INJECTED_EVENT_MARKER);
    }
    assert_eq!(inputs[0].virtual_key, VK_BACK);
    assert_eq!(inputs[0].flags, 0);
    assert_eq!(inputs[1].flags, KEYEVENTF_KEYUP);
    assert_eq!(inputs[4].virtual_key, 0);
    assert_eq!(inputs[4].scan_code, 0x23);
    assert_eq!(inputs[4].flags, KEYEVENTF_SCANCODE);
    assert_eq!(inputs[6].virtual_key, VK_LSHIFT);
    assert_eq!(inputs[6].flags, 0);
    assert_eq!(inputs[7].scan_code, 0x12);
    assert_eq!(inputs[7].flags, KEYEVENTF_SCANCODE);
    assert_eq!(inputs[8].scan_code, 0x12);
    assert_eq!(inputs[8].flags, KEYEVENTF_SCANCODE | KEYEVENTF_KEYUP);
    assert_eq!(inputs[9].virtual_key, VK_LSHIFT);
    assert_eq!(inputs[9].flags, KEYEVENTF_KEYUP);
    assert_eq!(inputs[10].virtual_key, VK_SPACE);
    assert_eq!(plan.step_ends, [2, 4, 6, 10, 12]);
}

#[test]
fn extended_scan_code_is_preserved_in_physical_replay() {
    let key = ReplayKey { scan_code: 0x1c, shift: false, caps_lock: false, extended: true };
    let plan = build_physical_replay_plan(1, &[key], Some(' ')).expect("valid replay plan");
    assert_eq!(plan.inputs[2].flags, KEYEVENTF_SCANCODE | KEYEVENTF_EXTENDEDKEY);
    assert_eq!(plan.inputs[3].flags, KEYEVENTF_SCANCODE | KEYEVENTF_EXTENDEDKEY | KEYEVENTF_KEYUP);
}

#[test]
fn hotkey_replay_does_not_insert_an_artificial_space() {
    let key = key(0x15, false);
    let plan = build_physical_replay_plan(1, &[key], None).expect("valid hotkey replay");
    assert_eq!(plan.step_ends, [2, 4]);
    assert_eq!(plan.inputs.len(), 4);
    assert_eq!(plan.inputs[3].scan_code, key.scan_code);
    assert_eq!(plan.inputs[3].flags, KEYEVENTF_SCANCODE | KEYEVENTF_KEYUP);
}

#[test]
fn oversized_or_empty_replays_and_other_delimiters_are_refused() {
    let keys = vec![key(0x23, false); 129];
    assert!(build_physical_replay_plan(1, &keys, None).is_none());
    assert!(build_physical_replay_plan(129, &keys[..1], None).is_none());
    assert!(build_physical_replay_plan(1, &[], None).is_none());
    assert!(build_physical_replay_plan(1, &keys[..1], Some('\t')).is_none());
    assert!(build_physical_replay_plan(128, &keys[..128], Some(' ')).is_some());
}

#[test]
fn terminal_dispatch_keeps_one_full_batch() {
    let plan = build_physical_replay_plan(1, &[key(0x23, false)], Some(' ')).expect("valid plan");
    let mut send_lengths = Vec::new();
    let mut pace_calls = 0;
    let result = dispatch(
        &plan,
        PhysicalReplayMode::Batch,
        || true,
        |length| {
            send_lengths.push(length);
            true
        },
        || pace_calls += 1,
    );
    assert_eq!(result, ReplayAttempt::Applied);
    assert_eq!(send_lengths, [plan.inputs.len()]);
    assert_eq!(pace_calls, 0);
}

#[test]
fn notepad_dispatch_sends_atomic_steps_with_pacing_between_them() {
    let keys = [key(0x23, false), key(0x12, true)];
    let plan = build_physical_replay_plan(2, &keys, Some(' ')).expect("valid plan");
    let mut send_lengths = Vec::new();
    let mut pace_calls = 0;
    let result = dispatch(
        &plan,
        PhysicalReplayMode::Paced,
        || true,
        |length| {
            send_lengths.push(length);
            true
        },
        || pace_calls += 1,
    );
    assert_eq!(result, ReplayAttempt::Applied);
    assert_eq!(send_lengths, [2, 2, 2, 4, 2]);
    assert_eq!(pace_calls, 4);
}

#[test]
fn paced_dispatch_stops_after_a_failed_logical_step() {
    let plan = build_physical_replay_plan(2, &[key(0x23, false)], Some(' ')).expect("valid plan");
    let mut send_calls = 0;
    let mut pace_calls = 0;
    let result = dispatch(
        &plan,
        PhysicalReplayMode::Paced,
        || true,
        |_| {
            send_calls += 1;
            send_calls != 3
        },
        || pace_calls += 1,
    );
    assert_eq!(result, ReplayAttempt::Failed);
    assert_eq!(send_calls, 3);
    assert_eq!(pace_calls, 2);
}

#[test]
fn paced_dispatch_reports_guard_loss_after_edit_as_failure() {
    let plan = build_physical_replay_plan(1, &[key(0x23, false)], Some(' ')).expect("valid plan");
    let mut guard_calls = 0;
    let mut send_calls = 0;
    let result = dispatch(
        &plan,
        PhysicalReplayMode::Paced,
        || {
            guard_calls += 1;
            guard_calls <= 2
        },
        |_| {
            send_calls += 1;
            true
        },
        || {},
    );
    assert_eq!(result, ReplayAttempt::Failed);
    assert_eq!(send_calls, 1);
}

#[test]
fn guard_loss_before_anything_is_sent_cancels() {
    let plan = build_physical_replay_plan(1, &[key(0x23, false)], None).expect("valid plan");
    for mode in [PhysicalReplayMode::Batch, PhysicalReplayMode::Paced] {
        let mut sent = 0;
        assert_eq!(dispatch(&plan, mode, || false, |_| { sent += 1; true }, || {}), ReplayAttempt::Cancelled);
        assert_eq!(sent, 0);
    }
    let mut guard_calls = 0;
    let result = dispatch(
        &plan,
        PhysicalReplayMode::Paced,
        || {
            guard_calls += 1;
            guard_calls == 1
        },
        |_| true,
        || {},
    );
    assert_eq!(result, ReplayAttempt::Cancelled);
    let empty = PhysicalReplayPlan { inputs: Vec::new(), step_ends: Vec::new() };
    assert_eq!(dispatch(&empty, PhysicalReplayMode::Batch, || true, |_| true, || {}), ReplayAttempt::Failed);
    let torn = PhysicalReplayPlan { inputs: plan.inputs.clone(), step_ends: vec![2, 2, 4] };
    assert_eq!(dispatch(&torn, PhysicalReplayMode::Paced, || true, |_| true, || {}), ReplayAttempt::Failed);
}

#[test]
fn maximum_session_word_fits_the_paced_gate_budget() {
    let keys = vec![key(0x23, false); 64];
    let plan = build_physical_replay_plan(65, &keys, Some(' ')).expect("valid maximum plan");
    assert_eq!(plan.step_ends.len(), 130);
    assert!(paced_replay_fits_gate(plan.step_ends.len()));
    assert!(!paced_replay_fits_gate(135));
    assert_eq!(conversion_gate_budget_ms(plan.step_ends.len(), true, false, true, false), Some(1_187));
    assert_eq!(conversion_gate_budget_ms(14, true, false, true, false), Some(839));
    assert_eq!(conversion_gate_budget_ms(14, false, true, true, false), Some(985));

    let now = 1_000;
    let mut gate = CorrectionGate::default();
    gate.activate(10, now);
    gate.awaiting_worker_ack = true;
    assert!(gate.prepare_handoff_budget(10, 839));
    gate.deadline_ms = now + 838;
    assert!(!gate.handoff(10, 20, now));

    gate.activate(10, now);
    gate.awaiting_worker_ack = true;
    assert!(gate.prepare_handoff_budget(10, 789));
    gate.deadline_ms = now + 850;
    assert!(gate.handoff(10, 20, now));
}

#[test]
fn gate_holds_full_raw_edges_and_replay_ends_with_a_fence() {
    let down = raw(WM_KEYDOWN, VK_RIGHT, 0x4d, true);
    let up = RawKeyEvent { message: WM_KEYUP, ..down };
    let mut gate = CorrectionGate::default();
    gate.activate(42, 0);
    assert!(gate.hold(down, 1));
    assert!(gate.hold(up, 2));
    assert_eq!(gate.held.len(), 2);
    let inputs = build_held_replay_inputs(&gate.held, gate.fence_marker).expect("held edges and fence should build");
    assert_eq!(inputs.len(), 4);
    assert_eq!(inputs[0].marker, DRAINED_EVENT_MARKER);
    assert_eq!(inputs[0].flags, KEYEVENTF_SCANCODE | KEYEVENTF_EXTENDEDKEY);
    assert_eq!(inputs[1].flags, KEYEVENTF_SCANCODE | KEYEVENTF_EXTENDEDKEY | KEYEVENTF_KEYUP);
    assert_eq!(inputs[2].virtual_key, VK_F24);
    assert_eq!(inputs[2].marker, gate.fence_marker);
    assert_eq!(inputs[3].flags, KEYEVENTF_KEYUP);
    assert!(build_held_replay_inputs(&gate.held, 0).is_none());
}

#[test]
fn recovery_balances_an_unmatched_modifier_and_never_adds_a_fence() {
    let edge = raw(WM_KEYDOWN, u32::from(VK_LWIN), 0x5b, true);
    let inputs = build_recovery_inputs(&[edge]).unwrap();
    assert_eq!(inputs.len(), 2);
    assert_eq!(inputs[1].flags, KEYEVENTF_SCANCODE | KEYEVENTF_EXTENDEDKEY | KEYEVENTF_KEYUP);
    assert!(inputs.iter().all(|input| input.marker == INJECTED_EVENT_MARKER));
}

#[test]
fn recovery_releases_only_keys_left_down_in_key_order() {
    let shift_down = raw(WM_KEYDOWN, u32::from(VK_SHIFT), 0x2a, false);
    let a_down = raw(WM_KEYDOWN, 0x41, 0x1e, false);
    let a_up = RawKeyEvent { message: WM_KEYUP, ..a_down };
    let control_down = raw(WM_KEYDOWN, u32::from(VK_CONTROL), 0x1d, false);
    let inputs = build_recovery_inputs(&[control_down, shift_down, a_down, a_up]).unwrap();
    assert_eq!(inputs.len(), 6);
    assert_eq!(inputs[4].scan_code, 0x2a);
    assert_eq!(inputs[4].flags, KEYEVENTF_SCANCODE | KEYEVENTF_KEYUP);
    assert_eq!(inputs[5].scan_code, 0x1d);
    assert!(build_recovery_inputs(&[]).is_none());
    let odd = raw(0x0102, 0x41, 0x1e, false);
    assert!(build_recovery_inputs(&[odd]).is_none());
}

#[test]
fn raw_edges_without_a_scan_code_replay_by_virtual_key() {
    let edge = raw(WM_KEYUP, 0x41, 0, false);
    let inputs = build_raw_replay_inputs(&[edge], 7).unwrap();
    assert_eq!(inputs[0].virtual_key, 0x41);
    assert_eq!(inputs[0].scan_code, 0);
    assert_eq!(inputs[0].flags, KEYEVENTF_KEYUP);
    assert_eq!(inputs[0].marker, 7);
    assert!(build_raw_replay_inputs(&[raw(WM_KEYDOWN, 0x1_0000, 0, false)], 7).is_none());
}

#[test]
fn replay_keys_need_a_scan_code() {
    let edge = raw(WM_KEYDOWN, 0x41, 0x1e, false);
    assert_eq!(
        replay_key_from_event(edge, true),
        Some(ReplayKey { scan_code: 0x1e, shift: true, caps_lock: false, extended: false })
    );
    assert_eq!(replay_key_from_event(raw(WM_KEYDOWN, 0x41, 0, false), false), None);
    assert_eq!(replay_key_from_event(raw(WM_KEYDOWN, 0x41, 0x1_0000, false), false), None);
}

#[test]
fn hotkey_modifiers_follow_the_edge_and_the_other_side() {
    assert_eq!(pressed_hotkey_modifiers_for_event(0x41, true, false, &[]), 0);
    assert_eq!(pressed_hotkey_modifiers_for_event(VK_LCONTROL, true, false, &[]), 1);
    assert_eq!(pressed_hotkey_modifiers_for_event(0x41, true, false, &[VK_CONTROL, VK_SHIFT, VK_RWIN]), 13);
    assert_eq!(pressed_hotkey_modifiers_for_event(VK_LCONTROL, false, true, &[VK_CONTROL, VK_LCONTROL]), 0);
    assert_eq!(pressed_hotkey_modifiers_for_event(VK_LCONTROL, false, true, &[VK_CONTROL, VK_RCONTROL]), 1);
    assert_eq!(pressed_hotkey_modifiers_for_event(VK_LWIN, false, true, &[VK_LWIN, VK_RWIN]), 8);
    assert_eq!(pressed_hotkey_modifiers_for_event(VK_LWIN, false, true, &[VK_LWIN]), 0);
}

#[test]
fn lexicon_offer_expires_and_merges_idempotently() {
    let now: u64 = 10_000;
    let candidate =
        VolatileLexiconCandidate::new(LexiconOfferTarget::WordExclusions, Language::English, "HF,JNFTN".to_owned(), now);
    assert!(candidate.is_valid_at(now));
    assert!(!candidate.is_valid_at(now + LEXICON_OFFER_MS + 1_000));
    let template = "# Source-layout words that must never be converted.\n";
    let merged = merge_lexicon_entry(template, &candidate).expect("valid exclusion");
    assert!(merged.contains("en-US: hf,jnftn"));
    assert_eq!(merge_lexicon_entry(&merged, &candidate), Some(merged.clone()));
    let unterminated = merge_lexicon_entry("ru-RU: мир", &candidate).unwrap();
    assert_eq!(unterminated, "ru-RU: мир\nen-US: hf,jnftn\n");
    let blank = VolatileLexiconCandidate::new(LexiconOfferTarget::UserDictionary, Language::English, "  ".to_owned(), now);
    assert_eq!(merge_lexicon_entry("", &blank), None);
}

#[test]
fn translation_output_must_encode_exactly_one_character() {
    let mut output = [0u16; 8];
    output[0] = 0x0444;
    assert_eq!(translated_character(&output, 1), Some('ф'));
    assert_eq!(translated_character(&output, 0), None);
    assert_eq!(translated_character(&output, -1), None);
    output[1] = 0x0061;
    assert_eq!(translated_character(&output, 2), None);
    output[0] = 0xD83E;
    output[1] = 0xDD80;
    assert_eq!(translated_character(&output, 2), Some('🦀'));
    assert_eq!(translated_character(&output, 1), None);
    output[0] = 0xDD80;
    assert_eq!(translated_character(&output, 1), None);
    output[0] = 0x0061;
    output[1] = 0x0062;
    output[2] = 0x0063;
    assert_eq!(translated_character(&output, 3), None);
}

#[test]
fn translation_state_presses_the_key_and_tracked_modifiers() {
    let mut state = [0u8; 256];
    state[usize::from(VK_CONTROL)] = 0x81;
    state[usize::from(VK_SHIFT)] = 0x01;
    let mut event = raw(WM_KEYDOWN, 0x41, 0x1e, false);
    event.caps_lock = true;
    let modifiers = Modifiers { shift_mask: 1, control_mask: 0, alt_mask: 0, win_mask: 0 };
    prepare_translation_state(&mut state, event, modifiers);
    assert_eq!(state[0x41], 0x80);
    assert_eq!(state[usize::from(VK_SHIFT)], 0x81);
    assert_eq!(state[usize::from(VK_CONTROL)], 0x01);
    assert_eq!(state[usize::from(VK_MENU)], 0x00);
    assert_eq!(state[usize::from(VK_CAPITAL)], 1);
    let mut untouched = [7u8; 256];
    prepare_translation_state(&mut untouched, raw(WM_KEYDOWN, 0x1_0000, 0, false), Modifiers::default());
    assert_eq!(untouched[usize::from(VK_CAPITAL)], 0);
    assert_eq!(untouched[0], 7);
}

#[test]
fn layout_cycle_skips_layouts_that_give_the_same_text() {
    let order = [Language::English, Language::Russian, Language::Estonian];
    let mapped = vec![Some("hello".to_string()), Some("руддщ".to_string()), Some("hello".to_string())];
    assert_eq!(next_layout_in_cycle(&order, &Language::English, &mapped, "hello"), LayoutCycleDecision::Target(1));
    assert_eq!(next_layout_in_cycle(&order, &Language::Russian, &mapped, "руддщ"), LayoutCycleDecision::Target(2));
    let wrapped = vec![Some("tere".to_string()), None, Some("ter".to_string())];
    assert_eq!(next_layout_in_cycle(&order, &Language::Estonian, &wrapped, "ter"), LayoutCycleDecision::Target(0));
    let unmapped = vec![Some("hello".to_string()), None, Some("hello".to_string())];
    assert_eq!(next_layout_in_cycle(&order, &Language::English, &unmapped, "hello"), LayoutCycleDecision::Identical);
    assert_eq!(next_layout_in_cycle(&order, &Language::Japanese, &mapped, "hello"), LayoutCycleDecision::UnsupportedLayout);
    assert_eq!(
        next_layout_in_cycle(&order[..1], &Language::English, &mapped[..1], "hello"),
        LayoutCycleDecision::SingleLayout
    );
}
