use autokeyboardlayot_core::agent::{
    should_notify_conversion_failure, ConversionFailureReason, LayoutIndicator, TextBarrierStatus, TextEditBackend,
    TrayStatus,
};
use autokeyboardlayot_core::edit_pipeline::{
    hotkey_press, next_cycle_target, queue_route, QueueAction, QueuedKind, paste_start, paste_step, PasteAction, PasteEvent, record_conversion_failure, space_arms_conversion, space_follow_up, HotkeyPress, SpaceFollowUp, conversion_step, undo_step, ConversionAction, ConversionChecks, ConversionEvent, ConversionStage, EditStrategy,
    TextEditAttempt, UndoAction, UndoChecks, UndoEvent, UndoStage,
};
use autokeyboardlayot_core::replay::ReplayAttempt;

fn all_undo_checks() -> UndoChecks {
    UndoChecks {
        record_present: true,
        sequence_current: true,
        privacy_blocked: false,
        generation_matches: true,
        source_language_matches: true,
        inventory_current: true,
        modifiers_released: true,
        foreground_matches: true,
        target_language_matches: true,
    }
}

fn all_conversion_checks() -> ConversionChecks {
    ConversionChecks {
        pending_present: true,
        sequence_matches: true,
        enabled: true,
        privacy_blocked: false,
        profiles_match: true,
        guard_current: true,
    }
}

#[test]
fn undo_replays_and_offers_exclusion_only_after_every_check() {
    let s = EditStrategy::PhysicalReplay;
    let (stage, action) = undo_step(UndoStage::Checking, s, true, UndoEvent::Checked(all_undo_checks()));
    assert_eq!((stage, action), (UndoStage::Gate, UndoAction::ArmGate));
    let (stage, action) = undo_step(stage, s, true, UndoEvent::GateArmed(true));
    assert_eq!((stage, action), (UndoStage::Replay, UndoAction::Replay));
    let (stage, action) = undo_step(stage, s, true, UndoEvent::Replayed(ReplayAttempt::Applied));
    assert_eq!((stage, action), (UndoStage::Commit, UndoAction::AwaitCommit));
    let (stage, action) = undo_step(stage, s, true, UndoEvent::Committed(ReplayAttempt::Applied));
    assert_eq!((stage, action), (UndoStage::Done, UndoAction::Complete(true)));
}

#[test]
fn undo_stops_on_any_failed_check_or_unarmed_gate() {
    let mut checks = all_undo_checks();
    checks.privacy_blocked = true;
    let s = EditStrategy::ProtectedPaste;
    assert_eq!(undo_step(UndoStage::Checking, s, false, UndoEvent::Checked(checks)).1, UndoAction::Stop);
    let mut checks = all_undo_checks();
    checks.target_language_matches = false;
    assert_eq!(undo_step(UndoStage::Checking, s, false, UndoEvent::Checked(checks)).1, UndoAction::Stop);
    assert_eq!(undo_step(UndoStage::Gate, s, false, UndoEvent::GateArmed(false)).1, UndoAction::Stop);
    assert_eq!(undo_step(UndoStage::Gate, s, false, UndoEvent::GateArmed(true)).1, UndoAction::Paste);
    assert_eq!(
        undo_step(UndoStage::Paste, s, false, UndoEvent::Pasted(Some(TextEditAttempt::Unsupported))).1,
        UndoAction::Fail(ConversionFailureReason::ClipboardEdit)
    );
    assert_eq!(undo_step(UndoStage::Paste, s, false, UndoEvent::Pasted(None)).1, UndoAction::Stop);
    assert_eq!(
        undo_step(UndoStage::Commit, EditStrategy::PhysicalReplay, false, UndoEvent::Committed(ReplayAttempt::Cancelled)).1,
        UndoAction::Settle
    );
    assert_eq!(
        undo_step(UndoStage::Replay, EditStrategy::PhysicalReplay, false, UndoEvent::Replayed(ReplayAttempt::Failed)).1,
        UndoAction::Fail(ConversionFailureReason::PhysicalEdit)
    );
}

#[test]
fn conversion_pastes_and_keeps_undo_unless_forced() {
    let b = TextEditBackend::ProtectedPaste;
    let (stage, action) = conversion_step(
        ConversionStage::Checking,
        b,
        false,
        true,
        ConversionEvent::Checked(all_conversion_checks()),
    );
    assert_eq!(action, ConversionAction::AwaitSourceSettle);
    let (stage, action) = conversion_step(stage, b, false, true, ConversionEvent::Settled(ReplayAttempt::Applied));
    assert_eq!(action, ConversionAction::FindTargetLayout);
    let (stage, action) = conversion_step(stage, b, false, true, ConversionEvent::TargetFound(true));
    assert_eq!(action, ConversionAction::CheckEditGuard);
    let (stage, action) = conversion_step(stage, b, false, true, ConversionEvent::EditGuard(true));
    assert_eq!((stage, action), (ConversionStage::Paste, ConversionAction::Paste));
    let done = conversion_step(stage, b, false, true, ConversionEvent::Pasted(TextEditAttempt::Applied)).1;
    assert_eq!(
        done,
        ConversionAction::Complete {
            strategy: EditStrategy::ProtectedPaste,
            status: None,
            offer_dictionary: false,
            keep_undo: true
        }
    );
    let forced = conversion_step(stage, b, true, true, ConversionEvent::Pasted(TextEditAttempt::Applied)).1;
    assert_eq!(
        forced,
        ConversionAction::Complete {
            strategy: EditStrategy::ProtectedPaste,
            status: None,
            offer_dictionary: true,
            keep_undo: false
        }
    );
}

#[test]
fn conversion_failures_and_capability_outcomes() {
    let b = TextEditBackend::CapabilityProbe;
    assert_eq!(
        conversion_step(ConversionStage::Settle, b, false, false, ConversionEvent::Settled(ReplayAttempt::Failed)).1,
        ConversionAction::Fail(ConversionFailureReason::SourceBarrier)
    );
    assert_eq!(
        conversion_step(ConversionStage::Target, b, false, false, ConversionEvent::TargetFound(false)).1,
        ConversionAction::Fail(ConversionFailureReason::LayoutUnavailable)
    );
    assert_eq!(
        conversion_step(ConversionStage::EditGuard, b, false, false, ConversionEvent::EditGuard(true)).1,
        ConversionAction::ProbeBarrier
    );
    assert_eq!(
        conversion_step(
            ConversionStage::Barrier,
            b,
            false,
            false,
            ConversionEvent::Barrier(TextBarrierStatus::Mismatch, true)
        )
        .1,
        ConversionAction::StopWithStatus(5)
    );
    assert_eq!(
        conversion_step(
            ConversionStage::Barrier,
            b,
            false,
            false,
            ConversionEvent::Barrier(TextBarrierStatus::Unavailable, true)
        )
        .1,
        ConversionAction::PhysicalEdit
    );
    assert_eq!(
        conversion_step(
            ConversionStage::CapabilityPhysical,
            b,
            false,
            false,
            ConversionEvent::PhysicalEdited(Some(EditStrategy::PhysicalReplay))
        )
        .1,
        ConversionAction::Complete {
            strategy: EditStrategy::PhysicalReplay,
            status: Some(2),
            offer_dictionary: false,
            keep_undo: true
        }
    );
    assert_eq!(
        conversion_step(
            ConversionStage::EditGuard,
            TextEditBackend::ObserveOnly,
            false,
            false,
            ConversionEvent::EditGuard(true)
        )
        .1,
        ConversionAction::Stop
    );
}

#[test]
fn hotkey_undoes_when_available_and_otherwise_forces() {
    assert_eq!(hotkey_press(true, false, false, true), HotkeyPress::Undo);
    assert_eq!(hotkey_press(true, false, false, false), HotkeyPress::ForcedConversion);
    assert_eq!(hotkey_press(true, true, false, true), HotkeyPress::ForcedConversion);
    assert_eq!(hotkey_press(true, true, true, true), HotkeyPress::Undo);
    assert_eq!(hotkey_press(true, false, true, false), HotkeyPress::Ignore);
    assert_eq!(hotkey_press(false, false, false, true), HotkeyPress::Ignore);
}

#[test]
fn space_arms_only_an_intact_word_typed_with_one_caps_state() {
    assert!(space_arms_conversion(true, true, false, 3, &[false, false, false], false));
    assert!(!space_arms_conversion(true, true, false, 3, &[false, true, false], false));
    assert!(!space_arms_conversion(true, true, false, 4, &[false, false, false], false));
    assert!(!space_arms_conversion(true, true, true, 3, &[false, false, false], false));
    assert!(!space_arms_conversion(true, false, false, 3, &[false, false, false], false));
    assert!(!space_arms_conversion(false, true, false, 3, &[false, false, false], false));
    assert_eq!(space_follow_up(false, true, false), SpaceFollowUp::ExecuteNow);
    assert_eq!(space_follow_up(true, true, true), SpaceFollowUp::Defer);
    assert_eq!(space_follow_up(true, true, false), SpaceFollowUp::Nothing);
}

#[test]
fn a_conversion_failure_turns_automatic_mode_off_and_is_notified_once() {
    let mut status = TrayStatus::initial(LayoutIndicator::from_layout(0x0409_0409));
    status.auto_enabled = true;
    let (after, advanced) = record_conversion_failure(status, ConversionFailureReason::ClipboardEdit);
    assert!(advanced);
    assert!(!after.auto_enabled);
    assert!(after.safety_paused);
    assert_eq!(after.failures, 1);
    assert_eq!(after.failure_reason, 7);
    assert!(should_notify_conversion_failure(status, after));
    let (again, advanced) = record_conversion_failure(after, ConversionFailureReason::PhysicalEdit);
    assert!(!advanced);
    assert!(again == after);
    assert!(!should_notify_conversion_failure(after, again));
}

#[test]
fn the_layout_cycle_skips_identical_and_unmappable_texts() {
    let texts = vec![Some("hello".to_string()), None, Some("hello".to_string()), Some("руддщ".to_string())];
    assert_eq!(next_cycle_target(&texts, 0, "hello"), Some(3));
    assert_eq!(next_cycle_target(&texts, 3, "руддщ"), Some(0));
    let same = vec![Some("tere".to_string()), Some("tere".to_string())];
    assert_eq!(next_cycle_target(&same, 0, "tere"), None);
    assert_eq!(next_cycle_target(&[Some("a".to_string())], 0, "a"), None);
}

#[test]
fn protected_paste_applies_only_after_both_commits_and_a_restored_clipboard() {
    let r = paste_start();
    let (r, a) = paste_step(r, PasteEvent::Guard(true));
    assert_eq!(a, PasteAction::SelectSource);
    let (r, a) = paste_step(r, PasteEvent::Selected(TextBarrierStatus::Match));
    assert_eq!(a, PasteAction::CheckGuard);
    let (r, a) = paste_step(r, PasteEvent::Guard(true));
    assert_eq!(a, PasteAction::PrepareClipboard);
    let (r, a) = paste_step(r, PasteEvent::Clipboard(Some(true)));
    assert_eq!(a, PasteAction::CheckGuard);
    let (r, a) = paste_step(r, PasteEvent::Guard(true));
    assert_eq!(a, PasteAction::SubmitPaste);
    let (failed, a) = paste_step(r, PasteEvent::Submitted(false));
    assert_eq!(
        a,
        PasteAction::Finish {
            outcome: TextEditAttempt::Failed,
            release_control: true,
            restore_clipboard: true,
            collapse_selection: true
        }
    );
    let _ = failed;
    let (r, a) = paste_step(r, PasteEvent::Submitted(true));
    assert_eq!(a, PasteAction::AwaitSourceCommit);
    let (r, a) = paste_step(r, PasteEvent::Committed(ReplayAttempt::Applied));
    assert_eq!(a, PasteAction::RestoreClipboard);
    let (r, a) = paste_step(r, PasteEvent::Restored(true));
    assert_eq!(a, PasteAction::SwitchLayout);
    let (r, a) = paste_step(r, PasteEvent::Switched(ReplayAttempt::Applied));
    assert_eq!(a, PasteAction::AwaitTargetCommit);
    let (_, a) = paste_step(r, PasteEvent::Committed(ReplayAttempt::Applied));
    assert!(matches!(a, PasteAction::Finish { outcome: TextEditAttempt::Applied, .. }));
    let (_, a) = paste_step(paste_start(), PasteEvent::Guard(false));
    assert!(matches!(a, PasteAction::Finish { outcome: TextEditAttempt::Cancelled, .. }));
    let (r, _) = paste_step(paste_start(), PasteEvent::Guard(true));
    let (_, a) = paste_step(r, PasteEvent::Selected(TextBarrierStatus::Unavailable));
    assert!(matches!(a, PasteAction::Finish { outcome: TextEditAttempt::Unsupported, .. }));
}

#[test]
fn queued_events_respect_epochs_and_pending_configuration() {
    assert_eq!(queue_route(QueuedKind::ReloadConfiguration, true, 1, 2, 2, false), (None, QueueAction::ApplyConfiguration));
    assert_eq!(queue_route(QueuedKind::ReloadConfiguration, false, 1, 2, 2, false), (None, QueueAction::IgnoreConfiguration));
    assert_eq!(queue_route(QueuedKind::Key, false, 1, 2, 1, false), (Some(2), QueueAction::Drop));
    assert_eq!(queue_route(QueuedKind::GateDrainReady, false, 1, 2, 2, false), (None, QueueAction::DrainReady));
    assert_eq!(queue_route(QueuedKind::Key, false, 3, 3, 2, false), (Some(3), QueueAction::Key));
    assert_eq!(queue_route(QueuedKind::Key, false, 3, 3, 3, true), (None, QueueAction::Discard));
    assert_eq!(queue_route(QueuedKind::Mouse, false, 3, 3, 3, false), (None, QueueAction::Mouse));
}
