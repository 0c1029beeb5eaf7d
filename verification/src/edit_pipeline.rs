//! The decisions of the two editing pipelines, a pending conversion and an
//! undo request: the checks that must all pass before anything is touched,
//! the edit that applies or reverses the conversion, and what each outcome
//! leads to. The platform layer performs each action and reports what
//! happened.

use vstd::prelude::*;

use crate::agent::{
    TrayStatus, capability_spec, CapabilityDecision, ConversionFailureReason, TextBarrierStatus, TextEditBackend,
    BACKEND_CAPABILITY_MISMATCH, BACKEND_CAPABILITY_UNSUPPORTED, BACKEND_PHYSICAL_REPLAY, BACKEND_PROTECTED_PASTE,
    BACKEND_SELECTION_MISMATCH, BACKEND_SELECTION_UNSUPPORTED,
};
use crate::replay::ReplayAttempt;

verus! {

/// How a conversion changed the text, and so how its undo changes it back.
#[derive(Debug, Clone, Copy, PartialEq, Eq, Structural)]
pub enum EditStrategy {
    ProtectedPaste,
    PhysicalReplay,
}

/// The outcome of a protected-paste edit.
#[derive(Debug, Clone, Copy, PartialEq, Eq, Structural)]
pub enum TextEditAttempt {
    Applied,
    Unsupported,
    Cancelled,
    Failed,
}

/// What an undo request found, in the order it looks.
#[derive(Debug, Clone, Copy, PartialEq, Eq, Structural)]
pub struct UndoChecks {
    /// An undo record is stored.
    pub record_present: bool,
    /// No newer input arrived since the request.
    pub sequence_current: bool,
    /// The foreground is blocked for privacy.
    pub privacy_blocked: bool,
    /// The layout profiles are those the record was made with.
    pub generation_matches: bool,
    /// The record's source layout still maps to its source language.
    pub source_language_matches: bool,
    /// The loaded layouts are still those that were resolved.
    pub inventory_current: bool,
    /// No modifier key is physically held.
    pub modifiers_released: bool,
    /// The foreground window is the one that was converted.
    pub foreground_matches: bool,
    /// The current layout maps to the record's target language.
    pub target_language_matches: bool,
}

/// Whether every check lets the undo go on.
pub open spec fn checks_pass(c: UndoChecks) -> bool {
    c.record_present && c.sequence_current && !c.privacy_blocked && c.generation_matches
        && c.source_language_matches && c.inventory_current && c.modifiers_released && c.foreground_matches
        && c.target_language_matches
}

/// Where an undo request stands: which report it waits for.
#[derive(Debug, Clone, Copy, PartialEq, Eq, Structural)]
pub enum UndoStage {
    Checking,
    Gate,
    Paste,
    Replay,
    Commit,
    Done,
}

/// A report from the platform layer.
#[derive(Debug, Clone, Copy, PartialEq, Eq, Structural)]
pub enum UndoEvent {
    Checked(UndoChecks),
    GateArmed(bool),
    /// The paste's outcome, or `None` when no foreground layout was known.
    Pasted(Option<TextEditAttempt>),
    Replayed(ReplayAttempt),
    Committed(ReplayAttempt),
}

/// What the platform layer does next.
#[derive(Debug, Clone, Copy, PartialEq, Eq, Structural)]
pub enum UndoAction {
    /// Stop here; nothing more changes.
    Stop,
    /// Arm the correction gate for the request's input sequence.
    ArmGate,
    /// Take the undo record, mark undo unavailable, and paste the original
    /// text back with the source layout.
    Paste,
    /// Take the undo record, mark undo unavailable, and replay the erase and
    /// original keys with the source layout.
    Replay,
    /// Wait until the replayed input is committed with the source layout.
    AwaitCommit,
    /// Record the conversion failure with this reason.
    Fail(ConversionFailureReason),
    /// Note the source layout as switching for one second and clear the
    /// input session.
    Settle,
    /// Confirm the source layout, clear the input session, and, when the
    /// flag is set, offer to exclude the original word.
    Complete(bool),
}

/// One decision of an undo request, from its stage, the record's edit
/// strategy, the word-exclusion setting and the report.
pub open spec fn undo_next(stage: UndoStage, strategy: EditStrategy, offer_exclusion: bool, event: UndoEvent) -> (
    UndoStage,
    UndoAction,
) {
    let stop = (UndoStage::Done, UndoAction::Stop);
    match (stage, event) {
        (UndoStage::Checking, UndoEvent::Checked(c)) => if checks_pass(c) {
            (UndoStage::Gate, UndoAction::ArmGate)
        } else {
            stop
        },
        (UndoStage::Gate, UndoEvent::GateArmed(armed)) => if !armed {
            stop
        } else {
            match strategy {
                EditStrategy::ProtectedPaste => (UndoStage::Paste, UndoAction::Paste),
                EditStrategy::PhysicalReplay => (UndoStage::Replay, UndoAction::Replay),
            }
        },
        (UndoStage::Paste, UndoEvent::Pasted(outcome)) => match outcome {
            Some(TextEditAttempt::Applied) => (UndoStage::Done, UndoAction::Complete(offer_exclusion)),
            Some(TextEditAttempt::Unsupported) | Some(TextEditAttempt::Failed) => (
                UndoStage::Done,
                UndoAction::Fail(ConversionFailureReason::ClipboardEdit),
            ),
            _ => stop,
        },
        (UndoStage::Replay, UndoEvent::Replayed(outcome)) => match outcome {
            ReplayAttempt::Applied => (UndoStage::Commit, UndoAction::AwaitCommit),
            ReplayAttempt::Cancelled => stop,
            ReplayAttempt::Failed => (UndoStage::Done, UndoAction::Fail(ConversionFailureReason::PhysicalEdit)),
        },
        (UndoStage::Commit, UndoEvent::Committed(outcome)) => match outcome {
            ReplayAttempt::Applied => (UndoStage::Done, UndoAction::Complete(offer_exclusion)),
            ReplayAttempt::Cancelled => (UndoStage::Done, UndoAction::Settle),
            ReplayAttempt::Failed => (UndoStage::Done, UndoAction::Fail(ConversionFailureReason::ReplayCommit)),
        },
        _ => stop,
    }
}

/// The next step of an undo request. The text changes only once every
/// condition held and the correction gate was armed; a cancelled change stops there,
/// a failed one records its reason.
pub fn undo_step(stage: UndoStage, strategy: EditStrategy, offer_exclusion: bool, event: UndoEvent) -> (r: (
    UndoStage,
    UndoAction,
))
    ensures
        r == undo_next(stage, strategy, offer_exclusion, event),
        r.1 is Paste || r.1 is Replay ==> stage is Gate && event == UndoEvent::GateArmed(true),
        r.0 is Gate ==> stage is Checking && (event matches UndoEvent::Checked(c) && checks_pass(c)),
{
    match (stage, event) {
        (UndoStage::Checking, UndoEvent::Checked(c)) => {
            if c.record_present && c.sequence_current && !c.privacy_blocked && c.generation_matches
                && c.source_language_matches && c.inventory_current && c.modifiers_released
                && c.foreground_matches && c.target_language_matches {
                (UndoStage::Gate, UndoAction::ArmGate)
            } else {
                (UndoStage::Done, UndoAction::Stop)
            }
        },
        (UndoStage::Gate, UndoEvent::GateArmed(armed)) => {
            if !armed {
                (UndoStage::Done, UndoAction::Stop)
            } else {
                match strategy {
                    EditStrategy::ProtectedPaste => (UndoStage::Paste, UndoAction::Paste),
                    EditStrategy::PhysicalReplay => (UndoStage::Replay, UndoAction::Replay),
                }
            }
        },
        (UndoStage::Paste, UndoEvent::Pasted(outcome)) => match outcome {
            Some(TextEditAttempt::Applied) => (UndoStage::Done, UndoAction::Complete(offer_exclusion)),
            Some(TextEditAttempt::Unsupported) | Some(TextEditAttempt::Failed) => (
                UndoStage::Done,
                UndoAction::Fail(ConversionFailureReason::ClipboardEdit),
            ),
            _ => (UndoStage::Done, UndoAction::Stop),
        },
        (UndoStage::Replay, UndoEvent::Replayed(outcome)) => match outcome {
            ReplayAttempt::Applied => (UndoStage::Commit, UndoAction::AwaitCommit),
            ReplayAttempt::Cancelled => (UndoStage::Done, UndoAction::Stop),
            ReplayAttempt::Failed => (UndoStage::Done, UndoAction::Fail(ConversionFailureReason::PhysicalEdit)),
        },
        (UndoStage::Commit, UndoEvent::Committed(outcome)) => match outcome {
            ReplayAttempt::Applied => (UndoStage::Done, UndoAction::Complete(offer_exclusion)),
            ReplayAttempt::Cancelled => (UndoStage::Done, UndoAction::Settle),
            ReplayAttempt::Failed => (UndoStage::Done, UndoAction::Fail(ConversionFailureReason::ReplayCommit)),
        },
        _ => (UndoStage::Done, UndoAction::Stop),
    }
}

/// What a pending conversion found, in the order it looks.
#[derive(Debug, Clone, Copy, PartialEq, Eq, Structural)]
pub struct ConversionChecks {
    /// A conversion is pending.
    pub pending_present: bool,
    /// The boundary is the pending Space press or the event right after it.
    pub sequence_matches: bool,
    /// The conversion was forced, or automatic conversion is on.
    pub enabled: bool,
    /// The foreground is blocked for privacy.
    pub privacy_blocked: bool,
    /// The layout profiles are those the conversion was planned with.
    pub profiles_match: bool,
    /// The foreground and input sequence are still those of the request.
    pub guard_current: bool,
}

/// Whether every check lets the conversion go on.
pub open spec fn conversion_checks_pass(c: ConversionChecks) -> bool {
    c.pending_present && c.sequence_matches && c.enabled && !c.privacy_blocked && c.profiles_match
        && c.guard_current
}

/// Where a pending conversion stands: which report it waits for.
#[derive(Debug, Clone, Copy, PartialEq, Eq, Structural)]
pub enum ConversionStage {
    Checking,
    Settle,
    Target,
    EditGuard,
    Paste,
    Physical,
    Barrier,
    CapabilityPaste,
    CapabilityPhysical,
    Done,
}

/// A report from the platform layer.
#[derive(Debug, Clone, Copy, PartialEq, Eq)]
pub enum ConversionEvent {
    Checked(ConversionChecks),
    /// Whether the source text settled with the source layout.
    Settled(ReplayAttempt),
    /// Whether the layout inventory is current and holds a layout of the
    /// target language.
    TargetFound(bool),
    /// Whether the foreground and input sequence are still current.
    EditGuard(bool),
    Pasted(TextEditAttempt),
    /// The physical edit's strategy once it went through, or `None` when
    /// it stopped.
    PhysicalEdited(Option<EditStrategy>),
    /// The capability probe's text barrier, and whether the settings and
    /// the resolver allow a physical fallback.
    Barrier(TextBarrierStatus, bool),
}

/// What the platform layer does next.
#[derive(Debug, Clone, Copy, PartialEq, Eq)]
pub enum ConversionAction {
    /// Stop here; nothing more changes.
    Stop,
    /// Wait until the typed source text has settled.
    AwaitSourceSettle,
    /// Look up the layout of the target language.
    FindTargetLayout,
    /// Check that the foreground and input sequence are still current.
    CheckEditGuard,
    /// Paste the replacement with the target layout.
    Paste,
    /// Erase and retype the word with the target layout.
    PhysicalEdit,
    /// Re-read the source text to choose an edit for an unknown host.
    ProbeBarrier,
    /// Record the conversion failure with this reason.
    Fail(ConversionFailureReason),
    /// Store this backend status and stop.
    StopWithStatus(u8),
    /// Store the backend status when there is one, confirm the target
    /// layout, clear the input session, offer the replacement for the user
    /// dictionary when `offer_dictionary`, and keep an undo record with the
    /// strategy when `keep_undo`.
    Complete { strategy: EditStrategy, status: Option<u8>, offer_dictionary: bool, keep_undo: bool },
}

/// The end of an applied conversion: forced conversions belong to a manual
/// cycle and keep no undo record; they may offer their replacement for the
/// user dictionary.
pub open spec fn conversion_complete(strategy: EditStrategy, status: Option<u8>, forced: bool, offer_setting: bool) -> (
    ConversionStage,
    ConversionAction,
) {
    (
        ConversionStage::Done,
        ConversionAction::Complete {
            strategy,
            status,
            offer_dictionary: forced && offer_setting,
            keep_undo: !forced,
        },
    )
}

/// One decision of a pending conversion, from its stage, the configured
/// backend, whether it was forced, the dictionary-offer setting and the
/// report.
pub open spec fn conversion_next(
    stage: ConversionStage,
    backend: TextEditBackend,
    forced: bool,
    offer_setting: bool,
    event: ConversionEvent,
) -> (ConversionStage, ConversionAction) {
    let stop = (ConversionStage::Done, ConversionAction::Stop);
    match (stage, event) {
        (ConversionStage::Checking, ConversionEvent::Checked(c)) => if conversion_checks_pass(c) {
            (ConversionStage::Settle, ConversionAction::AwaitSourceSettle)
        } else {
            stop
        },
        (ConversionStage::Settle, ConversionEvent::Settled(a)) => match a {
            ReplayAttempt::Applied => (ConversionStage::Target, ConversionAction::FindTargetLayout),
            ReplayAttempt::Cancelled => stop,
            ReplayAttempt::Failed => (
                ConversionStage::Done,
                ConversionAction::Fail(ConversionFailureReason::SourceBarrier),
            ),
        },
        (ConversionStage::Target, ConversionEvent::TargetFound(found)) => if found {
            (ConversionStage::EditGuard, ConversionAction::CheckEditGuard)
        } else {
            (ConversionStage::Done, ConversionAction::Fail(ConversionFailureReason::LayoutUnavailable))
        },
        (ConversionStage::EditGuard, ConversionEvent::EditGuard(current)) => if !current {
            stop
        } else {
            match backend {
                TextEditBackend::ObserveOnly => stop,
                TextEditBackend::ProtectedPaste => (ConversionStage::Paste, ConversionAction::Paste),
                TextEditBackend::PhysicalReplay => (ConversionStage::Physical, ConversionAction::PhysicalEdit),
                TextEditBackend::CapabilityProbe => (ConversionStage::Barrier, ConversionAction::ProbeBarrier),
            }
        },
        (ConversionStage::Paste, ConversionEvent::Pasted(a)) => match a {
            TextEditAttempt::Applied => conversion_complete(EditStrategy::ProtectedPaste, None, forced, offer_setting),
            TextEditAttempt::Cancelled => stop,
            _ => (ConversionStage::Done, ConversionAction::Fail(ConversionFailureReason::ClipboardEdit)),
        },
        (ConversionStage::Physical, ConversionEvent::PhysicalEdited(o)) => match o {
            Some(strategy) => conversion_complete(strategy, None, forced, offer_setting),
            None => stop,
        },
        (ConversionStage::Barrier, ConversionEvent::Barrier(barrier, allowed)) => match capability_spec(
            barrier,
            allowed,
        ) {
            CapabilityDecision::ProtectedPaste => (ConversionStage::CapabilityPaste, ConversionAction::Paste),
            CapabilityDecision::PhysicalReplay => (
                ConversionStage::CapabilityPhysical,
                ConversionAction::PhysicalEdit,
            ),
            CapabilityDecision::CancelMismatch => (
                ConversionStage::Done,
                ConversionAction::StopWithStatus(BACKEND_CAPABILITY_MISMATCH),
            ),
            CapabilityDecision::Unsupported => (
                ConversionStage::Done,
                ConversionAction::StopWithStatus(BACKEND_CAPABILITY_UNSUPPORTED),
            ),
        },
        (ConversionStage::CapabilityPaste, ConversionEvent::Pasted(a)) => match a {
            TextEditAttempt::Applied => conversion_complete(
                EditStrategy::ProtectedPaste,
                Some(BACKEND_PROTECTED_PASTE),
                forced,
                offer_setting,
            ),
            TextEditAttempt::Cancelled => (
                ConversionStage::Done,
                ConversionAction::StopWithStatus(BACKEND_SELECTION_MISMATCH),
            ),
            TextEditAttempt::Unsupported => (
                ConversionStage::Done,
                ConversionAction::StopWithStatus(BACKEND_SELECTION_UNSUPPORTED),
            ),
            TextEditAttempt::Failed => (
                ConversionStage::Done,
                ConversionAction::Fail(ConversionFailureReason::ClipboardEdit),
            ),
        },
        (ConversionStage::CapabilityPhysical, ConversionEvent::PhysicalEdited(o)) => match o {
            Some(strategy) => conversion_complete(strategy, Some(BACKEND_PHYSICAL_REPLAY), forced, offer_setting),
            None => stop,
        },
        _ => stop,
    }
}

fn complete_conversion(strategy: EditStrategy, status: Option<u8>, forced: bool, offer_setting: bool) -> (r: (
    ConversionStage,
    ConversionAction,
))
    ensures
        r == conversion_complete(strategy, status, forced, offer_setting),
{
    (
        ConversionStage::Done,
        ConversionAction::Complete { strategy, status, offer_dictionary: forced && offer_setting, keep_undo: !forced },
    )
}

/// The next step of a pending conversion. The text changes only once
/// every condition held, the source settled, a target layout was found
/// and the guard is still current; a text mismatch found by the capability
/// probe never leads to a physical edit; a forced conversion keeps no undo
/// record.
pub fn conversion_step(
    stage: ConversionStage,
    backend: TextEditBackend,
    forced: bool,
    offer_setting: bool,
    event: ConversionEvent,
) -> (r: (ConversionStage, ConversionAction))
    ensures
        r == conversion_next(stage, backend, forced, offer_setting, event),
        r.1 is Paste || r.1 is PhysicalEdit ==> stage is EditGuard || stage is Barrier,
        event matches ConversionEvent::Barrier(TextBarrierStatus::Mismatch, _) ==> !(r.1 is PhysicalEdit),
        r.1 matches ConversionAction::Complete { keep_undo, .. } ==> keep_undo == !forced,
{
    match (stage, event) {
        (ConversionStage::Checking, ConversionEvent::Checked(c)) => {
            if c.pending_present && c.sequence_matches && c.enabled && !c.privacy_blocked && c.profiles_match
                && c.guard_current {
                (ConversionStage::Settle, ConversionAction::AwaitSourceSettle)
            } else {
                (ConversionStage::Done, ConversionAction::Stop)
            }
        },
        (ConversionStage::Settle, ConversionEvent::Settled(a)) => match a {
            ReplayAttempt::Applied => (ConversionStage::Target, ConversionAction::FindTargetLayout),
            ReplayAttempt::Cancelled => (ConversionStage::Done, ConversionAction::Stop),
            ReplayAttempt::Failed => (
                ConversionStage::Done,
                ConversionAction::Fail(ConversionFailureReason::SourceBarrier),
            ),
        },
        (ConversionStage::Target, ConversionEvent::TargetFound(found)) => {
            if found {
                (ConversionStage::EditGuard, ConversionAction::CheckEditGuard)
            } else {
                (ConversionStage::Done, ConversionAction::Fail(ConversionFailureReason::LayoutUnavailable))
            }
        },
        (ConversionStage::EditGuard, ConversionEvent::EditGuard(current)) => {
            if !current {
                (ConversionStage::Done, ConversionAction::Stop)
            } else {
                match backend {
                    TextEditBackend::ObserveOnly => (ConversionStage::Done, ConversionAction::Stop),
                    TextEditBackend::ProtectedPaste => (ConversionStage::Paste, ConversionAction::Paste),
                    TextEditBackend::PhysicalReplay => (ConversionStage::Physical, ConversionAction::PhysicalEdit),
                    TextEditBackend::CapabilityProbe => (ConversionStage::Barrier, ConversionAction::ProbeBarrier),
                }
            }
        },
        (ConversionStage::Paste, ConversionEvent::Pasted(a)) => match a {
            TextEditAttempt::Applied => complete_conversion(EditStrategy::ProtectedPaste, None, forced, offer_setting),
            TextEditAttempt::Cancelled => (ConversionStage::Done, ConversionAction::Stop),
            _ => (ConversionStage::Done, ConversionAction::Fail(ConversionFailureReason::ClipboardEdit)),
        },
        (ConversionStage::Physical, ConversionEvent::PhysicalEdited(o)) => match o {
            Some(strategy) => complete_conversion(strategy, None, forced, offer_setting),
            None => (ConversionStage::Done, ConversionAction::Stop),
        },
        (ConversionStage::Barrier, ConversionEvent::Barrier(barrier, allowed)) => match crate::agent::capability_decision(
            barrier,
            allowed,
        ) {
            CapabilityDecision::ProtectedPaste => (ConversionStage::CapabilityPaste, ConversionAction::Paste),
            CapabilityDecision::PhysicalReplay => (
                ConversionStage::CapabilityPhysical,
                ConversionAction::PhysicalEdit,
            ),
            CapabilityDecision::CancelMismatch => (
                ConversionStage::Done,
                ConversionAction::StopWithStatus(BACKEND_CAPABILITY_MISMATCH),
            ),
            CapabilityDecision::Unsupported => (
                ConversionStage::Done,
                ConversionAction::StopWithStatus(BACKEND_CAPABILITY_UNSUPPORTED),
            ),
        },
        (ConversionStage::CapabilityPaste, ConversionEvent::Pasted(a)) => match a {
            TextEditAttempt::Applied => complete_conversion(
                EditStrategy::ProtectedPaste,
                Some(BACKEND_PROTECTED_PASTE),
                forced,
                offer_setting,
            ),
            TextEditAttempt::Cancelled => (
                ConversionStage::Done,
                ConversionAction::StopWithStatus(BACKEND_SELECTION_MISMATCH),
            ),
            TextEditAttempt::Unsupported => (
                ConversionStage::Done,
                ConversionAction::StopWithStatus(BACKEND_SELECTION_UNSUPPORTED),
            ),
            TextEditAttempt::Failed => (
                ConversionStage::Done,
                ConversionAction::Fail(ConversionFailureReason::ClipboardEdit),
            ),
        },
        (ConversionStage::CapabilityPhysical, ConversionEvent::PhysicalEdited(o)) => match o {
            Some(strategy) => complete_conversion(strategy, Some(BACKEND_PHYSICAL_REPLAY), forced, offer_setting),
            None => (ConversionStage::Done, ConversionAction::Stop),
        },
        _ => (ConversionStage::Done, ConversionAction::Stop),
    }
}

/// What a released conversion hotkey does.
#[derive(Debug, Clone, Copy, PartialEq, Eq, Structural)]
pub enum HotkeyPress {
    Ignore,
    ForcedConversion,
    Undo,
}

pub open spec fn hotkey_press_spec(released: bool, cycling: bool, deferred: bool, undo_available: bool) -> HotkeyPress {
    if !released {
        HotkeyPress::Ignore
    } else if cycling && !deferred {
        HotkeyPress::ForcedConversion
    } else if undo_available {
        HotkeyPress::Undo
    } else if !deferred {
        HotkeyPress::ForcedConversion
    } else {
        HotkeyPress::Ignore
    }
}

/// The hotkey's branch once it was released with undo on the hotkey: a
/// press while the word is being cycled through the layouts keeps cycling;
/// otherwise it undoes the last conversion when that is available, and
/// else forces a conversion. A press that arrived through a drained
/// correction gate never starts a forced conversion.
pub fn hotkey_press(released: bool, cycling: bool, deferred: bool, undo_available: bool) -> (r: HotkeyPress)
    ensures
        r == hotkey_press_spec(released, cycling, deferred, undo_available),
        released && !cycling && undo_available ==> r is Undo,
        released && !undo_available && !deferred ==> r is ForcedConversion,
        deferred ==> !(r is ForcedConversion),
{
    if !released {
        HotkeyPress::Ignore
    } else if cycling && !deferred {
        HotkeyPress::ForcedConversion
    } else if undo_available {
        HotkeyPress::Undo
    } else if !deferred {
        HotkeyPress::ForcedConversion
    } else {
        HotkeyPress::Ignore
    }
}

/// Whether a Space press arms an automatic conversion of the word it ends:
/// the detector offered one, automatic mode is on, Shift is up, every key
/// of the word was recorded, and all of them were typed with the Caps Lock
/// state of this Space.
pub fn space_arms_conversion(
    candidate: bool,
    auto_enabled: bool,
    shift: bool,
    word_length: usize,
    key_caps_lock: &[bool],
    caps_lock: bool,
) -> (r: bool)
    ensures
        r == (candidate && auto_enabled && !shift && key_caps_lock@.len() == word_length && forall|k: int|
            0 <= k < key_caps_lock@.len() ==> #[trigger] key_caps_lock@[k] == caps_lock),
{
    if !candidate || !auto_enabled || shift || key_caps_lock.len() != word_length {
        return false;
    }
    let mut i: usize = 0;
    while i < key_caps_lock.len()
        invariant
            i <= key_caps_lock@.len(),
            forall|k: int| 0 <= k < i ==> #[trigger] key_caps_lock@[k] == caps_lock,
        decreases key_caps_lock.len() - i,
    {
        if key_caps_lock[i] != caps_lock {
            return false;
        }
        i = i + 1;
    }
    true
}

/// What follows a Space press.
#[derive(Debug, Clone, Copy, PartialEq, Eq, Structural)]
pub enum SpaceFollowUp {
    Nothing,
    /// Run the pending conversion now.
    ExecuteNow,
    /// Keep the pending conversion until the correction gate drains.
    Defer,
}

/// A Space typed directly runs the pending conversion when automatic mode
/// is on; one that arrived through a draining gate defers a pending one.
pub fn space_follow_up(drained: bool, auto_enabled: bool, pending: bool) -> (r: SpaceFollowUp)
    ensures
        r == (if !drained && auto_enabled {
            SpaceFollowUp::ExecuteNow
        } else if drained && pending {
            SpaceFollowUp::Defer
        } else {
            SpaceFollowUp::Nothing
        }),
{
    if !drained && auto_enabled {
        SpaceFollowUp::ExecuteNow
    } else if drained && pending {
        SpaceFollowUp::Defer
    } else {
        SpaceFollowUp::Nothing
    }
}

/// The stored code of a failure reason.
pub open spec fn failure_code(reason: ConversionFailureReason) -> u8 {
    match reason {
        ConversionFailureReason::NoFailure => 0,
        ConversionFailureReason::SourceBarrier => 1,
        ConversionFailureReason::LayoutUnavailable => 2,
        ConversionFailureReason::PhysicalEdit => 3,
        ConversionFailureReason::TextCommit => 4,
        ConversionFailureReason::ReplayCommit => 5,
        ConversionFailureReason::GateDrain => 6,
        ConversionFailureReason::ClipboardEdit => 7,
    }
}

/// Recording a conversion failure: automatic conversion is always turned
/// off; when it was on, the reason is kept, the safety pause shown, the
/// failure counted and the input epoch advanced (the returned flag). A
/// failure while automatic conversion was already off leaves everything
/// else as it was.
pub fn record_conversion_failure(status: TrayStatus, reason: ConversionFailureReason) -> (r: (TrayStatus, bool))
    ensures
        !r.0.auto_enabled,
        r.1 == status.auto_enabled,
        status.auto_enabled ==> r.0 == (TrayStatus {
            auto_enabled: false,
            failure_reason: failure_code(reason),
            safety_paused: true,
            failures: if status.failures == u64::MAX {
                0
            } else {
                (status.failures + 1) as u64
            },
            ..status
        }),
        !status.auto_enabled ==> r.0 == status,
        status.auto_enabled && status.failures < u64::MAX ==> r.0.failures > status.failures,
{
    if !status.auto_enabled {
        return (status, false);
    }
    let failures = if status.failures == u64::MAX {
        0
    } else {
        status.failures + 1
    };
    (
        TrayStatus {
            auto_enabled: false,
            failure_reason: reason.code(),
            safety_paused: true,
            failures,
            ..status
        },
        true,
    )
}

/// The first language after `position` in the cycle `texts` (taken
/// round, starting `step` places on) whose layout gives a text, other than
/// `current`.
pub open spec fn cycle_from(texts: Seq<Option<Seq<char>>>, position: int, current: Seq<char>, step: int) -> Option<usize>
    decreases texts.len() - step,
{
    if step < 1 || step >= texts.len() {
        None
    } else {
        let k = (position + step) % (texts.len() as int);
        match texts[k] {
            Some(t) => if t != current {
                Some(k as usize)
            } else {
                cycle_from(texts, position, current, step + 1)
            },
            None => cycle_from(texts, position, current, step + 1),
        }
    }
}

pub open spec fn text_views(texts: Seq<Option<String>>) -> Seq<Option<Seq<char>>> {
    texts.map_values(
        |t: Option<String>|
            match t {
                Some(s) => Some(s@),
                None => None,
            },
    )
}

/// The next language of a manual layout cycle. `texts` holds, for each
/// enabled language that has a layout of its own, in order, the word typed
/// again with that layout (`None` when it cannot be), and `position` is the
/// word's current language. Languages whose layout gives the same text are
/// passed over, so one press always shows a different text when any
/// layout gives one; with fewer than two languages there is no cycle.
pub fn next_cycle_target(texts: &[Option<String>], position: usize, current: &str) -> (r: Option<usize>)
    requires
        position < texts@.len(),
    ensures
        r == cycle_from(text_views(texts@), position as int, current@, 1),
        r matches Some(k) ==> k < texts@.len() && k != position,
{
    let n = texts.len();
    let ghost tv = text_views(texts@);
    let cur = crate::text::chars_of(current);
    let mut step: usize = n;
    let mut found: Option<usize> = None;
    // Walk back from the last step so that the first match wins.
    while step > 1
        invariant
            1 <= step <= n,
            n == texts@.len(),
            tv == text_views(texts@),
            position < n,
            cur@ == current@,
            found == cycle_from(tv, position as int, current@, step as int),
        decreases step,
    {
        step = step - 1;
        proof {
            lemma_wrap(position as int, step as int, n as int);
        }
        let k = if step < n - position {
            position + step
        } else {
            step - (n - position)
        };
        assert(tv[k as int] == match texts@[k as int] {
            Some(s) => Some(s@),
            None => None::<Seq<char>>,
        });
        match &texts[k] {
            Some(t) => {
                if !crate::text::chars_equal(&crate::text::chars_of(t.as_str()), &cur) {
                    found = Some(k);
                }
            },
            None => {},
        }
    }
    proof {
        if n > 1 {
            assert(step == 1);
        }
    }
    proof {
        lemma_cycle_from_range(tv, position as int, current@, 1);
    }
    found
}

proof fn lemma_wrap(position: int, step: int, n: int)
    requires
        0 <= position < n,
        1 <= step < n,
    ensures
        (position + step) % n == (if position + step < n {
            position + step
        } else {
            position + step - n
        }),
        (position + step) % n != position,
        0 <= (position + step) % n < n,
{
    if position + step < n {
        vstd::arithmetic::div_mod::lemma_small_mod((position + step) as nat, n as nat);
    } else {
        vstd::arithmetic::div_mod::lemma_mod_add_multiples_vanish(position + step - n, n);
        vstd::arithmetic::div_mod::lemma_small_mod((position + step - n) as nat, n as nat);
    }
}

proof fn lemma_cycle_from_range(texts: Seq<Option<Seq<char>>>, position: int, current: Seq<char>, step: int)
    requires
        0 <= position < texts.len(),
        texts.len() <= usize::MAX,
        step >= 1,
    ensures
        cycle_from(texts, position, current, step) matches Some(k) ==> k < texts.len() && k != position,
    decreases texts.len() - step,
{
    if step < texts.len() {
        lemma_cycle_from_range(texts, position, current, step + 1);
        lemma_wrap(position, step, texts.len() as int);
        let k = (position + step) % (texts.len() as int);
        assert(k as usize == k);
    }
}

/// Where a protected paste stands: which report it waits for.
#[derive(Debug, Clone, Copy, PartialEq, Eq, Structural)]
pub enum PasteStage {
    Guard,
    Select,
    GuardSelected,
    Clipboard,
    GuardBeforeSubmit,
    Submit,
    SourceCommit,
    Restore,
    Layout,
    TargetCommit,
    Done,
}

/// A protected paste in progress.
#[derive(Debug, Clone, Copy, PartialEq, Eq, Structural)]
pub struct PasteRun {
    pub stage: PasteStage,
    /// The replacement was committed with the source layout.
    pub source_committed: bool,
    /// The user's clipboard was restored.
    pub restored: bool,
}

/// A report from the platform layer during a protected paste.
#[derive(Debug, Clone, Copy, PartialEq, Eq)]
pub enum PasteEvent {
    /// Whether the foreground and input sequence are still current.
    Guard(bool),
    /// The text barrier's outcome after selecting the source text.
    Selected(TextBarrierStatus),
    /// `None` when the clipboard could not be prepared, else whether it
    /// still holds the replacement.
    Clipboard(Option<bool>),
    /// Whether every paste input was submitted.
    Submitted(bool),
    /// Whether the text settled.
    Committed(ReplayAttempt),
    /// Whether the user's clipboard was put back.
    Restored(bool),
    /// Whether the target layout became current.
    Switched(ReplayAttempt),
}

/// What the platform layer does next during a protected paste.
#[derive(Debug, Clone, Copy, PartialEq, Eq)]
pub enum PasteAction {
    CheckGuard,
    /// Select the source text behind a text barrier.
    SelectSource,
    /// Put the replacement on the clipboard, keeping the user's contents.
    PrepareClipboard,
    /// Send the paste keys.
    SubmitPaste,
    /// Wait until the replacement is committed with the source layout.
    AwaitSourceCommit,
    /// Put the user's clipboard back.
    RestoreClipboard,
    /// Switch to the target layout and wait for it.
    SwitchLayout,
    /// Wait until the replacement reads the same with the target layout.
    AwaitTargetCommit,
    /// Stop with `outcome`, first releasing Control, restoring the
    /// clipboard and collapsing the selection as the flags say.
    Finish { outcome: TextEditAttempt, release_control: bool, restore_clipboard: bool, collapse_selection: bool },
}

pub open spec fn paste_finish(
    r: PasteRun,
    outcome: TextEditAttempt,
    release_control: bool,
    restore_clipboard: bool,
    collapse_selection: bool,
) -> (PasteRun, PasteAction) {
    (
        PasteRun { stage: PasteStage::Done, ..r },
        PasteAction::Finish { outcome, release_control, restore_clipboard, collapse_selection },
    )
}

pub open spec fn paste_go(r: PasteRun, stage: PasteStage, action: PasteAction) -> (PasteRun, PasteAction) {
    (PasteRun { stage, ..r }, action)
}

/// One decision of a protected paste. A text barrier mismatch cancels, an
/// unavailable barrier leaves the host unsupported; once the selection is
/// made every early stop collapses it, and once the clipboard holds the
/// replacement every stop restores it. The paste counts as applied only
/// when the replacement was committed with both layouts and the clipboard
/// was restored.
pub open spec fn paste_next(r: PasteRun, e: PasteEvent) -> (PasteRun, PasteAction) {
    match (r.stage, e) {
        (PasteStage::Guard, PasteEvent::Guard(ok)) => if ok {
            paste_go(r, PasteStage::Select, PasteAction::SelectSource)
        } else {
            paste_finish(r, TextEditAttempt::Cancelled, false, false, false)
        },
        (PasteStage::Select, PasteEvent::Selected(st)) => match st {
            TextBarrierStatus::Match => paste_go(r, PasteStage::GuardSelected, PasteAction::CheckGuard),
            TextBarrierStatus::Mismatch => paste_finish(r, TextEditAttempt::Cancelled, false, false, false),
            TextBarrierStatus::Unavailable => paste_finish(r, TextEditAttempt::Unsupported, false, false, false),
        },
        (PasteStage::GuardSelected, PasteEvent::Guard(ok)) => if ok {
            paste_go(r, PasteStage::Clipboard, PasteAction::PrepareClipboard)
        } else {
            paste_finish(r, TextEditAttempt::Cancelled, false, false, true)
        },
        (PasteStage::Clipboard, PasteEvent::Clipboard(c)) => match c {
            None => paste_finish(r, TextEditAttempt::Failed, false, false, true),
            Some(current) => if current {
                paste_go(r, PasteStage::GuardBeforeSubmit, PasteAction::CheckGuard)
            } else {
                paste_finish(r, TextEditAttempt::Cancelled, false, true, true)
            },
        },
        (PasteStage::GuardBeforeSubmit, PasteEvent::Guard(ok)) => if ok {
            paste_go(r, PasteStage::Submit, PasteAction::SubmitPaste)
        } else {
            paste_finish(r, TextEditAttempt::Cancelled, false, true, true)
        },
        (PasteStage::Submit, PasteEvent::Submitted(all)) => if all {
            paste_go(r, PasteStage::SourceCommit, PasteAction::AwaitSourceCommit)
        } else {
            paste_finish(r, TextEditAttempt::Failed, true, true, true)
        },
        (PasteStage::SourceCommit, PasteEvent::Committed(a)) => (
            PasteRun { stage: PasteStage::Restore, source_committed: a is Applied, ..r },
            PasteAction::RestoreClipboard,
        ),
        (PasteStage::Restore, PasteEvent::Restored(ok)) => if !r.source_committed {
            paste_finish(PasteRun { restored: ok, ..r }, TextEditAttempt::Failed, false, false, false)
        } else {
            (PasteRun { stage: PasteStage::Layout, restored: ok, ..r }, PasteAction::SwitchLayout)
        },
        (PasteStage::Layout, PasteEvent::Switched(a)) => if a is Applied {
            paste_go(r, PasteStage::TargetCommit, PasteAction::AwaitTargetCommit)
        } else {
            paste_finish(r, TextEditAttempt::Failed, false, false, false)
        },
        (PasteStage::TargetCommit, PasteEvent::Committed(a)) => paste_finish(
            r,
            if r.restored && a is Applied {
                TextEditAttempt::Applied
            } else {
                TextEditAttempt::Failed
            },
            false,
            false,
            false,
        ),
        _ => paste_finish(r, TextEditAttempt::Failed, false, false, false),
    }
}

/// A protected paste that has not started.
pub fn paste_start() -> (r: PasteRun)
    ensures
        r == (PasteRun { stage: PasteStage::Guard, source_committed: false, restored: false }),
{
    PasteRun { stage: PasteStage::Guard, source_committed: false, restored: false }
}

fn finish_paste(
    r: PasteRun,
    outcome: TextEditAttempt,
    release_control: bool,
    restore_clipboard: bool,
    collapse_selection: bool,
) -> (x: (PasteRun, PasteAction))
    ensures
        x == paste_finish(r, outcome, release_control, restore_clipboard, collapse_selection),
{
    (
        PasteRun { stage: PasteStage::Done, ..r },
        PasteAction::Finish { outcome, release_control, restore_clipboard, collapse_selection },
    )
}

/// Advance a protected paste with the platform's report.
pub fn paste_step(r: PasteRun, e: PasteEvent) -> (x: (PasteRun, PasteAction))
    ensures
        x == paste_next(r, e),
        x.1 matches PasteAction::Finish { outcome: TextEditAttempt::Applied, .. } ==> r.restored && r.stage
            is TargetCommit,
{
    match (r.stage, e) {
        (PasteStage::Guard, PasteEvent::Guard(ok)) => {
            if ok {
                (PasteRun { stage: PasteStage::Select, ..r }, PasteAction::SelectSource)
            } else {
                finish_paste(r, TextEditAttempt::Cancelled, false, false, false)
            }
        },
        (PasteStage::Select, PasteEvent::Selected(st)) => match st {
            TextBarrierStatus::Match => (PasteRun { stage: PasteStage::GuardSelected, ..r }, PasteAction::CheckGuard),
            TextBarrierStatus::Mismatch => finish_paste(r, TextEditAttempt::Cancelled, false, false, false),
            TextBarrierStatus::Unavailable => finish_paste(r, TextEditAttempt::Unsupported, false, false, false),
        },
        (PasteStage::GuardSelected, PasteEvent::Guard(ok)) => {
            if ok {
                (PasteRun { stage: PasteStage::Clipboard, ..r }, PasteAction::PrepareClipboard)
            } else {
                finish_paste(r, TextEditAttempt::Cancelled, false, false, true)
            }
        },
        (PasteStage::Clipboard, PasteEvent::Clipboard(c)) => match c {
            None => finish_paste(r, TextEditAttempt::Failed, false, false, true),
            Some(current) => {
                if current {
                    (PasteRun { stage: PasteStage::GuardBeforeSubmit, ..r }, PasteAction::CheckGuard)
                } else {
                    finish_paste(r, TextEditAttempt::Cancelled, false, true, true)
                }
            },
        },
        (PasteStage::GuardBeforeSubmit, PasteEvent::Guard(ok)) => {
            if ok {
                (PasteRun { stage: PasteStage::Submit, ..r }, PasteAction::SubmitPaste)
            } else {
                finish_paste(r, TextEditAttempt::Cancelled, false, true, true)
            }
        },
        (PasteStage::Submit, PasteEvent::Submitted(all)) => {
            if all {
                (PasteRun { stage: PasteStage::SourceCommit, ..r }, PasteAction::AwaitSourceCommit)
            } else {
                finish_paste(r, TextEditAttempt::Failed, true, true, true)
            }
        },
        (PasteStage::SourceCommit, PasteEvent::Committed(a)) => {
            let applied = match a {
                ReplayAttempt::Applied => true,
                _ => false,
            };
            (PasteRun { stage: PasteStage::Restore, source_committed: applied, ..r }, PasteAction::RestoreClipboard)
        },
        (PasteStage::Restore, PasteEvent::Restored(ok)) => {
            if !r.source_committed {
                finish_paste(PasteRun { restored: ok, ..r }, TextEditAttempt::Failed, false, false, false)
            } else {
                (PasteRun { stage: PasteStage::Layout, restored: ok, ..r }, PasteAction::SwitchLayout)
            }
        },
        (PasteStage::Layout, PasteEvent::Switched(a)) => match a {
            ReplayAttempt::Applied => (PasteRun { stage: PasteStage::TargetCommit, ..r }, PasteAction::AwaitTargetCommit),
            _ => finish_paste(r, TextEditAttempt::Failed, false, false, false),
        },
        (PasteStage::TargetCommit, PasteEvent::Committed(a)) => {
            let applied = match a {
                ReplayAttempt::Applied => true,
                _ => false,
            };
            let outcome = if r.restored && applied {
                TextEditAttempt::Applied
            } else {
                TextEditAttempt::Failed
            };
            finish_paste(r, outcome, false, false, false)
        },
        _ => finish_paste(r, TextEditAttempt::Failed, false, false, false),
    }
}

/// The kind of an event the worker takes from its queue.
#[derive(Debug, Clone, Copy, PartialEq, Eq, Structural)]
pub enum QueuedKind {
    Key,
    GateDrainReady,
    PrivacyRefresh,
    RecoverInput,
    Mouse,
    ExternalInjection,
    ReloadConfiguration,
}

/// What the worker does with a queued event.
#[derive(Debug, Clone, Copy, PartialEq, Eq, Structural)]
pub enum QueueAction {
    /// Apply the newer configuration and acknowledge its revision.
    ApplyConfiguration,
    /// Ignore a configuration that is not newer.
    IgnoreConfiguration,
    /// Handle the correction gate's drain report.
    DrainReady,
    /// Drop an event from an earlier input epoch.
    Drop,
    /// While a configuration is pending: forget the pending conversion, the
    /// input session and the recorded keys.
    Discard,
    Mouse,
    ExternalInjection,
    Key,
    Recover,
    PrivacyRefresh,
}

/// The worker's dispatch of a queued event: configuration reloads ignore
/// input epochs; an event from an epoch that is no longer current is
/// dropped (a drain report is still handled), after resetting to the
/// current epoch when the worker has not yet; a current event first resets
/// the worker to its epoch when needed; while a configuration is pending
/// only drain reports are handled. The first component is the epoch to
/// reset to, if any.
pub open spec fn queue_route_spec(
    kind: QueuedKind,
    reload_newer: bool,
    queued_epoch: u64,
    current_epoch: u64,
    last_epoch: u64,
    configuration_pending: bool,
) -> (Option<u64>, QueueAction) {
    if kind is ReloadConfiguration {
        (None, if reload_newer { QueueAction::ApplyConfiguration } else { QueueAction::IgnoreConfiguration })
    } else if queued_epoch != current_epoch {
        (
            if last_epoch != current_epoch { Some(current_epoch) } else { None },
            if kind is GateDrainReady { QueueAction::DrainReady } else { QueueAction::Drop },
        )
    } else {
        let reset = if queued_epoch != last_epoch { Some(queued_epoch) } else { None };
        (
            reset,
            if kind is GateDrainReady {
                QueueAction::DrainReady
            } else if configuration_pending {
                QueueAction::Discard
            } else {
                match kind {
                    QueuedKind::Mouse => QueueAction::Mouse,
                    QueuedKind::ExternalInjection => QueueAction::ExternalInjection,
                    QueuedKind::Key => QueueAction::Key,
                    QueuedKind::RecoverInput => QueueAction::Recover,
                    _ => QueueAction::PrivacyRefresh,
                }
            },
        )
    }
}

/// Dispatch a queued event; see `queue_route_spec`.
pub fn queue_route(
    kind: QueuedKind,
    reload_newer: bool,
    queued_epoch: u64,
    current_epoch: u64,
    last_epoch: u64,
    configuration_pending: bool,
) -> (r: (Option<u64>, QueueAction))
    ensures
        r == queue_route_spec(kind, reload_newer, queued_epoch, current_epoch, last_epoch, configuration_pending),
        r.1 is Key ==> queued_epoch == current_epoch && !configuration_pending,
{
    if let QueuedKind::ReloadConfiguration = kind {
        let a = if reload_newer {
            QueueAction::ApplyConfiguration
        } else {
            QueueAction::IgnoreConfiguration
        };
        return (None, a);
    }
    let drain = match kind {
        QueuedKind::GateDrainReady => true,
        _ => false,
    };
    if queued_epoch != current_epoch {
        let reset = if last_epoch != current_epoch {
            Some(current_epoch)
        } else {
            None
        };
        let a = if drain {
            QueueAction::DrainReady
        } else {
            QueueAction::Drop
        };
        return (reset, a);
    }
    let reset = if queued_epoch != last_epoch {
        Some(queued_epoch)
    } else {
        None
    };
    let a = if drain {
        QueueAction::DrainReady
    } else if configuration_pending {
        QueueAction::Discard
    } else {
        match kind {
            QueuedKind::Mouse => QueueAction::Mouse,
            QueuedKind::ExternalInjection => QueueAction::ExternalInjection,
            QueuedKind::Key => QueueAction::Key,
            QueuedKind::RecoverInput => QueueAction::Recover,
            _ => QueueAction::PrivacyRefresh,
        }
    };
    (reset, a)
}

} // verus!
