//! Platform-independent decisions of the Windows agent: the correction key
//! gate, foreground identity, text-edit backend selection, text barriers,
//! hotkey and modifier tracking, tray status and the budget of a
//! correction. The platform adapter reads the system, calls these, and
//! performs what they decide.

use vstd::prelude::*;

use crate::pack_id::{HOTKEY_MOD_ALT, HOTKEY_MOD_CONTROL, HOTKEY_MOD_SHIFT, HOTKEY_MOD_WIN, VK_CANCEL, VK_PAUSE};
use crate::detector::{extends_word, Detector};
use crate::pack_id::Language;
use crate::privacy::PrivacyBlockReason;
use crate::session::{lang_view, InputEvent};
use crate::settings::{Settings, SettingsView};
use crate::text::{is_whitespace, is_ws};
use crate::profile_resolver::{hex_text, hex_text_exec};
use crate::text::{decimal, string_of};
use crate::tray_visual::TrayVisual;
use crate::user_lexicon::{formatted_entry, lines_entries, UserLexicon};
use crate::settings::{text_lines, text_lines_exec};
use crate::text::{chars_of, unicode_lowercase};

verus! {

/// Longest time the correction gate may hold physical keys.
pub const CORRECTION_GATE_MAX_HOLD_MS: u64 = 1200;

/// Most key edges the correction gate holds.
pub const CORRECTION_GATE_CAPACITY: usize = 256;

/// Marker on events this process injects.
pub const INJECTED_EVENT_MARKER: u64 = 0x414B_4C59_5458_0001;

/// Marker on held events replayed by a gate drain.
pub const DRAINED_EVENT_MARKER: u64 = 0x414B_4C59_5458_0002;

/// Base of the correction gate's fence markers; the low 15 bits carry the token.
pub const GATE_FENCE_MARKER_BASE: u64 = 0x414B_4C59_5458_8000;

pub const HOOK_FORWARD_TIMEOUT_MS: u64 = 50;

pub const INPUT_SETTLE_AFTER_FORWARD_MS: u64 = 35;

pub const NOTEPAD_TEXT_BARRIER_TIMEOUT_MS: u64 = 150;

pub const UIA_SELECTION_CONFIRM_TIMEOUT_MS: u64 = 50;

pub const NOTEPAD_REPLAY_STEP_DELAY_MS: u64 = 3;

pub const NOTEPAD_REPLAY_GATE_MARGIN_MS: u64 = 200;

pub const LAYOUT_SWITCH_TIMEOUT_MS: u64 = 250;

pub const REPLAY_COMMIT_MS: u64 = 50;

pub const WM_KEYDOWN: u32 = 0x0100;

pub const WM_KEYUP: u32 = 0x0101;

pub const WM_SYSKEYDOWN: u32 = 0x0104;

pub const WM_SYSKEYUP: u32 = 0x0105;

pub const VK_SPACE: u16 = 0x20;

pub const VK_SHIFT: u16 = 0x10;

pub const VK_CONTROL: u16 = 0x11;

pub const VK_MENU: u16 = 0x12;

pub const VK_LWIN: u16 = 0x5B;

pub const VK_RWIN: u16 = 0x5C;

pub const VK_LSHIFT: u16 = 0xA0;

pub const VK_RSHIFT: u16 = 0xA1;

pub const VK_LCONTROL: u16 = 0xA2;

pub const VK_RCONTROL: u16 = 0xA3;

pub const VK_LMENU: u16 = 0xA4;

pub const VK_RMENU: u16 = 0xA5;

/// The window, focus, input thread, process and layout that received
/// input.
#[derive(Debug, Clone, Copy, PartialEq, Eq, Structural)]
pub struct ForegroundContext {
    pub hwnd: usize,
    pub focus: usize,
    pub input_thread_id: u32,
    pub process_id: u32,
    pub layout: usize,
}

/// The identity of an input session: window, focused control and process.
/// The focused input thread is not part of it.
pub fn foreground_identity_key(context: ForegroundContext) -> (r: (usize, usize, u32))
    ensures
        r == (context.hwnd, context.focus, context.process_id),
{
    (context.hwnd, context.focus, context.process_id)
}

/// Whether two contexts are the same session and the same input thread.
pub fn same_input_target(first: ForegroundContext, second: ForegroundContext) -> (r: bool)
    ensures
        r == (first.hwnd == second.hwnd && first.focus == second.focus && first.process_id
            == second.process_id && first.input_thread_id == second.input_thread_id),
{
    let a = foreground_identity_key(first);
    let b = foreground_identity_key(second);
    a.0 == b.0 && a.1 == b.1 && a.2 == b.2 && first.input_thread_id == second.input_thread_id
}

/// One raw key edge from the low-level hook.
#[derive(Debug, Clone, Copy, PartialEq, Eq)]
pub struct RawKeyEvent {
    pub message: u32,
    pub virtual_key: u32,
    pub scan_code: u32,
    pub caps_lock: bool,
    pub extended: bool,
    pub foreground: ForegroundContext,
    pub sequence: u64,
    pub drain_token: u64,
    pub hotkey_trigger: bool,
}

/// The fence marker of the correction gate with `token`.
pub open spec fn fence_marker_for(token: u64) -> u64 {
    GATE_FENCE_MARKER_BASE | (token & 0x7fff)
}

/// Whether `marker` lies in the correction gate's fence namespace.
pub open spec fn owned_marker(marker: u64) -> bool {
    marker & !0x7fffu64 == GATE_FENCE_MARKER_BASE
}

pub fn is_owned_gate_fence_marker(marker: u64) -> (r: bool)
    ensures
        r == owned_marker(marker),
{
    marker & !0x7fffu64 == GATE_FENCE_MARKER_BASE
}

/// Every fence marker a gate uses is recognized as the correction gate's own, and the
/// injection and drain markers are not.
pub proof fn lemma_fence_markers_are_owned(token: u64)
    ensures
        owned_marker(fence_marker_for(token)),
        !owned_marker(INJECTED_EVENT_MARKER),
        !owned_marker(DRAINED_EVENT_MARKER),
{
    assert((0x414B_4C59_5458_8000u64 | (token & 0x7fff)) & !0x7fffu64 == 0x414B_4C59_5458_8000u64) by (bit_vector);
    assert(0x414B_4C59_5458_0001u64 & !0x7fffu64 != 0x414B_4C59_5458_8000u64) by (bit_vector);
    assert(0x414B_4C59_5458_0002u64 & !0x7fffu64 != 0x414B_4C59_5458_8000u64) by (bit_vector);
}

/// Holds physical keys while a correction is applied, then replays them.
/// Times are milliseconds on a monotonic clock.
#[derive(Debug, Clone)]
pub struct CorrectionGate {
    pub active: bool,
    pub cancelled: bool,
    pub token: u64,
    pub fence_marker: u64,
    pub released_count: usize,
    pub current_drain_count: usize,
    pub drain_failed: bool,
    pub drain_in_flight: bool,
    pub awaiting_worker_ack: bool,
    pub handoff_budget_ms: u64,
    pub deadline_ms: u64,
    pub held: Vec<RawKeyEvent>,
    pub origin: Option<ForegroundContext>,
    pub pending_hotkey: Option<RawKeyEvent>,
}

impl Default for CorrectionGate {
    fn default() -> (r: CorrectionGate)
        ensures
            !r.active,
            !r.cancelled,
            r.token == 0,
            r.held@.len() == 0,
            r.pending_hotkey is None,
    {
        CorrectionGate {
            active: false,
            cancelled: false,
            token: 0,
            fence_marker: 0,
            released_count: 0,
            current_drain_count: 0,
            drain_failed: false,
            drain_in_flight: false,
            awaiting_worker_ack: false,
            handoff_budget_ms: 0,
            deadline_ms: 0,
            held: Vec::new(),
            origin: None,
            pending_hotkey: None,
        }
    }
}

/// The drain state reset for a new token.
pub open spec fn drain_reset(before: CorrectionGate, after: CorrectionGate, token: u64) -> bool {
    &&& after.token == token
    &&& after.fence_marker == fence_marker_for(token)
    &&& after.released_count == 0
    &&& after.current_drain_count == 0
    &&& !after.drain_failed
    &&& !after.drain_in_flight
    &&& !after.awaiting_worker_ack
    &&& after.handoff_budget_ms == 0
}

impl CorrectionGate {
    /// Keep a hotkey edge that arrived while the correction gate was busy; the first
    /// one kept wins.
    pub fn defer_hotkey(&mut self, event: RawKeyEvent)
        ensures
            *final(self) == (CorrectionGate {
                pending_hotkey: match old(self).pending_hotkey {
                    Some(e) => Some(e),
                    None => Some(RawKeyEvent { hotkey_trigger: true, ..event }),
                },
                ..*old(self)
            }),
    {
        if self.pending_hotkey.is_none() {
            self.pending_hotkey = Some(RawKeyEvent { hotkey_trigger: true, ..event });
        }
    }

    /// Take the deferred hotkey when it still targets `current`, retargeted
    /// to it and to this gate's drain. The deferred hotkey is gone in any
    /// case.
    pub fn take_pending_hotkey(&mut self, current: Option<ForegroundContext>) -> (r: Option<RawKeyEvent>)
        ensures
            final(self).pending_hotkey is None,
            final(self).token == old(self).token,
            final(self).held == old(self).held,
            r == (match (old(self).pending_hotkey, current) {
                (Some(e), Some(c)) => if e.foreground.hwnd == c.hwnd && e.foreground.focus == c.focus
                    && e.foreground.process_id == c.process_id && e.foreground.input_thread_id
                    == c.input_thread_id {
                    Some(RawKeyEvent { foreground: c, drain_token: old(self).token, ..e })
                } else {
                    None
                },
                _ => None,
            }),
    {
        let event = match self.pending_hotkey {
            Some(e) => e,
            None => return None,
        };
        self.pending_hotkey = None;
        let current = match current {
            Some(c) => c,
            None => return None,
        };
        if !same_input_target(event.foreground, current) {
            return None;
        }
        Some(RawKeyEvent { foreground: current, drain_token: self.token, ..event })
    }

    /// Open the correction gate for a correction with `token`, holding keys until
    /// `now_ms` plus the longest hold.
    pub fn activate(&mut self, token: u64, now_ms: u64)
        ensures
            final(self).active,
            !final(self).cancelled,
            drain_reset(*old(self), *final(self), token),
            final(self).held@.len() == 0,
            final(self).origin is None,
            final(self).pending_hotkey is None,
            final(self).deadline_ms == (if now_ms + CORRECTION_GATE_MAX_HOLD_MS <= u64::MAX {
                (now_ms + CORRECTION_GATE_MAX_HOLD_MS) as u64
            } else {
                u64::MAX
            }),
    {
        self.active = true;
        self.cancelled = false;
        self.token = token;
        self.fence_marker = GATE_FENCE_MARKER_BASE | (token & 0x7fff);
        self.released_count = 0;
        self.current_drain_count = 0;
        self.drain_failed = false;
        self.drain_in_flight = false;
        self.awaiting_worker_ack = false;
        self.handoff_budget_ms = 0;
        self.held.clear();
        self.origin = None;
        self.pending_hotkey = None;
        self.deadline_ms = now_ms.saturating_add(CORRECTION_GATE_MAX_HOLD_MS);
    }

    /// Hold `event`; false, holding nothing, when the correction gate is closed, its
    /// deadline has passed, or it is full. Held input is never dropped.
    pub fn hold(&mut self, event: RawKeyEvent, now_ms: u64) -> (r: bool)
        ensures
            r == (old(self).active && now_ms < old(self).deadline_ms && old(self).held@.len()
                < CORRECTION_GATE_CAPACITY),
            r ==> final(self).held@ == old(self).held@.push(event),
            !r ==> final(self).held@ == old(self).held@,
            final(self).token == old(self).token,
            final(self).active == old(self).active,
            final(self).deadline_ms == old(self).deadline_ms,
            final(self).origin == old(self).origin,
            final(self).cancelled == old(self).cancelled,
            final(self).drain_failed == old(self).drain_failed,
    {
        if !self.active {
            return false;
        }
        if now_ms >= self.deadline_ms || self.held.len() >= CORRECTION_GATE_CAPACITY {
            return false;
        }
        self.held.push(event);
        true
    }

    /// Whether a drain for `token` may start: one drain at a time, and none
    /// while the worker has not acknowledged the previous one.
    pub fn can_start_drain(&self, token: u64) -> (r: bool)
        ensures
            r == (self.active && self.token == token && !self.cancelled && !self.drain_in_flight
                && !self.awaiting_worker_ack),
    {
        self.active && self.token == token && !self.cancelled && !self.drain_in_flight
            && !self.awaiting_worker_ack
    }

    /// Hand the still-closed gate from `old_token` to `new_token` after the
    /// worker acknowledged a drain, when the remaining hold time covers the
    /// prepared budget.
    pub fn handoff(&mut self, old_token: u64, new_token: u64, now_ms: u64) -> (r: bool)
        ensures
            r == (old(self).active && !old(self).cancelled && old(self).awaiting_worker_ack
                && old(self).token == old_token && new_token != 0 && old(self).handoff_budget_ms != 0
                && (if now_ms <= old(self).deadline_ms {
                old(self).deadline_ms - now_ms
            } else {
                0
            }) >= old(self).handoff_budget_ms),
            r ==> drain_reset(*old(self), *final(self), new_token),
            !r ==> *final(self) == *old(self),
            final(self).held == old(self).held,
            final(self).active == old(self).active,
            final(self).deadline_ms == old(self).deadline_ms,
    {
        let remaining = self.deadline_ms.saturating_sub(now_ms);
        if !self.active || self.cancelled || !self.awaiting_worker_ack || self.token != old_token
            || new_token == 0 || self.handoff_budget_ms == 0 || remaining < self.handoff_budget_ms {
            return false;
        }
        self.token = new_token;
        self.fence_marker = GATE_FENCE_MARKER_BASE | (new_token & 0x7fff);
        self.released_count = 0;
        self.current_drain_count = 0;
        self.drain_failed = false;
        self.drain_in_flight = false;
        self.awaiting_worker_ack = false;
        self.handoff_budget_ms = 0;
        true
    }

    /// Record the hold time a handoff will need.
    pub fn prepare_handoff_budget(&mut self, old_token: u64, required_ms: u64) -> (r: bool)
        ensures
            r == (old(self).active && !old(self).cancelled && old(self).awaiting_worker_ack
                && old(self).token == old_token && required_ms != 0 && required_ms
                <= CORRECTION_GATE_MAX_HOLD_MS),
            r ==> *final(self) == (CorrectionGate { handoff_budget_ms: required_ms, ..*old(self) }),
            !r ==> *final(self) == *old(self),
    {
        if !self.active || self.cancelled || !self.awaiting_worker_ack || self.token != old_token
            || required_ms == 0 || required_ms > CORRECTION_GATE_MAX_HOLD_MS {
            return false;
        }
        self.handoff_budget_ms = required_ms;
        true
    }
}

pub const BACKEND_OBSERVE_ONLY: u8 = 0;

pub const BACKEND_PROTECTED_PASTE: u8 = 1;

pub const BACKEND_PHYSICAL_REPLAY: u8 = 2;

pub const BACKEND_CAPABILITY_PROBE: u8 = 3;

pub const BACKEND_CAPABILITY_UNSUPPORTED: u8 = 4;

pub const BACKEND_CAPABILITY_MISMATCH: u8 = 5;

pub const BACKEND_SELECTION_MISMATCH: u8 = 6;

pub const BACKEND_SELECTION_UNSUPPORTED: u8 = 7;

pub const PRIVACY_ALLOWED: u8 = 0;

pub const PRIVACY_PASSWORD: u8 = 1;

pub const PRIVACY_EXCLUDED: u8 = 2;

pub const PRIVACY_UNAVAILABLE: u8 = 3;

pub const PRIVACY_ELEVATED: u8 = 4;

/// How a correction is applied in the foreground application.
#[derive(Debug, Clone, Copy, PartialEq, Eq)]
pub enum TextEditBackend {
    ProtectedPaste,
    PhysicalReplay,
    CapabilityProbe,
    ObserveOnly,
}

impl TextEditBackend {
    /// Only a protected paste re-reads the source text before editing.
    pub fn requires_text_barrier(self) -> (r: bool)
        ensures
            r == (self is ProtectedPaste),
    {
        match self {
            TextEditBackend::ProtectedPaste => true,
            _ => false,
        }
    }

    /// The status code shown for the backend.
    pub fn status_code(self) -> (r: u8)
        ensures
            r == (match self {
                TextEditBackend::ProtectedPaste => BACKEND_PROTECTED_PASTE,
                TextEditBackend::PhysicalReplay => BACKEND_PHYSICAL_REPLAY,
                TextEditBackend::CapabilityProbe => BACKEND_CAPABILITY_PROBE,
                TextEditBackend::ObserveOnly => BACKEND_OBSERVE_ONLY,
            }),
    {
        match self {
            TextEditBackend::ProtectedPaste => BACKEND_PROTECTED_PASTE,
            TextEditBackend::PhysicalReplay => BACKEND_PHYSICAL_REPLAY,
            TextEditBackend::CapabilityProbe => BACKEND_CAPABILITY_PROBE,
            TextEditBackend::ObserveOnly => BACKEND_OBSERVE_ONLY,
        }
    }
}

/// What re-reading the source text before an edit found.
#[derive(Debug, Clone, Copy, PartialEq, Eq)]
pub enum TextBarrierStatus {
    Match,
    Mismatch,
    Unavailable,
}

/// Why the editable-control resolver stopped.
#[derive(Debug, Clone, Copy, PartialEq, Eq)]
pub enum EditableResolverReason {
    NoReason,
    AutomationUnavailable,
    FocusUnavailable,
    WalkerUnavailable,
    ProcessUnavailable,
    Password,
    PasswordPropertyUnavailable,
    ParentUnavailable,
    NoEditableAncestor,
    OwnershipUnproven,
}

#[derive(Debug, Clone, Copy, PartialEq, Eq)]
pub enum EditableResolverAction {
    Continue,
    ReturnCurrent,
}

/// An ancestor is accepted only when it is editable and belongs to the
/// exact foreground process.
pub fn editable_resolver_action(exact_process: bool, editable: bool) -> (r: EditableResolverAction)
    ensures
        (r is ReturnCurrent) == (exact_process && editable),
{
    if exact_process && editable {
        EditableResolverAction::ReturnCurrent
    } else {
        EditableResolverAction::Continue
    }
}

#[derive(Debug, Clone, Copy, PartialEq, Eq)]
pub enum CapabilityDecision {
    ProtectedPaste,
    PhysicalReplay,
    CancelMismatch,
    Unsupported,
}

/// The backend for an unknown host: an exact text barrier selects a
/// protected paste; a mismatch always cancels; only an unavailable barrier
/// may fall back to physical replay, and only when allowed.
pub fn capability_decision(barrier: TextBarrierStatus, physical_fallback_allowed: bool) -> (r: CapabilityDecision)
    ensures
        r == (match barrier {
            TextBarrierStatus::Match => CapabilityDecision::ProtectedPaste,
            TextBarrierStatus::Mismatch => CapabilityDecision::CancelMismatch,
            TextBarrierStatus::Unavailable => if physical_fallback_allowed {
                CapabilityDecision::PhysicalReplay
            } else {
                CapabilityDecision::Unsupported
            },
        }),
{
    match barrier {
        TextBarrierStatus::Match => CapabilityDecision::ProtectedPaste,
        TextBarrierStatus::Mismatch => CapabilityDecision::CancelMismatch,
        TextBarrierStatus::Unavailable => if physical_fallback_allowed {
            CapabilityDecision::PhysicalReplay
        } else {
            CapabilityDecision::Unsupported
        },
    }
}

/// A text mismatch never leads to a physical replay.
pub proof fn lemma_mismatch_never_replays(allowed: bool)
    ensures
        capability_spec(TextBarrierStatus::Mismatch, allowed) == CapabilityDecision::CancelMismatch,
{
}

pub open spec fn capability_spec(barrier: TextBarrierStatus, allowed: bool) -> CapabilityDecision {
    match barrier {
        TextBarrierStatus::Match => CapabilityDecision::ProtectedPaste,
        TextBarrierStatus::Mismatch => CapabilityDecision::CancelMismatch,
        TextBarrierStatus::Unavailable => if allowed {
            CapabilityDecision::PhysicalReplay
        } else {
            CapabilityDecision::Unsupported
        },
    }
}

/// Physical replay may stand in for an unavailable text barrier only when
/// the resolver could not prove ownership; never for a password field.
pub fn physical_replay_fallback_is_safe(reason: EditableResolverReason) -> (r: bool)
    ensures
        r == (reason is WalkerUnavailable || reason is ParentUnavailable || reason is NoEditableAncestor
            || reason is OwnershipUnproven),
{
    match reason {
        EditableResolverReason::WalkerUnavailable
        | EditableResolverReason::ParentUnavailable
        | EditableResolverReason::NoEditableAncestor
        | EditableResolverReason::OwnershipUnproven => true,
        _ => false,
    }
}

/// The layout the tray shows.
#[derive(Debug, Clone, Copy, PartialEq, Eq)]
pub enum LayoutIndicator {
    English,
    Russian,
    Estonian,
    Japanese,
    Other(u16),
    Unavailable,
}

/// The indicator for a layout handle: its language identifier is the low
/// word, the primary language its low ten bits.
pub open spec fn indicator_of(layout: usize) -> LayoutIndicator {
    let language_id = (layout % 0x10000) as u16;
    let primary = language_id % 0x400;
    if primary == 0x09 {
        LayoutIndicator::English
    } else if primary == 0x19 {
        LayoutIndicator::Russian
    } else if primary == 0x25 {
        LayoutIndicator::Estonian
    } else if primary == 0x11 {
        LayoutIndicator::Japanese
    } else if language_id == 0 {
        LayoutIndicator::Unavailable
    } else {
        LayoutIndicator::Other(language_id)
    }
}

impl LayoutIndicator {
    pub fn from_layout(layout: usize) -> (r: LayoutIndicator)
        ensures
            r == indicator_of(layout),
    {
        let language_id = (layout % 0x10000) as u16;
        let primary = language_id % 0x400;
        if primary == 0x09 {
            LayoutIndicator::English
        } else if primary == 0x19 {
            LayoutIndicator::Russian
        } else if primary == 0x25 {
            LayoutIndicator::Estonian
        } else if primary == 0x11 {
            LayoutIndicator::Japanese
        } else if language_id == 0 {
            LayoutIndicator::Unavailable
        } else {
            LayoutIndicator::Other(language_id)
        }
    }

    /// The two letters on the badge.
    pub fn icon_text(self) -> (r: &'static str)
        ensures
            r@ == (match self {
                LayoutIndicator::English => "EN"@,
                LayoutIndicator::Russian => "RU"@,
                LayoutIndicator::Estonian => "ET"@,
                LayoutIndicator::Japanese => "JA"@,
                _ => "??"@,
            }),
    {
        match self {
            LayoutIndicator::English => "EN",
            LayoutIndicator::Russian => "RU",
            LayoutIndicator::Estonian => "ET",
            LayoutIndicator::Japanese => "JA",
            _ => "??",
        }
    }

    /// The code in the tooltip: a three-letter name, the language
    /// identifier as `0xLLLL`, or `Unavailable`.
    pub fn tooltip_code(self) -> (r: String)
        ensures
            r@ == (match self {
                LayoutIndicator::English => "ENG"@,
                LayoutIndicator::Russian => "RUS"@,
                LayoutIndicator::Estonian => "EST"@,
                LayoutIndicator::Japanese => "JPN"@,
                LayoutIndicator::Other(id) => seq!['0', 'x'] + hex_text(id as nat, 4),
                LayoutIndicator::Unavailable => "Unavailable"@,
            }),
    {
        match self {
            LayoutIndicator::English => "ENG".to_string(),
            LayoutIndicator::Russian => "RUS".to_string(),
            LayoutIndicator::Estonian => "EST".to_string(),
            LayoutIndicator::Japanese => "JPN".to_string(),
            LayoutIndicator::Unavailable => "Unavailable".to_string(),
            LayoutIndicator::Other(id) => {
                let digits = hex_text_exec(id as u32, 4);
                let mut out: Vec<char> = vec!['0', 'x'];
                let ghost head = out@;
                let mut i: usize = 0;
                while i < digits.len()
                    invariant
                        i <= digits@.len(),
                        out@ == head + digits@.take(i as int),
                    decreases digits.len() - i,
                {
                    out.push(digits[i]);
                    assert(digits@.take(i + 1) == digits@.take(i as int).push(digits@[i as int]));
                    i = i + 1;
                }
                assert(digits@.take(digits@.len() as int) == digits@);
                assert(out@ =~= seq!['0', 'x'] + hex_text(id as nat, 4));
                string_of(&out)
            },
        }
    }
}

/// Why the last conversion failed.
#[derive(Debug, Clone, Copy, PartialEq, Eq, Structural)]
pub enum ConversionFailureReason {
    NoFailure,
    SourceBarrier,
    LayoutUnavailable,
    PhysicalEdit,
    TextCommit,
    ReplayCommit,
    GateDrain,
    ClipboardEdit,
}

impl ConversionFailureReason {
    /// The stored code of the reason.
    pub fn code(self) -> (r: u8)
        ensures
            r == (match self {
                ConversionFailureReason::NoFailure => 0u8,
                ConversionFailureReason::SourceBarrier => 1u8,
                ConversionFailureReason::LayoutUnavailable => 2u8,
                ConversionFailureReason::PhysicalEdit => 3u8,
                ConversionFailureReason::TextCommit => 4u8,
                ConversionFailureReason::ReplayCommit => 5u8,
                ConversionFailureReason::GateDrain => 6u8,
                ConversionFailureReason::ClipboardEdit => 7u8,
            }),
    {
        match self {
            ConversionFailureReason::NoFailure => 0,
            ConversionFailureReason::SourceBarrier => 1,
            ConversionFailureReason::LayoutUnavailable => 2,
            ConversionFailureReason::PhysicalEdit => 3,
            ConversionFailureReason::TextCommit => 4,
            ConversionFailureReason::ReplayCommit => 5,
            ConversionFailureReason::GateDrain => 6,
            ConversionFailureReason::ClipboardEdit => 7,
        }
    }
}

/// What the tray shows.
#[derive(Debug, Clone, Copy, PartialEq, Eq)]
pub struct TrayStatus {
    pub indicator: LayoutIndicator,
    pub ui_revision: u64,
    pub candidates: u64,
    pub dropped: u64,
    pub privacy_reason: u8,
    pub auto_enabled: bool,
    pub safety_paused: bool,
    pub undo_available: bool,
    pub failures: u64,
    pub failure_reason: u8,
    pub backend_status: u8,
}

impl TrayStatus {
    /// The status before anything was observed: conversion off, privacy not
    /// yet known, observation only.
    pub fn initial(indicator: LayoutIndicator) -> (r: TrayStatus)
        ensures
            r == (TrayStatus {
                indicator,
                ui_revision: 0,
                candidates: 0,
                dropped: 0,
                privacy_reason: PRIVACY_UNAVAILABLE,
                auto_enabled: false,
                safety_paused: false,
                undo_available: false,
                failures: 0,
                failure_reason: 0,
                backend_status: BACKEND_OBSERVE_ONLY,
            }),
    {
        TrayStatus {
            indicator,
            ui_revision: 0,
            candidates: 0,
            dropped: 0,
            privacy_reason: PRIVACY_UNAVAILABLE,
            auto_enabled: false,
            safety_paused: false,
            undo_available: false,
            failures: 0,
            failure_reason: 0,
            backend_status: BACKEND_OBSERVE_ONLY,
        }
    }
}

/// A failure notice is shown once per new failure, and not when the user
/// turned conversion back on.
pub fn should_notify_conversion_failure(previous: TrayStatus, current: TrayStatus) -> (r: bool)
    ensures
        r == (!current.auto_enabled && current.failures > previous.failures),
{
    !current.auto_enabled && current.failures > previous.failures
}

/// The badge mode of a status.
pub fn tray_visual_state(status: TrayStatus) -> (r: TrayVisual)
    ensures
        r == (if status.auto_enabled {
            TrayVisual::Active
        } else if status.safety_paused {
            TrayVisual::SafetyPaused
        } else {
            TrayVisual::Disabled
        }),
{
    if status.auto_enabled {
        TrayVisual::Active
    } else if status.safety_paused {
        TrayVisual::SafetyPaused
    } else {
        TrayVisual::Disabled
    }
}

pub const WM_CONTEXTMENU: u32 = 0x007B;

pub const WM_LBUTTONDBLCLK: u32 = 0x0203;

pub const NIN_SELECT: u32 = 0x0400;

pub const NIN_KEYSELECT: u32 = 0x0401;

#[derive(Debug, Clone, Copy, PartialEq, Eq)]
pub enum TrayInteraction {
    Settings,
    QuickMenu,
    Ignore,
}

/// A double click or a keyboard selection opens the settings; the context
/// menu opens the quick menu.
pub fn tray_interaction(notification: u32) -> (r: TrayInteraction)
    ensures
        r == (if notification == WM_LBUTTONDBLCLK || notification == NIN_KEYSELECT || notification
            == NIN_SELECT {
            TrayInteraction::Settings
        } else if notification == WM_CONTEXTMENU {
            TrayInteraction::QuickMenu
        } else {
            TrayInteraction::Ignore
        }),
{
    if notification == WM_LBUTTONDBLCLK || notification == NIN_KEYSELECT || notification == NIN_SELECT {
        TrayInteraction::Settings
    } else if notification == WM_CONTEXTMENU {
        TrayInteraction::QuickMenu
    } else {
        TrayInteraction::Ignore
    }
}

pub fn privacy_reason_code(reason: Option<PrivacyBlockReason>) -> (r: u8)
    ensures
        r == (match reason {
            None => PRIVACY_ALLOWED,
            Some(PrivacyBlockReason::PasswordField) => PRIVACY_PASSWORD,
            Some(PrivacyBlockReason::ExcludedProcess) => PRIVACY_EXCLUDED,
            Some(PrivacyBlockReason::ElevatedProcess) => PRIVACY_ELEVATED,
            Some(PrivacyBlockReason::InspectionUnavailable) => PRIVACY_UNAVAILABLE,
        }),
{
    match reason {
        None => PRIVACY_ALLOWED,
        Some(PrivacyBlockReason::PasswordField) => PRIVACY_PASSWORD,
        Some(PrivacyBlockReason::ExcludedProcess) => PRIVACY_EXCLUDED,
        Some(PrivacyBlockReason::ElevatedProcess) => PRIVACY_ELEVATED,
        Some(PrivacyBlockReason::InspectionUnavailable) => PRIVACY_UNAVAILABLE,
    }
}

pub fn privacy_reason_label(reason: u8) -> (r: Option<&'static str>)
    ensures
        r is Some == (reason == PRIVACY_PASSWORD || reason == PRIVACY_EXCLUDED || reason == PRIVACY_UNAVAILABLE
            || reason == PRIVACY_ELEVATED),
        reason == PRIVACY_PASSWORD ==> r->0@ == "password"@,
        reason == PRIVACY_EXCLUDED ==> r->0@ == "excluded"@,
        reason == PRIVACY_UNAVAILABLE ==> r->0@ == "unavailable"@,
        reason == PRIVACY_ELEVATED ==> r->0@ == "elevated"@,
{
    if reason == PRIVACY_PASSWORD {
        Some("password")
    } else if reason == PRIVACY_EXCLUDED {
        Some("excluded")
    } else if reason == PRIVACY_UNAVAILABLE {
        Some("unavailable")
    } else if reason == PRIVACY_ELEVATED {
        Some("elevated")
    } else {
        None
    }
}

pub fn conversion_failure_label(reason: u8) -> (r: &'static str)
    ensures
        r@ == (if reason == 1 {
            "source-barrier"@
        } else if reason == 2 {
            "layout-unavailable"@
        } else if reason == 3 {
            "physical-edit"@
        } else if reason == 4 {
            "text-commit"@
        } else if reason == 5 {
            "replay-commit"@
        } else if reason == 6 {
            "gate-drain"@
        } else if reason == 7 {
            "clipboard-edit"@
        } else {
            "unknown"@
        }),
{
    if reason == 1 {
        "source-barrier"
    } else if reason == 2 {
        "layout-unavailable"
    } else if reason == 3 {
        "physical-edit"
    } else if reason == 4 {
        "text-commit"
    } else if reason == 5 {
        "replay-commit"
    } else if reason == 6 {
        "gate-drain"
    } else if reason == 7 {
        "clipboard-edit"
    } else {
        "unknown"
    }
}

pub fn backend_status_label(status: u8) -> (r: &'static str)
    ensures
        r@ == (if status == BACKEND_PROTECTED_PASTE {
            "uia-paste"@
        } else if status == BACKEND_PHYSICAL_REPLAY {
            "physical-replay"@
        } else if status == BACKEND_CAPABILITY_PROBE {
            "capability-probe"@
        } else if status == BACKEND_CAPABILITY_UNSUPPORTED {
            "unsupported"@
        } else if status == BACKEND_CAPABILITY_MISMATCH {
            "text-mismatch"@
        } else if status == BACKEND_SELECTION_MISMATCH {
            "selection-mismatch"@
        } else if status == BACKEND_SELECTION_UNSUPPORTED {
            "selection-unsupported"@
        } else {
            "observe-only"@
        }),
{
    if status == BACKEND_PROTECTED_PASTE {
        "uia-paste"
    } else if status == BACKEND_PHYSICAL_REPLAY {
        "physical-replay"
    } else if status == BACKEND_CAPABILITY_PROBE {
        "capability-probe"
    } else if status == BACKEND_CAPABILITY_UNSUPPORTED {
        "unsupported"
    } else if status == BACKEND_CAPABILITY_MISMATCH {
        "text-mismatch"
    } else if status == BACKEND_SELECTION_MISMATCH {
        "selection-mismatch"
    } else if status == BACKEND_SELECTION_UNSUPPORTED {
        "selection-unsupported"
    } else {
        "observe-only"
    }
}

/// The shared flags that the hook callback and the worker consult.
#[derive(Debug, Clone, Copy, PartialEq, Eq)]
pub struct ObserverFlags {
    pub configuration_pending: bool,
    pub auto_enabled: bool,
    pub pause_break_undo: bool,
    pub recovery_armed: bool,
    pub force_hotkey_virtual_key: u32,
    pub force_hotkey_modifiers: u8,
    pub undo_hotkey_active: bool,
    pub hotkey_waiting_for_release: bool,
    pub explicit_hotkey_sequence: u64,
}

impl Default for ObserverFlags {
    fn default() -> (r: ObserverFlags)
        ensures
            r == (ObserverFlags {
                configuration_pending: false,
                auto_enabled: false,
                pause_break_undo: true,
                recovery_armed: false,
                force_hotkey_virtual_key: VK_PAUSE as u32,
                force_hotkey_modifiers: 0,
                undo_hotkey_active: false,
                hotkey_waiting_for_release: false,
                explicit_hotkey_sequence: 0,
            }),
    {
        ObserverFlags {
            configuration_pending: false,
            auto_enabled: false,
            pause_break_undo: true,
            recovery_armed: false,
            force_hotkey_virtual_key: VK_PAUSE as u32,
            force_hotkey_modifiers: 0,
            undo_hotkey_active: false,
            hotkey_waiting_for_release: false,
            explicit_hotkey_sequence: 0,
        }
    }
}

/// A correction with `token` may arm the correction gate when automatic conversion is
/// on, or when the token is the one an explicit hotkey press produced.
pub fn gate_request_enabled(flags: &ObserverFlags, token: u64) -> (r: bool)
    ensures
        r == (!flags.configuration_pending && (flags.auto_enabled || (token != 0
            && flags.pause_break_undo && flags.explicit_hotkey_sequence == token))),
{
    !flags.configuration_pending && (flags.auto_enabled || (token != 0 && flags.pause_break_undo
        && flags.explicit_hotkey_sequence == token))
}

/// Arm the short decision gate on a physical Space press only when
/// conversion is on, privacy allows it, no gate is open and no shortcut
/// modifier is held.
pub fn should_arm_space_decision_gate(
    drained: bool,
    key_down: bool,
    virtual_key: u16,
    auto_enabled: bool,
    privacy_reason: u8,
    gate_active: bool,
    shortcut_modifiers_released: bool,
) -> (r: bool)
    ensures
        r == (!drained && key_down && virtual_key == VK_SPACE && auto_enabled && privacy_reason
            == PRIVACY_ALLOWED && !gate_active && shortcut_modifiers_released),
{
    !drained && key_down && virtual_key == VK_SPACE && auto_enabled && privacy_reason == PRIVACY_ALLOWED
        && !gate_active && shortcut_modifiers_released
}

/// The hold time a correction needs, in milliseconds, before the margin:
/// a protected paste waits for two text barriers, the layout switch and the
/// paced steps; a capability probe adds its probes; a physical replay waits
/// for input to settle, the switch and the commit.
pub open spec fn budget_total(
    step_count: nat,
    requires_text_barrier: bool,
    capability_probe: bool,
    selection_confirmation: bool,
    include_forward_wait: bool,
) -> int {
    let base: int = if include_forward_wait {
        HOOK_FORWARD_TIMEOUT_MS as int
    } else {
        0
    };
    let body: int = if requires_text_barrier {
        let pacing: int = if step_count == 0 {
            0
        } else {
            (step_count - 1) * NOTEPAD_REPLAY_STEP_DELAY_MS
        };
        NOTEPAD_TEXT_BARRIER_TIMEOUT_MS + LAYOUT_SWITCH_TIMEOUT_MS + pacing + NOTEPAD_TEXT_BARRIER_TIMEOUT_MS
            + (if selection_confirmation {
            UIA_SELECTION_CONFIRM_TIMEOUT_MS as int
        } else {
            0
        })
    } else if capability_probe {
        INPUT_SETTLE_AFTER_FORWARD_MS + NOTEPAD_TEXT_BARRIER_TIMEOUT_MS + UIA_SELECTION_CONFIRM_TIMEOUT_MS
            + NOTEPAD_TEXT_BARRIER_TIMEOUT_MS + LAYOUT_SWITCH_TIMEOUT_MS + NOTEPAD_TEXT_BARRIER_TIMEOUT_MS
    } else {
        INPUT_SETTLE_AFTER_FORWARD_MS + LAYOUT_SWITCH_TIMEOUT_MS + REPLAY_COMMIT_MS
    };
    base + body + NOTEPAD_REPLAY_GATE_MARGIN_MS
}

/// The correction gate budget of a correction; none when it does not fit in `u64`.
pub fn conversion_gate_budget_ms(
    step_count: usize,
    requires_text_barrier: bool,
    capability_probe: bool,
    selection_confirmation: bool,
    include_forward_wait: bool,
) -> (r: Option<u64>)
    ensures
        r == (if budget_total(
            step_count as nat,
            requires_text_barrier,
            capability_probe,
            selection_confirmation,
            include_forward_wait,
        ) <= u64::MAX {
            Some(
                budget_total(
                    step_count as nat,
                    requires_text_barrier,
                    capability_probe,
                    selection_confirmation,
                    include_forward_wait,
                ) as u64,
            )
        } else {
            None::<u64>
        }),
{
    let mut total: u64 = if include_forward_wait {
        HOOK_FORWARD_TIMEOUT_MS
    } else {
        0
    };
    if requires_text_barrier {
        let steps: u64 = step_count as u64;
        let paced = steps.saturating_sub(1);
        let pacing = match paced.checked_mul(NOTEPAD_REPLAY_STEP_DELAY_MS) {
            Some(p) => p,
            None => return None,
        };
        total = total + NOTEPAD_TEXT_BARRIER_TIMEOUT_MS + LAYOUT_SWITCH_TIMEOUT_MS;
        total = match total.checked_add(pacing) {
            Some(t) => t,
            None => return None,
        };
        total = match total.checked_add(NOTEPAD_TEXT_BARRIER_TIMEOUT_MS) {
            Some(t) => t,
            None => return None,
        };
        if selection_confirmation {
            total = match total.checked_add(UIA_SELECTION_CONFIRM_TIMEOUT_MS) {
                Some(t) => t,
                None => return None,
            };
        }
    } else if capability_probe {
        total = total + INPUT_SETTLE_AFTER_FORWARD_MS + NOTEPAD_TEXT_BARRIER_TIMEOUT_MS
            + UIA_SELECTION_CONFIRM_TIMEOUT_MS + NOTEPAD_TEXT_BARRIER_TIMEOUT_MS
            + LAYOUT_SWITCH_TIMEOUT_MS + NOTEPAD_TEXT_BARRIER_TIMEOUT_MS;
    } else {
        total = total + INPUT_SETTLE_AFTER_FORWARD_MS + LAYOUT_SWITCH_TIMEOUT_MS + REPLAY_COMMIT_MS;
    }
    total.checked_add(NOTEPAD_REPLAY_GATE_MARGIN_MS)
}

/// Whether a paced protected paste of `step_count` steps fits in the
/// longest hold.
pub fn paced_replay_fits_gate(step_count: usize) -> (r: bool)
    ensures
        r == (budget_total(step_count as nat, true, false, false, true) <= CORRECTION_GATE_MAX_HOLD_MS),
{
    match conversion_gate_budget_ms(step_count, true, false, false, true) {
        Some(total) => total <= CORRECTION_GATE_MAX_HOLD_MS,
        None => false,
    }
}

/// The hotkey modifier bit of a modifier key.
pub open spec fn modifier_bit(virtual_key: u16) -> Option<u8> {
    if virtual_key == VK_CONTROL || virtual_key == VK_LCONTROL || virtual_key == VK_RCONTROL {
        Some(HOTKEY_MOD_CONTROL)
    } else if virtual_key == VK_MENU || virtual_key == VK_LMENU || virtual_key == VK_RMENU {
        Some(HOTKEY_MOD_ALT)
    } else if virtual_key == VK_SHIFT || virtual_key == VK_LSHIFT || virtual_key == VK_RSHIFT {
        Some(HOTKEY_MOD_SHIFT)
    } else if virtual_key == VK_LWIN || virtual_key == VK_RWIN {
        Some(HOTKEY_MOD_WIN)
    } else {
        None
    }
}

pub fn hotkey_modifier_bit(virtual_key: u16) -> (r: Option<u8>)
    ensures
        r == modifier_bit(virtual_key),
{
    if virtual_key == VK_CONTROL || virtual_key == VK_LCONTROL || virtual_key == VK_RCONTROL {
        Some(HOTKEY_MOD_CONTROL)
    } else if virtual_key == VK_MENU || virtual_key == VK_LMENU || virtual_key == VK_RMENU {
        Some(HOTKEY_MOD_ALT)
    } else if virtual_key == VK_SHIFT || virtual_key == VK_LSHIFT || virtual_key == VK_RSHIFT {
        Some(HOTKEY_MOD_SHIFT)
    } else if virtual_key == VK_LWIN || virtual_key == VK_RWIN {
        Some(HOTKEY_MOD_WIN)
    } else {
        None
    }
}

/// The same modifier on the other side of the keyboard.
pub open spec fn other_side(virtual_key: u16) -> Option<u16> {
    if virtual_key == VK_LCONTROL {
        Some(VK_RCONTROL)
    } else if virtual_key == VK_RCONTROL {
        Some(VK_LCONTROL)
    } else if virtual_key == VK_LMENU {
        Some(VK_RMENU)
    } else if virtual_key == VK_RMENU {
        Some(VK_LMENU)
    } else if virtual_key == VK_LSHIFT {
        Some(VK_RSHIFT)
    } else if virtual_key == VK_RSHIFT {
        Some(VK_LSHIFT)
    } else if virtual_key == VK_LWIN {
        Some(VK_RWIN)
    } else if virtual_key == VK_RWIN {
        Some(VK_LWIN)
    } else {
        None
    }
}

fn other_side_exec(virtual_key: u16) -> (r: Option<u16>)
    ensures
        r == other_side(virtual_key),
{
    if virtual_key == VK_LCONTROL {
        Some(VK_RCONTROL)
    } else if virtual_key == VK_RCONTROL {
        Some(VK_LCONTROL)
    } else if virtual_key == VK_LMENU {
        Some(VK_RMENU)
    } else if virtual_key == VK_RMENU {
        Some(VK_LMENU)
    } else if virtual_key == VK_LSHIFT {
        Some(VK_RSHIFT)
    } else if virtual_key == VK_RSHIFT {
        Some(VK_LSHIFT)
    } else if virtual_key == VK_LWIN {
        Some(VK_RWIN)
    } else if virtual_key == VK_RWIN {
        Some(VK_LWIN)
    } else {
        None
    }
}

/// Whether the system reports the modifier of hotkey bit `bit` as held,
/// given the keys it reports as down.
pub open spec fn bit_held(pressed: Seq<u16>, bit: u8) -> bool {
    if bit == HOTKEY_MOD_CONTROL {
        pressed.contains(VK_CONTROL)
    } else if bit == HOTKEY_MOD_ALT {
        pressed.contains(VK_MENU)
    } else if bit == HOTKEY_MOD_SHIFT {
        pressed.contains(VK_SHIFT)
    } else {
        pressed.contains(VK_LWIN) || pressed.contains(VK_RWIN)
    }
}

/// Whether modifier `bit` counts as held while handling a key edge: the
/// edge's own press counts at once; its release clears the modifier unless
/// the same modifier on the other side is still down.
pub open spec fn held_during_event(pressed: Seq<u16>, virtual_key: u16, key_down: bool, key_up: bool, bit: u8) -> bool {
    if modifier_bit(virtual_key) == Some(bit) {
        if key_down {
            true
        } else if key_up {
            bit_held(pressed, bit) && (other_side(virtual_key) matches Some(o) && pressed.contains(o))
        } else {
            bit_held(pressed, bit)
        }
    } else {
        bit_held(pressed, bit)
    }
}

/// The hotkey modifier mask of held modifiers.
pub open spec fn modifier_mask(control: bool, alt: bool, shift: bool, win: bool) -> u8 {
    ((if control { 1int } else { 0 }) + (if alt { 2int } else { 0 }) + (if shift { 4int } else { 0 }) + (if win {
        8int
    } else {
        0
    })) as u8
}

fn key_is_down(pressed: &[u16], key: u16) -> (r: bool)
    ensures
        r == pressed@.contains(key),
{
    let mut i: usize = 0;
    while i < pressed.len()
        invariant
            i <= pressed@.len(),
            forall|k: int| 0 <= k < i ==> pressed@[k] != key,
        decreases pressed.len() - i,
    {
        if pressed[i] == key {
            assert(pressed@[i as int] == key);
            return true;
        }
        i = i + 1;
    }
    false
}

fn held_during_event_exec(pressed: &[u16], virtual_key: u16, key_down: bool, key_up: bool, bit: u8) -> (r: bool)
    ensures
        r == held_during_event(pressed@, virtual_key, key_down, key_up, bit),
{
    let held = if bit == HOTKEY_MOD_CONTROL {
        key_is_down(pressed, VK_CONTROL)
    } else if bit == HOTKEY_MOD_ALT {
        key_is_down(pressed, VK_MENU)
    } else if bit == HOTKEY_MOD_SHIFT {
        key_is_down(pressed, VK_SHIFT)
    } else {
        key_is_down(pressed, VK_LWIN) || key_is_down(pressed, VK_RWIN)
    };
    match hotkey_modifier_bit(virtual_key) {
        Some(b) => {
            if b != bit {
                held
            } else if key_down {
                true
            } else if key_up {
                held && match other_side_exec(virtual_key) {
                    Some(o) => key_is_down(pressed, o),
                    None => false,
                }
            } else {
                held
            }
        },
        None => held,
    }
}

/// The hotkey modifiers held while handling a key edge, given the keys the
/// system reports as down.
pub fn pressed_hotkey_modifiers_for_event(virtual_key: u16, key_down: bool, key_up: bool, pressed: &[u16]) -> (r: u8)
    ensures
        r == modifier_mask(
            held_during_event(pressed@, virtual_key, key_down, key_up, HOTKEY_MOD_CONTROL),
            held_during_event(pressed@, virtual_key, key_down, key_up, HOTKEY_MOD_ALT),
            held_during_event(pressed@, virtual_key, key_down, key_up, HOTKEY_MOD_SHIFT),
            held_during_event(pressed@, virtual_key, key_down, key_up, HOTKEY_MOD_WIN),
        ),
{
    let control = held_during_event_exec(pressed, virtual_key, key_down, key_up, HOTKEY_MOD_CONTROL);
    let alt = held_during_event_exec(pressed, virtual_key, key_down, key_up, HOTKEY_MOD_ALT);
    let shift = held_during_event_exec(pressed, virtual_key, key_down, key_up, HOTKEY_MOD_SHIFT);
    let win = held_during_event_exec(pressed, virtual_key, key_down, key_up, HOTKEY_MOD_WIN);
    let mut mask: u8 = 0;
    if control {
        mask = mask + 1;
    }
    if alt {
        mask = mask + 2;
    }
    if shift {
        mask = mask + 4;
    }
    if win {
        mask = mask + 8;
    }
    mask
}

/// Set or clear `bit` in `mask`.
pub fn set_modifier_bit(mask: &mut u8, bit: u8, pressed: bool)
    ensures
        *final(mask) == (if pressed {
            *old(mask) | bit
        } else {
            *old(mask) & !bit
        }),
{
    if pressed {
        *mask = *mask | bit;
    } else {
        *mask = *mask & !bit;
    }
}

/// Track one of the left, right and generic keys of a modifier, as bits
/// 1, 2 and 4.
pub fn update_modifier_mask(mask: &mut u8, key: u16, generic: u16, left: u16, right: u16, pressed: bool)
    ensures
        *final(mask) == (if key == left {
            if pressed { *old(mask) | 1 } else { *old(mask) & !1u8 }
        } else if key == right {
            if pressed { *old(mask) | 2 } else { *old(mask) & !2u8 }
        } else if key == generic {
            if pressed { *old(mask) | 4 } else { *old(mask) & !4u8 }
        } else {
            *old(mask)
        }),
{
    let bit: u8 = if key == left {
        1
    } else if key == right {
        2
    } else if key == generic {
        4
    } else {
        return ;
    };
    set_modifier_bit(mask, bit, pressed);
}

/// Which modifier keys are physically held.
#[derive(Debug, Clone, Copy, Default, PartialEq, Eq)]
pub struct Modifiers {
    pub shift_mask: u8,
    pub control_mask: u8,
    pub alt_mask: u8,
    pub win_mask: u8,
}

impl Modifiers {
    /// Track a key edge; false when the key is no modifier.
    pub fn update(&mut self, virtual_key: u32, key_down: bool, key_up: bool) -> (r: bool)
        ensures
            r == (modifier_bit(virtual_key as u16) is Some),
            !r ==> *final(self) == *old(self),
    {
        let pressed = key_down && !key_up;
        let key = virtual_key as u16;
        if key == VK_SHIFT || key == VK_LSHIFT || key == VK_RSHIFT {
            update_modifier_mask(&mut self.shift_mask, key, VK_SHIFT, VK_LSHIFT, VK_RSHIFT, pressed);
            true
        } else if key == VK_CONTROL || key == VK_LCONTROL || key == VK_RCONTROL {
            update_modifier_mask(&mut self.control_mask, key, VK_CONTROL, VK_LCONTROL, VK_RCONTROL, pressed);
            true
        } else if key == VK_MENU || key == VK_LMENU || key == VK_RMENU {
            update_modifier_mask(&mut self.alt_mask, key, VK_MENU, VK_LMENU, VK_RMENU, pressed);
            true
        } else if key == VK_LWIN || key == VK_RWIN {
            let bit: u8 = if key == VK_LWIN {
                1
            } else {
                2
            };
            set_modifier_bit(&mut self.win_mask, bit, pressed);
            true
        } else {
            false
        }
    }

    pub fn shift(self) -> (r: bool)
        ensures
            r == (self.shift_mask != 0),
    {
        self.shift_mask != 0
    }

    pub fn control(self) -> (r: bool)
        ensures
            r == (self.control_mask != 0),
    {
        self.control_mask != 0
    }

    pub fn alt(self) -> (r: bool)
        ensures
            r == (self.alt_mask != 0),
    {
        self.alt_mask != 0
    }

    /// Ctrl, Alt or Windows held; Shift alone is no shortcut.
    pub fn has_shortcut_modifier(self) -> (r: bool)
        ensures
            r == (self.control_mask != 0 || self.alt_mask != 0 || self.win_mask != 0),
    {
        self.control() || self.alt() || self.win_mask != 0
    }
}

/// Mark key `index` pressed or released in a keyboard-state table; other
/// entries and other bits stay.
pub fn set_pressed(keyboard_state: &mut [u8; 256], index: usize, pressed: bool)
    ensures
        index < 256 ==> final(keyboard_state)@ == old(keyboard_state)@.update(
            index as int,
            if pressed {
                old(keyboard_state)@[index as int] | 0x80
            } else {
                old(keyboard_state)@[index as int] & 0x7f
            },
        ),
        index >= 256 ==> final(keyboard_state)@ == old(keyboard_state)@,
{
    if index < 256 {
        let v = keyboard_state[index];
        if pressed {
            keyboard_state[index] = v | 0x80;
        } else {
            keyboard_state[index] = v & 0x7f;
        }
    }
}

/// The UTF-16 code units of `c`.
pub open spec fn utf16_units(c: char) -> Seq<u16> {
    let u = c as u32;
    if u < 0x10000 {
        seq![u as u16]
    } else {
        let v = (u - 0x10000) as u32;
        seq![(0xD800 + v / 0x400) as u16, (0xDC00 + v % 0x400) as u16]
    }
}

pub const VK_CAPITAL: u16 = 0x14;

/// Entry `index` of a keyboard-state table marked pressed or released, when
/// it is in the table.
pub open spec fn with_pressed(state: Seq<u8>, index: int, pressed: bool) -> Seq<u8> {
    if 0 <= index < 256 {
        state.update(index, if pressed { state[index] | 0x80 } else { state[index] & 0x7f })
    } else {
        state
    }
}

/// The keyboard state under which a key edge is translated to text: the
/// system's state with the key pressed, Shift, Ctrl and Alt as tracked, and
/// Caps Lock as the edge reported it.
pub open spec fn translation_state(base: Seq<u8>, event: RawKeyEvent, modifiers: Modifiers) -> Seq<u8> {
    let s1 = with_pressed(base, event.virtual_key as int, true);
    let s2 = with_pressed(s1, VK_SHIFT as int, modifiers.shift_mask != 0);
    let s3 = with_pressed(s2, VK_CONTROL as int, modifiers.control_mask != 0);
    let s4 = with_pressed(s3, VK_MENU as int, modifiers.alt_mask != 0);
    s4.update(VK_CAPITAL as int, if event.caps_lock { 1 } else { 0 })
}

/// Prepare the system's keyboard state for translating `event`.
pub fn prepare_translation_state(keyboard_state: &mut [u8; 256], event: RawKeyEvent, modifiers: Modifiers)
    ensures
        final(keyboard_state)@ == translation_state(old(keyboard_state)@, event, modifiers),
{
    set_pressed(keyboard_state, event.virtual_key as usize, true);
    set_pressed(keyboard_state, VK_SHIFT as usize, modifiers.shift());
    set_pressed(keyboard_state, VK_CONTROL as usize, modifiers.control());
    set_pressed(keyboard_state, VK_MENU as usize, modifiers.alt());
    keyboard_state[VK_CAPITAL as usize] = if event.caps_lock {
        1
    } else {
        0
    };
}

proof fn lemma_utf16_units_shape(c: char)
    ensures
        utf16_units(c).len() == 1 ==> utf16_units(c)[0] == c as u32 && !(0xD800 <= c as u32 <= 0xDFFF),
        utf16_units(c).len() == 2 ==> 0xD800 <= utf16_units(c)[0] <= 0xDBFF && 0xDC00 <= utf16_units(c)[1]
            <= 0xDFFF && c as u32 == 0x10000 + (utf16_units(c)[0] - 0xD800) * 0x400 + (utf16_units(c)[1]
            - 0xDC00),
        1 <= utf16_units(c).len() <= 2,
{
    crate::text::lemma_char_scalar(c);
    let u = c as u32;
    if u >= 0x10000 {
        let v = (u - 0x10000) as u32;
        assert(v <= 0xFFFFF);
        assert(v / 0x400 <= 0x3FF && v % 0x400 < 0x400 && v == (v / 0x400) * 0x400 + v % 0x400) by (nonlinear_arith)
            requires
                v <= 0xFFFFF,
        ;
    }
}

/// The character that a translation wrote into its output, when its
/// `count` units encode exactly one character.
pub fn translated_character(output: &[u16; 8], count: i32) -> (r: Option<char>)
    requires
        count <= 8,
    ensures
        match r {
            Some(c) => count > 0 && utf16_units(c) == output@.take(count as int),
            None => count <= 0 || forall|c: char| utf16_units(c) != output@.take(count as int),
        },
{
    if count <= 0 {
        return None;
    }
    let ghost units = output@.take(count as int);
    if count == 1 {
        let u = output[0] as u32;
        if 0xD800 <= u && u <= 0xDFFF {
            proof {
                assert forall|c: char| utf16_units(c) != units by {
                    lemma_utf16_units_shape(c);
                }
            }
            return None;
        }
        match crate::text::char_from_u32(u) {
            Some(c) => {
                assert(utf16_units(c) =~= units);
                Some(c)
            },
            None => None,
        }
    } else if count == 2 {
        let hi = output[0] as u32;
        let lo = output[1] as u32;
        if !(0xD800 <= hi && hi <= 0xDBFF && 0xDC00 <= lo && lo <= 0xDFFF) {
            proof {
                assert forall|c: char| utf16_units(c) != units by {
                    lemma_utf16_units_shape(c);
                }
            }
            return None;
        }
        let code: u32 = 0x10000 + (hi - 0xD800) * 0x400 + (lo - 0xDC00);
        match crate::text::char_from_u32(code) {
            Some(c) => {
                proof {
                    let v = (code - 0x10000) as u32;
                    assert(v == (hi - 0xD800) * 0x400 + (lo - 0xDC00));
                    assert(v / 0x400 == hi - 0xD800 && v % 0x400 == lo - 0xDC00) by (nonlinear_arith)
                        requires
                            v == (hi - 0xD800) * 0x400 + (lo - 0xDC00),
                            0xD800 <= hi <= 0xDBFF,
                            0xDC00 <= lo <= 0xDFFF,
                    ;
                    assert(utf16_units(c) =~= units);
                }
                Some(c)
            },
            None => {
                proof {
                    assert(0x10000 <= code <= 0x10FFFF);
                }
                None
            },
        }
    } else {
        proof {
            assert forall|c: char| utf16_units(c) != units by {
                lemma_utf16_units_shape(c);
            }
        }
        None
    }
}

/// The UTF-16 units of the longest prefix of `cs` whose encoding fits in
/// `room` units: characters are never split, so a surrogate pair is never
/// cut in half.
pub open spec fn fitted_units(cs: Seq<char>, room: nat) -> Seq<u16>
    decreases cs.len(),
{
    if cs.len() == 0 || utf16_units(cs[0]).len() > room {
        Seq::<u16>::empty()
    } else {
        utf16_units(cs[0]) + fitted_units(cs.drop_first(), (room - utf16_units(cs[0]).len()) as nat)
    }
}

/// The contents of a zero-terminated buffer of `n` units holding `cs`.
pub open spec fn wide_buffer(cs: Seq<char>, n: nat) -> Seq<u16> {
    let units = fitted_units(cs, if n == 0 { 0 } else { (n - 1) as nat });
    units + Seq::new((n - units.len()) as nat, |i: int| 0u16)
}

proof fn lemma_fitted_len(cs: Seq<char>, room: nat)
    ensures
        fitted_units(cs, room).len() <= room,
    decreases cs.len(),
{
    if cs.len() > 0 && utf16_units(cs[0]).len() <= room {
        lemma_fitted_len(cs.drop_first(), (room - utf16_units(cs[0]).len()) as nat);
    }
}

/// Fill `buffer` with as much of `text` as fits before a terminating zero,
/// whole characters only, and zero the rest.
pub fn set_wide_text<const N: usize>(buffer: &mut [u16; N], text: &str)
    ensures
        final(buffer)@ == wide_buffer(text@, N as nat),
{
    let chars = crate::text::chars_of(text);
    let mut z: usize = 0;
    while z < N
        invariant
            z <= N,
            buffer@.len() == N,
            forall|k: int| 0 <= k < z ==> buffer@[k] == 0,
        decreases N - z,
    {
        buffer[z] = 0;
        z = z + 1;
    }
    let maximum: usize = if N == 0 { 0 } else { N - 1 };
    let ghost cs = chars@;
    let ghost total = fitted_units(cs, maximum as nat);
    proof {
        lemma_fitted_len(cs, maximum as nat);
        assert(cs.skip(0) =~= cs);
    }
    let mut written: usize = 0;
    let mut i: usize = 0;
    while i < chars.len()
        invariant
            i <= cs.len(),
            cs == chars@,
            buffer@.len() == N,
            maximum == (if N == 0 { 0 } else { N - 1 }),
            written <= maximum,
            total == fitted_units(cs, maximum as nat),
            buffer@.take(written as int) + fitted_units(cs.skip(i as int), (maximum - written) as nat) == total,
            forall|k: int| written <= k < N ==> buffer@[k] == 0,
        ensures
            buffer@.len() == N,
            written <= maximum,
            buffer@.take(written as int) =~= total,
            forall|k: int| written <= k < N ==> buffer@[k] == 0,
        decreases chars.len() - i,
    {
        let c = chars[i];
        let u = c as u32;
        let ghost rest = cs.skip(i as int);
        assert(rest[0] == c);
        assert(rest.drop_first() =~= cs.skip(i + 1));
        let ghost room = (maximum - written) as nat;
        if u < 0x10000 {
            if maximum - written < 1 {
                assert(fitted_units(rest, room) =~= Seq::<u16>::empty());
                break;
            }
            let ghost before = buffer@;
            buffer[written] = u as u16;
            assert(utf16_units(c) =~= seq![u as u16]);
            assert(buffer@.take(written + 1) =~= before.take(written as int) + utf16_units(c));
            written = written + 1;
        } else {
            if maximum - written < 2 {
                assert(fitted_units(rest, room) =~= Seq::<u16>::empty());
                break;
            }
            let v = u - 0x10000;
            let ghost before = buffer@;
            buffer[written] = (0xD800 + v / 0x400) as u16;
            buffer[written + 1] = (0xDC00 + v % 0x400) as u16;
            assert(utf16_units(c) =~= seq![(0xD800 + v / 0x400) as u16, (0xDC00 + v % 0x400) as u16]);
            assert(buffer@.take(written + 2) =~= before.take(written as int) + utf16_units(c));
            written = written + 2;
        }
        i = i + 1;
        proof {
            if i == cs.len() {
                assert(cs.skip(i as int) =~= Seq::<char>::empty());
            }
        }
    }
    assert(buffer@ =~= wide_buffer(cs, N as nat));
}

/// Whether the text read back before an edit is the expected text, or the
/// expected word followed by a no-break space where a space was expected.
pub open spec fn barrier_matches(actual: Seq<char>, expected: Seq<char>) -> bool {
    actual == expected || (expected.len() > 0 && expected.last() == ' ' && actual.len() > 0
        && actual.last() == '\u{a0}' && expected.drop_last() == actual.drop_last())
}

pub fn text_barrier_matches(actual: &str, expected: &str) -> (r: bool)
    ensures
        r == barrier_matches(actual@, expected@),
{
    let a = crate::text::chars_of(actual);
    let e = crate::text::chars_of(expected);
    if crate::text::chars_equal(&a, &e) {
        return true;
    }
    if e.len() == 0 || e[e.len() - 1] != ' ' || a.len() == 0 || a[a.len() - 1] != '\u{a0}' {
        return false;
    }
    let ew = crate::text::slice_to_vec(&e, 0, e.len() - 1);
    let aw = crate::text::slice_to_vec(&a, 0, a.len() - 1);
    assert(ew@ =~= e@.drop_last());
    assert(aw@ =~= a@.drop_last());
    crate::text::chars_equal(&ew, &aw)
}

#[derive(Debug, Clone, Copy, PartialEq, Eq)]
pub enum BarrierCharacterClass {
    Absent,
    Space,
    NonBreakingSpace,
    LineBreak,
    Other,
}

pub open spec fn class_of(c: Option<char>) -> BarrierCharacterClass {
    match c {
        None => BarrierCharacterClass::Absent,
        Some(x) => if x == ' ' {
            BarrierCharacterClass::Space
        } else if x == '\u{a0}' {
            BarrierCharacterClass::NonBreakingSpace
        } else if x == '\r' || x == '\n' {
            BarrierCharacterClass::LineBreak
        } else {
            BarrierCharacterClass::Other
        },
    }
}

pub fn barrier_character_class(character: Option<char>) -> (r: BarrierCharacterClass)
    ensures
        r == class_of(character),
{
    match character {
        None => BarrierCharacterClass::Absent,
        Some(x) => if x == ' ' {
            BarrierCharacterClass::Space
        } else if x == '\u{a0}' {
            BarrierCharacterClass::NonBreakingSpace
        } else if x == '\r' || x == '\n' {
            BarrierCharacterClass::LineBreak
        } else {
            BarrierCharacterClass::Other
        },
    }
}

/// How far the text barrier got.
#[derive(Debug, Clone, Copy, PartialEq, Eq)]
pub enum TextBarrierStage {
    NotStarted,
    Resolver,
    Selection,
    Caret,
    RangeMove,
    TextRead,
    TextCompared,
    SelectCall,
    SelectionConfirm,
}

/// Shapes of a barrier comparison, never the text itself.
#[derive(Debug, Clone, Copy, PartialEq, Eq)]
pub struct TextBarrierReport {
    pub stage: TextBarrierStage,
    pub expected_chars: usize,
    pub actual_chars: usize,
    pub moved_units: i32,
    pub exact: bool,
    pub trailing_nbsp_equivalent: bool,
    pub word_at_start: bool,
    pub word_at_end: bool,
    pub actual_without_first_is_word: bool,
    pub actual_without_last_is_word: bool,
    pub leading: BarrierCharacterClass,
    pub trailing: BarrierCharacterClass,
    pub resolver_depth: usize,
    pub resolver_reason: EditableResolverReason,
    pub resolver_process_id: u32,
}

/// The expected word: the expected text without one trailing space.
pub open spec fn expected_word(expected: Seq<char>) -> Seq<char> {
    if expected.len() > 0 && expected.last() == ' ' {
        expected.drop_last()
    } else {
        expected
    }
}

pub open spec fn report_of(actual: Seq<char>, expected: Seq<char>, stage: TextBarrierStage, moved_units: i32) -> TextBarrierReport {
    let w = expected_word(expected);
    TextBarrierReport {
        stage,
        expected_chars: expected.len() as usize,
        actual_chars: actual.len() as usize,
        moved_units,
        exact: actual == expected,
        trailing_nbsp_equivalent: expected.len() > 0 && expected.last() == ' ' && actual.len() > 0
            && actual.last() == '\u{a0}' && expected.drop_last() == actual.drop_last(),
        word_at_start: w.len() <= actual.len() && actual.take(w.len() as int) == w,
        word_at_end: w.len() <= actual.len() && actual.skip(actual.len() - w.len()) == w,
        actual_without_first_is_word: actual.len() >= 1 && actual.drop_first() == w,
        actual_without_last_is_word: (if actual.len() == 0 {
            actual
        } else {
            actual.drop_last()
        }) == w,
        leading: class_of(if actual.len() > 0 { Some(actual[0]) } else { None }),
        trailing: class_of(if actual.len() > 0 { Some(actual.last()) } else { None }),
        resolver_depth: 0,
        resolver_reason: EditableResolverReason::NoReason,
        resolver_process_id: 0,
    }
}

/// Describe a barrier comparison by its shape alone.
pub fn classify_text_barrier(actual: &str, expected: &str, stage: TextBarrierStage, moved_units: i32) -> (r: TextBarrierReport)
    ensures
        r == report_of(actual@, expected@, stage, moved_units),
{
    let a = crate::text::chars_of(actual);
    let e = crate::text::chars_of(expected);
    let w = if e.len() > 0 && e[e.len() - 1] == ' ' {
        crate::text::slice_to_vec(&e, 0, e.len() - 1)
    } else {
        crate::text::slice_to_vec(&e, 0, e.len())
    };
    assert(w@ =~= expected_word(e@));
    let exact = crate::text::chars_equal(&a, &e);
    let nbsp = e.len() > 0 && e[e.len() - 1] == ' ' && a.len() > 0 && a[a.len() - 1] == '\u{a0}'
        && {
        let ew = crate::text::slice_to_vec(&e, 0, e.len() - 1);
        let aw = crate::text::slice_to_vec(&a, 0, a.len() - 1);
        assert(ew@ =~= e@.drop_last());
        assert(aw@ =~= a@.drop_last());
        crate::text::chars_equal(&ew, &aw)
    };
    let at_start = w.len() <= a.len() && {
        let head = crate::text::slice_to_vec(&a, 0, w.len());
        assert(head@ =~= a@.take(w@.len() as int));
        crate::text::chars_equal(&head, &w)
    };
    let at_end = w.len() <= a.len() && {
        let tail = crate::text::slice_to_vec(&a, a.len() - w.len(), a.len());
        assert(tail@ =~= a@.skip(a@.len() - w@.len()));
        crate::text::chars_equal(&tail, &w)
    };
    let without_first = a.len() >= 1 && {
        let rest = crate::text::slice_to_vec(&a, 1, a.len());
        assert(rest@ =~= a@.drop_first());
        crate::text::chars_equal(&rest, &w)
    };
    let init_end = if a.len() == 0 { 0 } else { a.len() - 1 };
    let init = crate::text::slice_to_vec(&a, 0, init_end);
    assert(init@ =~= (if a@.len() == 0 { a@ } else { a@.drop_last() }));
    let without_last = crate::text::chars_equal(&init, &w);
    let first = if a.len() > 0 { Some(a[0]) } else { None };
    let last = if a.len() > 0 { Some(a[a.len() - 1]) } else { None };
    TextBarrierReport {
        stage,
        expected_chars: e.len(),
        actual_chars: a.len(),
        moved_units,
        exact,
        trailing_nbsp_equivalent: nbsp,
        word_at_start: at_start,
        word_at_end: at_end,
        actual_without_first_is_word: without_first,
        actual_without_last_is_word: without_last,
        leading: barrier_character_class(first),
        trailing: barrier_character_class(last),
        resolver_depth: 0,
        resolver_reason: EditableResolverReason::NoReason,
        resolver_process_id: 0,
    }
}

/// The first held Space press, which ends the chunk released with a
/// correction.
pub open spec fn first_space_down(held: Seq<RawKeyEvent>) -> Option<int>
    decreases held.len(),
{
    if held.len() == 0 {
        None
    } else {
        match first_space_down(held.drop_last()) {
            Some(i) => Some(i),
            None => if is_space_down(held.last()) {
                Some(held.len() - 1)
            } else {
                None
            },
        }
    }
}

pub open spec fn is_space_down(e: RawKeyEvent) -> bool {
    (e.virtual_key as u16) == VK_SPACE && (e.message == WM_KEYDOWN || e.message == WM_SYSKEYDOWN)
}

proof fn lemma_first_space_prefix(held: Seq<RawKeyEvent>, j: int)
    requires
        0 <= j <= held.len(),
        first_space_down(held.take(j)) is Some,
    ensures
        first_space_down(held) == first_space_down(held.take(j)),
    decreases held.len() - j,
{
    if j < held.len() {
        assert(held.take(j + 1).drop_last() =~= held.take(j));
        lemma_first_space_prefix(held, j + 1);
    } else {
        assert(held.take(j) =~= held);
    }
}

proof fn lemma_first_space_bound(held: Seq<RawKeyEvent>)
    ensures
        first_space_down(held) is Some ==> 0 <= first_space_down(held)->0 < held.len(),
    decreases held.len(),
{
    if held.len() > 0 {
        lemma_first_space_bound(held.drop_last());
    }
}

/// Take the held keys up to and including the first Space press, or all of
/// them; the rest stays held.
pub fn take_held_replay_prefix(held: &mut Vec<RawKeyEvent>) -> (r: Vec<RawKeyEvent>)
    ensures
        ({
            let end = match first_space_down(old(held)@) {
                Some(i) => i + 1,
                None => old(held)@.len() as int,
            };
            r@ == old(held)@.take(end) && final(held)@ == old(held)@.skip(end)
        }),
{
    let ghost all = held@;
    let mut end: usize = held.len();
    let mut i: usize = 0;
    assert(all.take(0) =~= Seq::<RawKeyEvent>::empty());
    proof {
        if all.len() == 0 {
            assert(all.take(0) =~= all);
        }
    }
    while i < held.len()
        invariant_except_break
            first_space_down(all.take(i as int)) is None,
            end == all.len(),
        invariant
            i <= all.len(),
            held@ == all,
            i == all.len() ==> all.take(i as int) == all,
        ensures
            end <= all.len(),
            match first_space_down(all) {
                Some(j) => end == j + 1,
                None => end == all.len(),
            },
        decreases held.len() - i,
    {
        assert(all.take(i + 1).drop_last() =~= all.take(i as int));
        assert(all.take(i + 1).last() == all[i as int]);
        proof {
            if i + 1 == all.len() {
                assert(all.take(i + 1) =~= all);
            }
        }
        let e = held[i];
        if e.virtual_key as u16 == VK_SPACE && (e.message == WM_KEYDOWN || e.message == WM_SYSKEYDOWN) {
            proof {
                lemma_first_space_prefix(all, i + 1);
            }
            end = i + 1;
            break;
        }
        i = i + 1;
    }
    let mut prefix: Vec<RawKeyEvent> = Vec::new();
    let mut rest: Vec<RawKeyEvent> = Vec::new();
    let mut k: usize = 0;
    while k < held.len()
        invariant
            k <= all.len(),
            held@ == all,
            end <= all.len(),
            k <= end ==> prefix@ == all.take(k as int) && rest@.len() == 0,
            k > end ==> prefix@ == all.take(end as int) && rest@ == all.subrange(end as int, k as int),
        decreases held.len() - k,
    {
        if k < end {
            prefix.push(held[k]);
            assert(all.take(k + 1) =~= all.take(k as int).push(all[k as int]));
        } else {
            rest.push(held[k]);
            assert(all.subrange(end as int, k + 1) =~= all.subrange(end as int, k as int).push(all[k as int]));
        }
        k = k + 1;
    }
    proof {
        if end == all.len() {
            assert(all.take(end as int) =~= all);
            assert(all.skip(end as int) =~= Seq::<RawKeyEvent>::empty());
        } else {
            assert(all.subrange(end as int, all.len() as int) =~= all.skip(end as int));
        }
    }
    *held = rest;
    prefix
}

/// Whether a held key other than a modifier or the Space release makes the
/// correction's undo record stale.
pub open spec fn invalidates_undo(e: RawKeyEvent) -> bool {
    modifier_bit(e.virtual_key as u16) is None && ((e.virtual_key as u16) != VK_SPACE || !(e.message
        == WM_KEYUP || e.message == WM_SYSKEYUP))
}

pub fn held_tail_invalidates_undo(held: &[RawKeyEvent]) -> (r: bool)
    ensures
        r == exists|i: int| 0 <= i < held@.len() && invalidates_undo(#[trigger] held@[i]),
{
    let mut i: usize = 0;
    while i < held.len()
        invariant
            i <= held@.len(),
            forall|k: int| 0 <= k < i ==> !invalidates_undo(#[trigger] held@[k]),
        decreases held.len() - i,
    {
        let e = held[i];
        let key = e.virtual_key as u16;
        if hotkey_modifier_bit(key).is_none() && (key != VK_SPACE || !(e.message == WM_KEYUP
            || e.message == WM_SYSKEYUP)) {
            assert(invalidates_undo(held@[i as int]));
            return true;
        }
        i = i + 1;
    }
    false
}

/// What the hook does with a hotkey edge.
#[derive(Debug, Clone, Copy, PartialEq, Eq)]
pub enum UndoHotkeyAction {
    PassThrough,
    Swallow,
    TriggerSwallow,
    TriggerPassThrough,
}

pub open spec fn key_matches(configured: u32, virtual_key: u16) -> bool {
    virtual_key == (configured as u16) || ((configured as u16) == VK_PAUSE && virtual_key == VK_CANCEL)
}

/// The contextual hotkey: undo while an undo record is valid, otherwise
/// force conversion. A hotkey with modifiers triggers only once every
/// modifier is released; Pause may arrive without a release. While the
/// configuration is being replaced only the release of an active press is
/// swallowed.
pub open spec fn hotkey_step(s: ObserverFlags, message: u32, virtual_key: u16, modifiers: u8) -> (ObserverFlags, UndoHotkeyAction) {
    let down = message == WM_KEYDOWN || message == WM_SYSKEYDOWN;
    let up = message == WM_KEYUP || message == WM_SYSKEYUP;
    let matches = key_matches(s.force_hotkey_virtual_key, virtual_key);
    if s.configuration_pending {
        if matches && s.undo_hotkey_active {
            if up {
                (ObserverFlags { undo_hotkey_active: false, hotkey_waiting_for_release: false, ..s }, UndoHotkeyAction::Swallow)
            } else {
                (s, UndoHotkeyAction::Swallow)
            }
        } else {
            (s, UndoHotkeyAction::PassThrough)
        }
    } else if !s.pause_break_undo && !s.recovery_armed && !s.undo_hotkey_active {
        (ObserverFlags { undo_hotkey_active: false, hotkey_waiting_for_release: false, ..s }, UndoHotkeyAction::PassThrough)
    } else if !down && !up {
        (s, UndoHotkeyAction::PassThrough)
    } else if matches && down {
        let fresh_pause_pulse = (s.force_hotkey_virtual_key as u16) == VK_PAUSE && !s.hotkey_waiting_for_release;
        if s.undo_hotkey_active && !fresh_pause_pulse {
            (ObserverFlags { undo_hotkey_active: true, ..s }, UndoHotkeyAction::Swallow)
        } else if modifiers != s.force_hotkey_modifiers {
            (ObserverFlags { undo_hotkey_active: false, ..s }, UndoHotkeyAction::PassThrough)
        } else if s.force_hotkey_modifiers == 0 {
            (ObserverFlags { undo_hotkey_active: true, ..s }, UndoHotkeyAction::TriggerSwallow)
        } else {
            (ObserverFlags { undo_hotkey_active: true, hotkey_waiting_for_release: true, ..s }, UndoHotkeyAction::Swallow)
        }
    } else if matches && up && s.undo_hotkey_active {
        if modifiers == 0 && s.hotkey_waiting_for_release {
            (ObserverFlags { undo_hotkey_active: false, hotkey_waiting_for_release: false, ..s }, UndoHotkeyAction::TriggerSwallow)
        } else {
            (ObserverFlags { undo_hotkey_active: false, ..s }, UndoHotkeyAction::Swallow)
        }
    } else if s.hotkey_waiting_for_release {
        if down && modifier_bit(virtual_key) is None {
            (ObserverFlags { hotkey_waiting_for_release: false, ..s }, UndoHotkeyAction::PassThrough)
        } else if up && modifiers == 0 && modifier_bit(virtual_key) is Some {
            (ObserverFlags { hotkey_waiting_for_release: false, ..s }, UndoHotkeyAction::TriggerPassThrough)
        } else {
            (s, UndoHotkeyAction::PassThrough)
        }
    } else {
        (s, UndoHotkeyAction::PassThrough)
    }
}

pub fn contextual_hotkey_action(flags: &mut ObserverFlags, message: u32, virtual_key: u16, modifiers: u8) -> (r: UndoHotkeyAction)
    ensures
        (*final(flags), r) == hotkey_step(*old(flags), message, virtual_key, modifiers),
{
    let key_down = message == WM_KEYDOWN || message == WM_SYSKEYDOWN;
    let key_up = message == WM_KEYUP || message == WM_SYSKEYUP;
    let configured_key = flags.force_hotkey_virtual_key as u16;
    let configured = crate::pack_id::Hotkey { virtual_key: configured_key, modifiers: 0 };
    let matches = configured.matches_key(virtual_key);
    if flags.configuration_pending {
        if matches && flags.undo_hotkey_active {
            if key_up {
                flags.undo_hotkey_active = false;
                flags.hotkey_waiting_for_release = false;
            }
            return UndoHotkeyAction::Swallow;
        }
        return UndoHotkeyAction::PassThrough;
    }
    if !flags.pause_break_undo && !flags.recovery_armed && !flags.undo_hotkey_active {
        flags.undo_hotkey_active = false;
        flags.hotkey_waiting_for_release = false;
        return UndoHotkeyAction::PassThrough;
    }
    if !key_down && !key_up {
        return UndoHotkeyAction::PassThrough;
    }
    let configured_modifiers = flags.force_hotkey_modifiers;
    if matches {
        if key_down {
            let already_down = flags.undo_hotkey_active;
            flags.undo_hotkey_active = true;
            let fresh_pause_pulse = configured_key == VK_PAUSE && !flags.hotkey_waiting_for_release;
            if already_down && !fresh_pause_pulse {
                return UndoHotkeyAction::Swallow;
            }
            if modifiers != configured_modifiers {
                flags.undo_hotkey_active = false;
                return UndoHotkeyAction::PassThrough;
            }
            if configured_modifiers == 0 {
                return UndoHotkeyAction::TriggerSwallow;
            }
            flags.hotkey_waiting_for_release = true;
            return UndoHotkeyAction::Swallow;
        }
        let was_active = flags.undo_hotkey_active;
        flags.undo_hotkey_active = false;
        if was_active {
            if modifiers == 0 && flags.hotkey_waiting_for_release {
                flags.hotkey_waiting_for_release = false;
                return UndoHotkeyAction::TriggerSwallow;
            }
            return UndoHotkeyAction::Swallow;
        }
    }
    if flags.hotkey_waiting_for_release {
        if key_down && hotkey_modifier_bit(virtual_key).is_none() {
            flags.hotkey_waiting_for_release = false;
        } else if key_up && modifiers == 0 && hotkey_modifier_bit(virtual_key).is_some() {
            flags.hotkey_waiting_for_release = false;
            return UndoHotkeyAction::TriggerPassThrough;
        }
    }
    UndoHotkeyAction::PassThrough
}

/// A hotkey with modifiers never triggers on its key press; it triggers
/// only on a release with no modifier held.
pub proof fn lemma_modified_hotkey_waits_for_release(s: ObserverFlags, message: u32, virtual_key: u16, modifiers: u8)
    requires
        !s.configuration_pending,
        s.force_hotkey_modifiers != 0,
        message == WM_KEYDOWN || message == WM_SYSKEYDOWN,
    ensures
        !(hotkey_step(s, message, virtual_key, modifiers).1 is TriggerSwallow),
        !(hotkey_step(s, message, virtual_key, modifiers).1 is TriggerPassThrough),
{
}

/// While the configuration is replaced, nothing triggers.
pub proof fn lemma_pending_configuration_never_triggers(s: ObserverFlags, message: u32, virtual_key: u16, modifiers: u8)
    requires
        s.configuration_pending,
    ensures
        hotkey_step(s, message, virtual_key, modifiers).1 is Swallow
            || hotkey_step(s, message, virtual_key, modifiers).1 is PassThrough,
{
}

fn push_chars(out: &mut Vec<char>, s: &[char])
    ensures
        final(out)@ == old(out)@ + s@,
{
    let ghost start = out@;
    let mut i: usize = 0;
    while i < s.len()
        invariant
            i <= s@.len(),
            out@ == start + s@.take(i as int),
        decreases s.len() - i,
    {
        out.push(s[i]);
        assert(s@.take(i + 1) =~= s@.take(i as int).push(s@[i as int]));
        i = i + 1;
    }
    assert(s@.take(s@.len() as int) =~= s@);
}

fn push_str(out: &mut Vec<char>, s: &str)
    ensures
        final(out)@ == old(out)@ + s@,
{
    push_chars(out, &crate::text::chars_of(s));
}

pub open spec fn bool_word(b: bool) -> Seq<char> {
    if b {
        "true"@
    } else {
        "false"@
    }
}

/// `i` in decimal with a leading minus sign when negative.
pub open spec fn signed_decimal(i: int) -> Seq<char> {
    if i < 0 {
        seq!['-'] + decimal((-i) as nat)
    } else {
        decimal(i as nat)
    }
}

pub open spec fn stage_name(s: TextBarrierStage) -> Seq<char> {
    match s {
        TextBarrierStage::NotStarted => "None"@,
        TextBarrierStage::Resolver => "Resolver"@,
        TextBarrierStage::Selection => "Selection"@,
        TextBarrierStage::Caret => "Caret"@,
        TextBarrierStage::RangeMove => "RangeMove"@,
        TextBarrierStage::TextRead => "TextRead"@,
        TextBarrierStage::TextCompared => "TextCompared"@,
        TextBarrierStage::SelectCall => "SelectCall"@,
        TextBarrierStage::SelectionConfirm => "SelectionConfirm"@,
    }
}

fn stage_label(s: TextBarrierStage) -> (r: &'static str)
    ensures
        r@ == stage_name(s),
{
    match s {
        TextBarrierStage::NotStarted => "None",
        TextBarrierStage::Resolver => "Resolver",
        TextBarrierStage::Selection => "Selection",
        TextBarrierStage::Caret => "Caret",
        TextBarrierStage::RangeMove => "RangeMove",
        TextBarrierStage::TextRead => "TextRead",
        TextBarrierStage::TextCompared => "TextCompared",
        TextBarrierStage::SelectCall => "SelectCall",
        TextBarrierStage::SelectionConfirm => "SelectionConfirm",
    }
}

pub open spec fn reason_name(r: EditableResolverReason) -> Seq<char> {
    match r {
        EditableResolverReason::NoReason => "None"@,
        EditableResolverReason::AutomationUnavailable => "AutomationUnavailable"@,
        EditableResolverReason::FocusUnavailable => "FocusUnavailable"@,
        EditableResolverReason::WalkerUnavailable => "WalkerUnavailable"@,
        EditableResolverReason::ProcessUnavailable => "ProcessUnavailable"@,
        EditableResolverReason::Password => "Password"@,
        EditableResolverReason::PasswordPropertyUnavailable => "PasswordPropertyUnavailable"@,
        EditableResolverReason::ParentUnavailable => "ParentUnavailable"@,
        EditableResolverReason::NoEditableAncestor => "NoEditableAncestor"@,
        EditableResolverReason::OwnershipUnproven => "OwnershipUnproven"@,
    }
}

fn reason_label(r: EditableResolverReason) -> (out: &'static str)
    ensures
        out@ == reason_name(r),
{
    match r {
        EditableResolverReason::NoReason => "None",
        EditableResolverReason::AutomationUnavailable => "AutomationUnavailable",
        EditableResolverReason::FocusUnavailable => "FocusUnavailable",
        EditableResolverReason::WalkerUnavailable => "WalkerUnavailable",
        EditableResolverReason::ProcessUnavailable => "ProcessUnavailable",
        EditableResolverReason::Password => "Password",
        EditableResolverReason::PasswordPropertyUnavailable => "PasswordPropertyUnavailable",
        EditableResolverReason::ParentUnavailable => "ParentUnavailable",
        EditableResolverReason::NoEditableAncestor => "NoEditableAncestor",
        EditableResolverReason::OwnershipUnproven => "OwnershipUnproven",
    }
}

pub open spec fn class_name(c: BarrierCharacterClass) -> Seq<char> {
    match c {
        BarrierCharacterClass::Absent => "None"@,
        BarrierCharacterClass::Space => "Space"@,
        BarrierCharacterClass::NonBreakingSpace => "NonBreakingSpace"@,
        BarrierCharacterClass::LineBreak => "LineBreak"@,
        BarrierCharacterClass::Other => "Other"@,
    }
}

fn class_label(c: BarrierCharacterClass) -> (r: &'static str)
    ensures
        r@ == class_name(c),
{
    match c {
        BarrierCharacterClass::Absent => "None",
        BarrierCharacterClass::Space => "Space",
        BarrierCharacterClass::NonBreakingSpace => "NonBreakingSpace",
        BarrierCharacterClass::LineBreak => "LineBreak",
        BarrierCharacterClass::Other => "Other",
    }
}

fn bool_label(b: bool) -> (r: &'static str)
    ensures
        r@ == bool_word(b),
{
    if b {
        "true"
    } else {
        "false"
    }
}

fn signed_decimal_chars(i: i32) -> (r: Vec<char>)
    ensures
        r@ == signed_decimal(i as int),
{
    if i < 0 {
        let magnitude: u64 = (-(i as i64)) as u64;
        let mut out: Vec<char> = vec!['-'];
        let digits = crate::text::decimal_chars(magnitude as usize);
        push_chars(&mut out, &digits);
        out
    } else {
        crate::text::decimal_chars(i as usize)
    }
}

/// The diagnostic line of a barrier report: stages, counts and character
/// classes, never the compared text.
pub open spec fn report_text(r: TextBarrierReport) -> Seq<char> {
    "stage="@ + stage_name(r.stage) + ",resolver_reason="@ + reason_name(r.resolver_reason)
        + ",resolver_depth="@ + decimal(r.resolver_depth as nat) + ",resolver_pid="@ + decimal(
        r.resolver_process_id as nat,
    ) + ",expected_chars="@ + decimal(r.expected_chars as nat) + ",actual_chars="@ + decimal(
        r.actual_chars as nat,
    ) + ",moved_units="@ + signed_decimal(r.moved_units as int) + ",exact="@ + bool_word(r.exact)
        + ",nbsp_equiv="@ + bool_word(r.trailing_nbsp_equivalent) + ",word_at_start="@ + bool_word(
        r.word_at_start,
    ) + ",word_at_end="@ + bool_word(r.word_at_end) + ",drop_first_is_word="@ + bool_word(
        r.actual_without_first_is_word,
    ) + ",drop_last_is_word="@ + bool_word(r.actual_without_last_is_word) + ",leading="@
        + class_name(r.leading) + ",trailing="@ + class_name(r.trailing)
}

pub fn format_text_barrier_report(report: TextBarrierReport) -> (r: String)
    ensures
        r@ == report_text(report),
{
    let mut out: Vec<char> = Vec::new();
    push_str(&mut out, "stage=");
    push_str(&mut out, stage_label(report.stage));
    push_str(&mut out, ",resolver_reason=");
    push_str(&mut out, reason_label(report.resolver_reason));
    push_str(&mut out, ",resolver_depth=");
    push_chars(&mut out, &crate::text::decimal_chars(report.resolver_depth));
    push_str(&mut out, ",resolver_pid=");
    push_chars(&mut out, &crate::text::decimal_chars(report.resolver_process_id as usize));
    push_str(&mut out, ",expected_chars=");
    push_chars(&mut out, &crate::text::decimal_chars(report.expected_chars));
    push_str(&mut out, ",actual_chars=");
    push_chars(&mut out, &crate::text::decimal_chars(report.actual_chars));
    push_str(&mut out, ",moved_units=");
    push_chars(&mut out, &signed_decimal_chars(report.moved_units));
    push_str(&mut out, ",exact=");
    push_str(&mut out, bool_label(report.exact));
    push_str(&mut out, ",nbsp_equiv=");
    push_str(&mut out, bool_label(report.trailing_nbsp_equivalent));
    push_str(&mut out, ",word_at_start=");
    push_str(&mut out, bool_label(report.word_at_start));
    push_str(&mut out, ",word_at_end=");
    push_str(&mut out, bool_label(report.word_at_end));
    push_str(&mut out, ",drop_first_is_word=");
    push_str(&mut out, bool_label(report.actual_without_first_is_word));
    push_str(&mut out, ",drop_last_is_word=");
    push_str(&mut out, bool_label(report.actual_without_last_is_word));
    push_str(&mut out, ",leading=");
    push_str(&mut out, class_label(report.leading));
    push_str(&mut out, ",trailing=");
    push_str(&mut out, class_label(report.trailing));
    assert(out@ =~= report_text(report));
    string_of(&out)
}

pub const VK_BACK: u16 = 0x08;

pub const VK_TAB: u16 = 0x09;

pub const VK_RETURN: u16 = 0x0D;

pub const VK_END: u16 = 0x23;

pub const VK_HOME: u16 = 0x24;

pub const VK_LEFT: u16 = 0x25;

pub const VK_UP: u16 = 0x26;

pub const VK_RIGHT: u16 = 0x27;

pub const VK_DOWN: u16 = 0x28;

pub const VK_DELETE: u16 = 0x2E;

/// What the input processor does with one key edge, before any text is
/// read.
#[derive(Debug, Clone, Copy, PartialEq, Eq)]
pub enum KeyRoute {
    /// Nothing: no key edge, a modifier edge, a release, or a Space release.
    Ignore,
    /// A contextual hotkey edge.
    Hotkey,
    /// A Space press while a conversion is already pending: only the undo
    /// record is dropped.
    PendingSpace,
    /// A key pressed with Ctrl, Alt or Windows held.
    Shortcut,
    /// An edit or navigation key: the session event and whether its setting
    /// suppresses the word until the next boundary (otherwise the word is
    /// only cleared).
    SwitchingRule(InputEvent, bool),
    Space,
    Tab,
    Return,
    /// A key whose text is read and fed to the session.
    Text,
}

/// Route a key edge: hotkeys first, then modifier edges and releases are
/// ignored, a Space press waits for a pending conversion, shortcuts end the
/// word, and edit and navigation keys apply their switching settings.
pub open spec fn key_route(
    virtual_key: u16,
    key_down: bool,
    key_up: bool,
    hotkey_trigger: bool,
    modifier_event: bool,
    shortcut_held: bool,
    conversion_pending: bool,
    s: SettingsView,
) -> KeyRoute {
    if !key_down && !key_up {
        KeyRoute::Ignore
    } else if hotkey_trigger {
        KeyRoute::Hotkey
    } else if modifier_event || (key_up && virtual_key == VK_SPACE) || !key_down {
        KeyRoute::Ignore
    } else if virtual_key == VK_SPACE && conversion_pending {
        KeyRoute::PendingSpace
    } else if shortcut_held {
        KeyRoute::Shortcut
    } else if virtual_key == VK_BACK {
        KeyRoute::SwitchingRule(InputEvent::Backspace, s.flags.suppress_after_backspace)
    } else if virtual_key == VK_DELETE {
        KeyRoute::SwitchingRule(InputEvent::Delete, s.flags.suppress_after_delete)
    } else if virtual_key == VK_LEFT {
        KeyRoute::SwitchingRule(InputEvent::Navigation, s.flags.suppress_after_left)
    } else if virtual_key == VK_RIGHT {
        KeyRoute::SwitchingRule(InputEvent::Navigation, s.flags.suppress_after_right)
    } else if virtual_key == VK_UP {
        KeyRoute::SwitchingRule(InputEvent::Navigation, s.flags.suppress_after_up)
    } else if virtual_key == VK_DOWN {
        KeyRoute::SwitchingRule(InputEvent::Navigation, s.flags.suppress_after_down)
    } else if virtual_key == VK_HOME || virtual_key == VK_END {
        KeyRoute::SwitchingRule(InputEvent::Navigation, s.flags.suppress_after_home_end)
    } else if virtual_key == VK_SPACE {
        KeyRoute::Space
    } else if virtual_key == VK_TAB {
        KeyRoute::Tab
    } else if virtual_key == VK_RETURN {
        KeyRoute::Return
    } else {
        KeyRoute::Text
    }
}

pub fn route_key(
    virtual_key: u16,
    key_down: bool,
    key_up: bool,
    hotkey_trigger: bool,
    modifier_event: bool,
    shortcut_held: bool,
    conversion_pending: bool,
    settings: &Settings,
) -> (r: KeyRoute)
    ensures
        r == key_route(
            virtual_key,
            key_down,
            key_up,
            hotkey_trigger,
            modifier_event,
            shortcut_held,
            conversion_pending,
            settings@,
        ),
{
    if !key_down && !key_up {
        KeyRoute::Ignore
    } else if hotkey_trigger {
        KeyRoute::Hotkey
    } else if modifier_event || (key_up && virtual_key == VK_SPACE) || !key_down {
        KeyRoute::Ignore
    } else if virtual_key == VK_SPACE && conversion_pending {
        KeyRoute::PendingSpace
    } else if shortcut_held {
        KeyRoute::Shortcut
    } else if virtual_key == VK_BACK {
        KeyRoute::SwitchingRule(InputEvent::Backspace, settings.suppress_after_backspace)
    } else if virtual_key == VK_DELETE {
        KeyRoute::SwitchingRule(InputEvent::Delete, settings.suppress_after_delete)
    } else if virtual_key == VK_LEFT {
        KeyRoute::SwitchingRule(InputEvent::Navigation, settings.suppress_after_left)
    } else if virtual_key == VK_RIGHT {
        KeyRoute::SwitchingRule(InputEvent::Navigation, settings.suppress_after_right)
    } else if virtual_key == VK_UP {
        KeyRoute::SwitchingRule(InputEvent::Navigation, settings.suppress_after_up)
    } else if virtual_key == VK_DOWN {
        KeyRoute::SwitchingRule(InputEvent::Navigation, settings.suppress_after_down)
    } else if virtual_key == VK_HOME || virtual_key == VK_END {
        KeyRoute::SwitchingRule(InputEvent::Navigation, settings.suppress_after_home_end)
    } else if virtual_key == VK_SPACE {
        KeyRoute::Space
    } else if virtual_key == VK_TAB {
        KeyRoute::Tab
    } else if virtual_key == VK_RETURN {
        KeyRoute::Return
    } else {
        KeyRoute::Text
    }
}

/// ASCII punctuation, the set that `char::is_ascii_punctuation` tests.
pub open spec fn ascii_punctuation(c: char) -> bool {
    ('!' <= c && c <= '/') || (':' <= c && c <= '@') || ('[' <= c && c <= '`') || ('{' <= c && c <= '~')
}

/// The session event of a typed character: part of a word in the current
/// layout, a word boundary for white space and ASCII punctuation, and
/// unsupported input otherwise or when nothing could be read.
pub open spec fn typed_event(character: Option<char>, language: Option<Seq<char>>) -> InputEvent {
    match character {
        None => InputEvent::UnsupportedInput,
        Some(c) => if language is Some && extends_word(c, language->0) {
            InputEvent::Printable(c)
        } else if is_ws(c) || ascii_punctuation(c) {
            InputEvent::Boundary
        } else {
            InputEvent::UnsupportedInput
        },
    }
}

pub fn text_input_event(character: Option<char>, language: &Option<Language>, detector: &Detector) -> (r: InputEvent)
    ensures
        r == typed_event(character, lang_view(*language)),
{
    match character {
        None => InputEvent::UnsupportedInput,
        Some(c) => {
            let extends = match language {
                Some(l) => detector.can_extend_word(c, l.duplicate()),
                None => false,
            };
            if extends {
                InputEvent::Printable(c)
            } else if is_whitespace(c) || ('!' <= c && c <= '/') || (':' <= c && c <= '@') || ('['
                <= c && c <= '`') || ('{' <= c && c <= '~') {
                InputEvent::Boundary
            } else {
                InputEvent::UnsupportedInput
            }
        },
    }
}

/// What a key edge's foreground says about the input context.
#[derive(Debug, Clone, Copy, PartialEq, Eq)]
pub enum ForegroundTransition {
    /// Another window, control or process: a fresh context.
    FocusChanged,
    /// The layout that a requested switch targeted arrived in time.
    ExpectedSwitch,
    /// The layout changed without a request: a manual layout change.
    ManualLayoutChange,
    /// Same context; an overdue switch request is forgotten.
    ExpireSwitch,
    Unchanged,
}

/// Classify a key edge's context against the last one seen. A requested
/// switch is `(target layout, deadline)`, times in milliseconds.
pub open spec fn foreground_transition_spec(
    last_foreground: Option<(usize, usize, u32)>,
    last_layout: Option<usize>,
    switch_in_flight: Option<(usize, u64)>,
    current: ForegroundContext,
    now_ms: u64,
) -> ForegroundTransition {
    if last_foreground != Some((current.hwnd, current.focus, current.process_id)) {
        ForegroundTransition::FocusChanged
    } else if last_layout != Some(current.layout) {
        match switch_in_flight {
            Some((target, deadline)) => if target == current.layout && now_ms <= deadline {
                ForegroundTransition::ExpectedSwitch
            } else {
                ForegroundTransition::ManualLayoutChange
            },
            None => ForegroundTransition::ManualLayoutChange,
        }
    } else {
        match switch_in_flight {
            Some((_, deadline)) => if now_ms > deadline {
                ForegroundTransition::ExpireSwitch
            } else {
                ForegroundTransition::Unchanged
            },
            None => ForegroundTransition::Unchanged,
        }
    }
}

pub fn foreground_transition(
    last_foreground: Option<(usize, usize, u32)>,
    last_layout: Option<usize>,
    switch_in_flight: Option<(usize, u64)>,
    current: ForegroundContext,
    now_ms: u64,
) -> (r: ForegroundTransition)
    ensures
        r == foreground_transition_spec(last_foreground, last_layout, switch_in_flight, current, now_ms),
{
    let key = foreground_identity_key(current);
    let same_foreground = match last_foreground {
        Some(k) => k.0 == key.0 && k.1 == key.1 && k.2 == key.2,
        None => false,
    };
    if !same_foreground {
        return ForegroundTransition::FocusChanged;
    }
    let same_layout = match last_layout {
        Some(l) => l == current.layout,
        None => false,
    };
    if !same_layout {
        match switch_in_flight {
            Some((target, deadline)) => if target == current.layout && now_ms <= deadline {
                ForegroundTransition::ExpectedSwitch
            } else {
                ForegroundTransition::ManualLayoutChange
            },
            None => ForegroundTransition::ManualLayoutChange,
        }
    } else {
        match switch_in_flight {
            Some((_, deadline)) => if now_ms > deadline {
                ForegroundTransition::ExpireSwitch
            } else {
                ForegroundTransition::Unchanged
            },
            None => ForegroundTransition::Unchanged,
        }
    }
}

/// How long an offer to add the last corrected word stays open.
pub const LEXICON_OFFER_MS: u64 = 120_000;

/// Where an offered word would be added.
#[derive(Debug, Clone, Copy, PartialEq, Eq, Structural)]
pub enum LexiconOfferTarget {
    UserDictionary,
    WordExclusions,
}

/// A word offered for the user dictionary or the exclusions, held only in
/// memory until it expires. Times are milliseconds on a monotonic clock.
#[derive(Debug, Clone)]
pub struct VolatileLexiconCandidate {
    pub target: LexiconOfferTarget,
    pub language: Language,
    pub word: String,
    pub expires_at_ms: u64,
}

impl VolatileLexiconCandidate {
    /// An offer made at `now_ms`.
    pub fn new(target: LexiconOfferTarget, language: Language, word: String, now_ms: u64) -> (r: VolatileLexiconCandidate)
        requires
            now_ms <= u64::MAX - LEXICON_OFFER_MS,
        ensures
            r.target == target,
            r.language == language,
            r.word@ == word@,
            r.expires_at_ms == now_ms + LEXICON_OFFER_MS,
    {
        VolatileLexiconCandidate { target, language, word, expires_at_ms: now_ms + LEXICON_OFFER_MS }
    }

    /// Whether the offer is still open at `now_ms`.
    pub fn is_valid_at(&self, now_ms: u64) -> (r: bool)
        ensures
            r == (now_ms <= self.expires_at_ms),
    {
        now_ms <= self.expires_at_ms
    }
}

/// A lexicon text with `word` added for the pack spelled `tag`: unchanged
/// when the text already stores the word, `None` when the word cannot be
/// stored; otherwise the entry line is appended on a line of its own.
pub open spec fn merged_lexicon(existing: Seq<char>, tag: Seq<char>, word: Seq<char>) -> Option<Seq<char>> {
    if lines_entries(text_lines(existing)).contains((tag, unicode_lowercase(word))) {
        Some(existing)
    } else {
        match formatted_entry(tag, word) {
            None => None,
            Some(entry) => Some(
                (if existing.len() > 0 && existing.last() != '\n' {
                    existing.push('\n')
                } else {
                    existing
                }) + entry,
            ),
        }
    }
}

/// Add an offered word to the text of a lexicon file.
pub fn merge_lexicon_entry(existing: &str, candidate: &VolatileLexiconCandidate) -> (r: Option<String>)
    ensures
        match r {
            Some(t) => merged_lexicon(existing@, candidate.language@, candidate.word@) == Some(t@),
            None => merged_lexicon(existing@, candidate.language@, candidate.word@) is None,
        },
{
    let text = chars_of(existing);
    let lines = text_lines_exec(text.as_slice());
    let lexicon = UserLexicon::from_char_lines(&lines);
    if lexicon.contains(candidate.language.duplicate(), candidate.word.as_str()) {
        return Some(string_of(text.as_slice()));
    }
    let entry = match UserLexicon::format_entry(candidate.language.duplicate(), candidate.word.as_str()) {
        Some(e) => e,
        None => return None,
    };
    let mut merged = text;
    let n = merged.len();
    if n > 0 && merged[n - 1] != '\n' {
        merged.push('\n');
    }
    let ghost head = merged@;
    let tail = chars_of(entry.as_str());
    let mut i: usize = 0;
    while i < tail.len()
        invariant
            i <= tail@.len(),
            merged@ == head + tail@.take(i as int),
        decreases tail.len() - i,
    {
        merged.push(tail[i]);
        assert(tail@.take(i + 1) =~= tail@.take(i as int).push(tail@[i as int]));
        i = i + 1;
    }
    assert(tail@.take(tail@.len() as int) =~= tail@);
    Some(string_of(merged.as_slice()))
}

/// Why the correction gate stopped holding keys before a normal drain.
#[derive(Debug, Clone, Copy, PartialEq, Eq, Structural)]
pub enum GateFailureCause {
    Deadline,
    Capacity,
    FocusChanged,
    Mouse,
    ExternalInjection,
    WorkerQueue,
    ReplaySubmit,
    WorkerAck,
    DownstreamHook,
}

/// Keys that the correction gate held and did not deliver, kept in memory
/// for an explicit or automatic recovery.
#[derive(Debug, Clone)]
pub struct RetainedInput {
    pub token: u64,
    pub foreground: ForegroundContext,
    pub events: Vec<RawKeyEvent>,
    pub delivery_uncertain: bool,
}

/// What aborting the correction gate decided: whether held keys were
/// retained, whether the attempt counts as a failed edit, and whether a
/// recovery is requested at once.
#[derive(Debug, Clone, Copy, PartialEq, Eq, Structural)]
pub struct GateAbort {
    pub token: u64,
    pub retained: bool,
    pub failed: bool,
    pub request_recovery: bool,
}

pub open spec fn same_target(a: ForegroundContext, b: ForegroundContext) -> bool {
    a.hwnd == b.hwnd && a.focus == b.focus && a.process_id == b.process_id && a.input_thread_id == b.input_thread_id
}

/// Where retained keys belong: the current context when it is still the
/// gate's origin, else the origin, else the first held key's context.
pub open spec fn recovery_foreground(
    origin: Option<ForegroundContext>,
    current: Option<ForegroundContext>,
    first: ForegroundContext,
) -> ForegroundContext {
    match origin {
        Some(o) => match current {
            Some(c) => if same_target(o, c) {
                c
            } else {
                o
            },
            None => o,
        },
        None => first,
    }
}

/// Causes after which retained keys are recovered without being asked.
pub open spec fn recovers_at_once(cause: GateFailureCause) -> bool {
    cause is Deadline || cause is Capacity || cause is WorkerQueue
}

/// `r` holds exactly the given retained keys.
pub open spec fn retained_is(
    r: Option<RetainedInput>,
    token: u64,
    foreground: ForegroundContext,
    events: Seq<RawKeyEvent>,
    delivery_uncertain: bool,
) -> bool {
    r matches Some(ri) && ri.token == token && ri.foreground == foreground && ri.events@ == events
        && ri.delivery_uncertain == delivery_uncertain
}

/// The correction gate after an abort: closed and cancelled, nothing held or deferred,
/// its token and drain bookkeeping kept.
pub open spec fn aborted_gate(before: CorrectionGate, after: CorrectionGate) -> bool {
    &&& !after.active
    &&& after.cancelled
    &&& after.held@.len() == 0
    &&& after.pending_hotkey is None
    &&& after.token == before.token
    &&& after.fence_marker == before.fence_marker
    &&& after.released_count == before.released_count
    &&& after.current_drain_count == before.current_drain_count
    &&& after.drain_failed == before.drain_failed
    &&& after.drain_in_flight == before.drain_in_flight
    &&& after.awaiting_worker_ack == before.awaiting_worker_ack
    &&& after.handoff_budget_ms == before.handoff_budget_ms
    &&& after.deadline_ms == before.deadline_ms
    &&& after.origin == before.origin
}

/// What retaining a failed drain's unsent prefix decided.
#[derive(Debug, Clone, Copy, PartialEq, Eq, Structural)]
pub enum DrainRetention {
    /// The report was for another gate; nothing changed.
    Ignored,
    /// The correction gate was still open and was aborted with the prefix in front.
    Aborted(GateAbort),
    /// The correction gate was already closed; the prefix joined the retained keys.
    Merged,
}

impl CorrectionGate {
    /// Fail open: stop holding, cancel the token and move every held key to
    /// `retained`, in order. `None` when the correction gate is not active.
    pub fn break_fail_open(
        &mut self,
        cause: GateFailureCause,
        current: Option<ForegroundContext>,
        retained: &mut Option<RetainedInput>,
    ) -> (r: Option<GateAbort>)
        ensures
            !old(self).active ==> r is None && *final(self) == *old(self) && *final(retained) == *old(retained),
            old(self).active ==> aborted_gate(*old(self), *final(self)) && r == Some(
                GateAbort {
                    token: old(self).token,
                    retained: old(self).held@.len() > 0,
                    failed: old(self).held@.len() > 0 || old(self).drain_failed,
                    request_recovery: old(self).held@.len() > 0 && recovers_at_once(cause),
                },
            ),
            old(self).active && old(self).held@.len() > 0 ==> retained_is(
                *final(retained),
                old(self).token,
                recovery_foreground(old(self).origin, current, old(self).held@[0].foreground),
                old(self).held@,
                cause is DownstreamHook,
            ),
            old(self).active && old(self).held@.len() == 0 ==> *final(retained) == *old(retained),
    {
        if !self.active {
            return None;
        }
        let token = self.token;
        let mut held: Vec<RawKeyEvent> = Vec::new();
        core::mem::swap(&mut held, &mut self.held);
        let mut kept = false;
        if held.len() > 0 {
            let fallback = held[0].foreground;
            let foreground = match self.origin {
                Some(origin) => match current {
                    Some(c) => if same_input_target(origin, c) {
                        c
                    } else {
                        origin
                    },
                    None => origin,
                },
                None => fallback,
            };
            let uncertain = match cause {
                GateFailureCause::DownstreamHook => true,
                _ => false,
            };
            *retained = Some(RetainedInput { token, foreground, events: held, delivery_uncertain: uncertain });
            kept = true;
        }
        self.cancelled = true;
        self.active = false;
        self.pending_hotkey = None;
        let at_once = match cause {
            GateFailureCause::Deadline | GateFailureCause::Capacity | GateFailureCause::WorkerQueue => true,
            _ => false,
        };
        Some(GateAbort { token, retained: kept, failed: kept || self.drain_failed, request_recovery: kept && at_once })
    }

    /// A drain whose submission failed after `sent` inputs: its unsent
    /// `prefix` goes back in front of what is still held (aborting the
    /// gate), or in front of the keys already retained, and delivery is
    /// uncertain once anything was sent.
    pub fn retain_failed_drain(
        &mut self,
        retained: &mut Option<RetainedInput>,
        token: u64,
        prefix: Vec<RawKeyEvent>,
        sent: usize,
        current: Option<ForegroundContext>,
    ) -> (r: DrainRetention)
        ensures
            old(self).token != token ==> r == DrainRetention::Ignored && *final(self) == *old(self)
                && *final(retained) == *old(retained),
            old(self).token == token && old(self).active ==> ({
                let all = prefix@ + old(self).held@;
                &&& aborted_gate(CorrectionGate { drain_failed: true, ..*old(self) }, *final(self))
                &&& r == DrainRetention::Aborted(
                    GateAbort {
                        token,
                        retained: all.len() > 0,
                        failed: true,
                        request_recovery: false,
                    },
                )
                &&& all.len() > 0 ==> retained_is(
                    *final(retained),
                    token,
                    recovery_foreground(old(self).origin, current, all[0].foreground),
                    all,
                    sent != 0,
                )
                &&& all.len() == 0 ==> match *old(retained) {
                    Some(ri) => retained_is(*final(retained), ri.token, ri.foreground, ri.events@, ri.delivery_uncertain || sent != 0),
                    None => *final(retained) is None,
                }
            }),
            old(self).token == token && !old(self).active ==> r == DrainRetention::Merged && *final(self) == *old(self)
                && match *old(retained) {
                Some(ri) => retained_is(
                    *final(retained),
                    ri.token,
                    ri.foreground,
                    prefix@ + ri.events@,
                    ri.delivery_uncertain || sent != 0,
                ),
                None => if prefix@.len() > 0 {
                    retained_is(
                        *final(retained),
                        token,
                        match old(self).origin {
                            Some(o) => o,
                            None => prefix@[0].foreground,
                        },
                        prefix@,
                        sent != 0,
                    )
                } else {
                    *final(retained) is None
                },
            },
    {
        if self.token != token {
            return DrainRetention::Ignored;
        }
        let outcome = if self.active {
            let mut held: Vec<RawKeyEvent> = Vec::new();
            core::mem::swap(&mut held, &mut self.held);
            let mut joined = prefix;
            let ghost front = joined@;
            let mut i: usize = 0;
            while i < held.len()
                invariant
                    i <= held@.len(),
                    joined@ == front + held@.take(i as int),
                decreases held.len() - i,
            {
                joined.push(held[i]);
                assert(held@.take(i + 1) =~= held@.take(i as int).push(held@[i as int]));
                i = i + 1;
            }
            assert(held@.take(held@.len() as int) =~= held@);
            self.held = joined;
            self.drain_failed = true;
            match self.break_fail_open(GateFailureCause::ReplaySubmit, current, retained) {
                Some(abort) => DrainRetention::Aborted(abort),
                None => DrainRetention::Ignored,
            }
        } else {
            let taken = retained.take();
            match taken {
                Some(ri) => {
                    let mut joined = prefix;
                    let ghost front = joined@;
                    let mut i: usize = 0;
                    while i < ri.events.len()
                        invariant
                            i <= ri.events@.len(),
                            joined@ == front + ri.events@.take(i as int),
                        decreases ri.events.len() - i,
                    {
                        joined.push(ri.events[i]);
                        assert(ri.events@.take(i + 1) =~= ri.events@.take(i as int).push(ri.events@[i as int]));
                        i = i + 1;
                    }
                    assert(ri.events@.take(ri.events@.len() as int) =~= ri.events@);
                    *retained = Some(
                        RetainedInput {
                            token: ri.token,
                            foreground: ri.foreground,
                            events: joined,
                            delivery_uncertain: ri.delivery_uncertain,
                        },
                    );
                },
                None => {
                    if prefix.len() > 0 {
                        let foreground = match self.origin {
                            Some(o) => o,
                            None => prefix[0].foreground,
                        };
                        *retained = Some(
                            RetainedInput { token, foreground, events: prefix, delivery_uncertain: sent != 0 },
                        );
                    }
                },
            }
            DrainRetention::Merged
        };
        if sent != 0 {
            match retained {
                Some(ri) => {
                    ri.delivery_uncertain = true;
                },
                None => {},
            }
        }
        outcome
    }
}

/// What one press of the layout-cycle hotkey does.
#[derive(Debug, Clone, Copy, PartialEq, Eq, Structural)]
pub enum LayoutCycleDecision {
    /// Fewer than two cycled languages have a layout.
    SingleLayout,
    /// The word's language is not among them.
    UnsupportedLayout,
    /// No other layout gives a different text.
    Identical,
    /// Convert to the language at this index of the cycle.
    Target(usize),
}

/// The first index of `x` in `s`, or -1.
pub open spec fn index_in(s: Seq<Seq<char>>, x: Seq<char>) -> int
    decreases s.len(),
{
    if s.len() == 0 {
        -1
    } else if s.last() == x {
        let k = index_in(s.drop_last(), x);
        if k >= 0 {
            k
        } else {
            s.len() - 1
        }
    } else {
        index_in(s.drop_last(), x)
    }
}

/// The first language after `position`, going round the cycle, whose
/// layout gives a text other than `current`, from step `step` on.
pub open spec fn cycle_target(mapped: Seq<Option<Seq<char>>>, position: int, current: Seq<char>, step: int) -> Option<int>
    decreases mapped.len() - step,
{
    if step < 1 || step >= mapped.len() {
        None
    } else {
        let i = (position + step) % (mapped.len() as int);
        if mapped[i] matches Some(t) && t != current {
            Some(i)
        } else {
            cycle_target(mapped, position, current, step + 1)
        }
    }
}

pub open spec fn layout_cycle_spec(
    order: Seq<Seq<char>>,
    source: Seq<char>,
    mapped: Seq<Option<Seq<char>>>,
    current: Seq<char>,
) -> LayoutCycleDecision {
    if order.len() < 2 {
        LayoutCycleDecision::SingleLayout
    } else if index_in(order, source) < 0 {
        LayoutCycleDecision::UnsupportedLayout
    } else {
        match cycle_target(mapped, index_in(order, source), current, 1) {
            Some(i) => LayoutCycleDecision::Target(i as usize),
            None => LayoutCycleDecision::Identical,
        }
    }
}

pub open spec fn opt_string_views(v: Seq<Option<String>>) -> Seq<Option<Seq<char>>> {
    v.map_values(|o: Option<String>| match o {
        Some(t) => Some(t@),
        None => None,
    })
}

proof fn lemma_index_in(s: Seq<Seq<char>>, x: Seq<char>, j: int)
    requires
        0 <= j <= s.len(),
        forall|k: int| 0 <= k < j ==> s[k] != x,
    ensures
        index_in(s.take(j), x) == -1,
        j < s.len() && s[j] == x ==> index_in(s, x) == j,
    decreases s.len() - j,
{
    lemma_index_none(s, x, j);
    if j < s.len() && s[j] == x {
        lemma_index_prefix(s, x, j, s.len() as int);
        assert(s.take(s.len() as int) =~= s);
    }
}

proof fn lemma_index_none(s: Seq<Seq<char>>, x: Seq<char>, j: int)
    requires
        0 <= j <= s.len(),
        forall|k: int| 0 <= k < j ==> s[k] != x,
    ensures
        index_in(s.take(j), x) == -1,
    decreases j,
{
    if j == 0 {
        assert(s.take(0) =~= Seq::<Seq<char>>::empty());
    } else {
        assert(s.take(j).drop_last() =~= s.take(j - 1));
        lemma_index_none(s, x, j - 1);
    }
}

proof fn lemma_index_prefix(s: Seq<Seq<char>>, x: Seq<char>, j: int, n: int)
    requires
        0 <= j < n <= s.len(),
        s[j] == x,
        index_in(s.take(j), x) == -1,
    ensures
        index_in(s.take(n), x) == j,
    decreases n - j,
{
    if n == j + 1 {
        assert(s.take(n).drop_last() =~= s.take(j));
    } else {
        lemma_index_prefix(s, x, j, n - 1);
        assert(s.take(n).drop_last() =~= s.take(n - 1));
    }
}

/// Choose the target of one layout-cycle press: `order` lists the cycled
/// languages that have a layout, `mapped[i]` is the text the word's keys give
/// under the layout of `order[i]` (none when they do not map).
pub fn next_layout_in_cycle(order: &[Language], source: &Language, mapped: &[Option<String>], current_text: &str) -> (r:
    LayoutCycleDecision)
    requires
        mapped@.len() == order@.len(),
    ensures
        r == layout_cycle_spec(
            order@.map_values(|l: Language| l@),
            source@,
            opt_string_views(mapped@),
            current_text@,
        ),
{
    let ghost ov = order@.map_values(|l: Language| l@);
    let ghost mv = opt_string_views(mapped@);
    let n = order.len();
    if n < 2 {
        return LayoutCycleDecision::SingleLayout;
    }
    let mut position: usize = 0;
    while position < n && !order[position].same(source)
        invariant
            position <= n == order@.len(),
            ov == order@.map_values(|l: Language| l@),
            forall|k: int| 0 <= k < position ==> ov[k] != source@,
        decreases n - position,
    {
        position = position + 1;
    }
    proof {
        lemma_index_in(ov, source@, position as int);
        if position == n {
            assert(ov.take(n as int) =~= ov);
        }
    }
    if position == n {
        return LayoutCycleDecision::UnsupportedLayout;
    }
    let current = chars_of(current_text);
    let mut step: usize = 1;
    while step < n
        invariant
            1 <= step <= n,
            2 <= n,
            n == mapped@.len(),
            n == order@.len(),
            position < n,
            index_in(order@.map_values(|l: Language| l@), source@) == position as int,
            mv == opt_string_views(mapped@),
            current@ == current_text@,
            cycle_target(mv, position as int, current_text@, 1) == cycle_target(mv, position as int, current_text@, step as int),
        decreases n - step,
    {
        let index = if step < n - position {
            position + step
        } else {
            step - (n - position)
        };
        proof {
            let p = position as int;
            let q = step as int;
            let m = n as int;
            if p + q < m {
                vstd::arithmetic::div_mod::lemma_small_mod((p + q) as nat, m as nat);
            } else {
                vstd::arithmetic::div_mod::lemma_small_mod((p + q - m) as nat, m as nat);
                vstd::arithmetic::div_mod::lemma_mod_add_multiples_vanish(p + q - m, m);
            }
            assert((p + q) % m == index as int);
            assert(mv[index as int] == match mapped@[index as int] {
                Some(t) => Some(t@),
                None => None,
            });
        }
        let differs = match &mapped[index] {
            Some(text) => !crate::text::chars_equal(&chars_of(text.as_str()), &current),
            None => false,
        };
        if differs {
            return LayoutCycleDecision::Target(index);
        }
        step = step + 1;
    }
    LayoutCycleDecision::Identical
}

/// A 16-bit value read as two's complement.
pub open spec fn signed16(u: int) -> int {
    if u >= 0x8000 {
        u - 0x10000
    } else {
        u
    }
}

/// The signed coordinates packed in a notification word: x in the low 16
/// bits, y in the next 16.
pub fn point_from_packed_word(value: usize) -> (r: (i32, i32))
    ensures
        r.0 == signed16(value as int % 0x10000),
        r.1 == signed16((value as int / 0x10000) % 0x10000),
{
    let low = value % 0x10000;
    let high = (value / 0x10000) % 0x10000;
    let x: i32 = if low >= 0x8000 {
        low as i32 - 0x10000
    } else {
        low as i32
    };
    let y: i32 = if high >= 0x8000 {
        high as i32 - 0x10000
    } else {
        high as i32
    };
    (x, y)
}

/// The UI Automation control type of a document.
pub const UIA_DOCUMENT_CONTROL_TYPE_ID: i32 = 50030;

/// The UI Automation control type of an edit field.
pub const UIA_EDIT_CONTROL_TYPE_ID: i32 = 50004;

/// Protected paste needs an editable control: a document or an edit field.
pub fn supports_protected_paste(control_type: i32) -> (r: bool)
    ensures
        r == (control_type == UIA_DOCUMENT_CONTROL_TYPE_ID || control_type == UIA_EDIT_CONTROL_TYPE_ID),
{
    control_type == UIA_DOCUMENT_CONTROL_TYPE_ID || control_type == UIA_EDIT_CONTROL_TYPE_ID
}

/// Only Space converts: a key edge is routed to `Space` only when it is a
/// Space press with no hotkey, modifier edge, shortcut or pending
/// conversion; Tab and Enter only end the word, and Space itself does
/// convert when nothing else claims it.
pub proof fn lemma_only_space_converts(
    virtual_key: u16,
    key_down: bool,
    key_up: bool,
    hotkey_trigger: bool,
    modifier_event: bool,
    shortcut_held: bool,
    conversion_pending: bool,
    s: SettingsView,
)
    ensures
        key_route(virtual_key, key_down, key_up, hotkey_trigger, modifier_event, shortcut_held, conversion_pending, s)
            is Space ==> virtual_key == VK_SPACE && key_down && !hotkey_trigger && !modifier_event && !shortcut_held
            && !conversion_pending,
        key_down && !hotkey_trigger && !modifier_event && !shortcut_held ==> {
            &&& virtual_key == VK_TAB ==> key_route(
                virtual_key,
                key_down,
                key_up,
                hotkey_trigger,
                modifier_event,
                shortcut_held,
                conversion_pending,
                s,
            ) == KeyRoute::Tab
            &&& virtual_key == VK_RETURN ==> key_route(
                virtual_key,
                key_down,
                key_up,
                hotkey_trigger,
                modifier_event,
                shortcut_held,
                conversion_pending,
                s,
            ) == KeyRoute::Return
            &&& virtual_key == VK_SPACE && !key_up && !conversion_pending ==> key_route(
                virtual_key,
                key_down,
                key_up,
                hotkey_trigger,
                modifier_event,
                shortcut_held,
                conversion_pending,
                s,
            ) == KeyRoute::Space
        },
{
}

/// A layout change in the same window, control and process is an
/// expected switch exactly when a requested switch targets the new layout
/// and has not expired, and a manual change otherwise, including when no
/// switch was requested; another window, control or process is always a
/// focus change.
pub proof fn lemma_layout_change_classified(
    last_foreground: Option<(usize, usize, u32)>,
    last_layout: Option<usize>,
    switch_in_flight: Option<(usize, u64)>,
    current: ForegroundContext,
    now_ms: u64,
)
    ensures
        last_foreground != Some((current.hwnd, current.focus, current.process_id)) ==> foreground_transition_spec(
            last_foreground,
            last_layout,
            switch_in_flight,
            current,
            now_ms,
        ) == ForegroundTransition::FocusChanged,
        last_foreground == Some((current.hwnd, current.focus, current.process_id)) && last_layout != Some(
            current.layout,
        ) ==> foreground_transition_spec(last_foreground, last_layout, switch_in_flight, current, now_ms) == (if (
        switch_in_flight matches Some((target, deadline)) && target == current.layout && now_ms <= deadline) {
            ForegroundTransition::ExpectedSwitch
        } else {
            ForegroundTransition::ManualLayoutChange
        }),
        last_foreground == Some((current.hwnd, current.focus, current.process_id)) && last_layout == Some(
            current.layout,
        ) ==> !(foreground_transition_spec(last_foreground, last_layout, switch_in_flight, current, now_ms) is ManualLayoutChange
            || foreground_transition_spec(last_foreground, last_layout, switch_in_flight, current, now_ms) is ExpectedSwitch),
{
}

/// A character that extends the word in the current layout stays inside
/// the word, even when it is white space or punctuation elsewhere (the
/// English `.` is the Russian `ю`); only a character that does not extend
/// it ends the word, and only when it is white space or ASCII punctuation.
pub proof fn lemma_word_characters_stay_in_word(c: char, language: Option<Seq<char>>)
    ensures
        language is Some && extends_word(c, language->0) ==> typed_event(Some(c), language) == InputEvent::Printable(c),
        typed_event(Some(c), language) is Boundary ==> !(language is Some && extends_word(c, language->0)),
        typed_event(Some(c), language) is Printable ==> language is Some && extends_word(c, language->0),
{
}

/// Each edit and navigation key is routed to its own session event and
/// suppressed according to the setting named after it; a hotkey edge
/// always goes to the hotkey, a shortcut to the shortcut handling, a
/// release nowhere, and any other key press is read as text.
pub proof fn lemma_key_routes(
    virtual_key: u16,
    key_down: bool,
    key_up: bool,
    hotkey_trigger: bool,
    modifier_event: bool,
    shortcut_held: bool,
    conversion_pending: bool,
    s: SettingsView,
)
    ensures
        ({
            let r = key_route(
                virtual_key,
                key_down,
                key_up,
                hotkey_trigger,
                modifier_event,
                shortcut_held,
                conversion_pending,
                s,
            );
            &&& (key_down || key_up) && hotkey_trigger ==> r == KeyRoute::Hotkey
            &&& !key_down && !hotkey_trigger ==> r == KeyRoute::Ignore
            &&& key_down && !hotkey_trigger && modifier_event ==> r == KeyRoute::Ignore
            &&& key_down && !hotkey_trigger && !modifier_event && shortcut_held && !(virtual_key == VK_SPACE
                && conversion_pending) && !(key_up && virtual_key == VK_SPACE) ==> r == KeyRoute::Shortcut
            &&& key_down && !key_up && !hotkey_trigger && !modifier_event && !shortcut_held ==> {
                &&& virtual_key == VK_BACK ==> r == KeyRoute::SwitchingRule(
                    InputEvent::Backspace,
                    s.flags.suppress_after_backspace,
                )
                &&& virtual_key == VK_DELETE ==> r == KeyRoute::SwitchingRule(
                    InputEvent::Delete,
                    s.flags.suppress_after_delete,
                )
                &&& virtual_key == VK_LEFT ==> r == KeyRoute::SwitchingRule(
                    InputEvent::Navigation,
                    s.flags.suppress_after_left,
                )
                &&& virtual_key == VK_RIGHT ==> r == KeyRoute::SwitchingRule(
                    InputEvent::Navigation,
                    s.flags.suppress_after_right,
                )
                &&& virtual_key == VK_UP ==> r == KeyRoute::SwitchingRule(
                    InputEvent::Navigation,
                    s.flags.suppress_after_up,
                )
                &&& virtual_key == VK_DOWN ==> r == KeyRoute::SwitchingRule(
                    InputEvent::Navigation,
                    s.flags.suppress_after_down,
                )
                &&& (virtual_key == VK_HOME || virtual_key == VK_END) ==> r == KeyRoute::SwitchingRule(
                    InputEvent::Navigation,
                    s.flags.suppress_after_home_end,
                )
                &&& virtual_key == VK_SPACE && conversion_pending ==> r == KeyRoute::PendingSpace
                &&& !(virtual_key == VK_BACK || virtual_key == VK_DELETE || virtual_key == VK_LEFT || virtual_key
                    == VK_RIGHT || virtual_key == VK_UP || virtual_key == VK_DOWN || virtual_key == VK_HOME
                    || virtual_key == VK_END || virtual_key == VK_SPACE || virtual_key == VK_TAB || virtual_key
                    == VK_RETURN) ==> r == KeyRoute::Text
            }
        }),
{
}

/// In the same context and layout a requested switch is forgotten once it
/// is overdue, and nothing else happens.
pub proof fn lemma_same_layout_transition(
    last_foreground: Option<(usize, usize, u32)>,
    last_layout: Option<usize>,
    switch_in_flight: Option<(usize, u64)>,
    current: ForegroundContext,
    now_ms: u64,
)
    requires
        last_foreground == Some((current.hwnd, current.focus, current.process_id)),
        last_layout == Some(current.layout),
    ensures
        foreground_transition_spec(last_foreground, last_layout, switch_in_flight, current, now_ms) == (if (
        switch_in_flight matches Some((_, deadline)) && now_ms > deadline) {
            ForegroundTransition::ExpireSwitch
        } else {
            ForegroundTransition::Unchanged
        }),
{
}

/// A character that does not extend the word ends it when it is white
/// space or ASCII punctuation, and is unsupported input otherwise; nothing
/// read is unsupported input.
pub proof fn lemma_other_characters(c: char, language: Option<Seq<char>>)
    ensures
        typed_event(None, language) == InputEvent::UnsupportedInput,
        !(language is Some && extends_word(c, language->0)) ==> typed_event(Some(c), language) == (if is_ws(c) || ('!'
            <= c <= '/') || (':' <= c <= '@') || ('[' <= c <= '`') || ('{' <= c <= '~') {
            InputEvent::Boundary
        } else {
            InputEvent::UnsupportedInput
        }),
{
}

} // verus!
