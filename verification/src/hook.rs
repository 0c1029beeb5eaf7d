//! The decisions of the low-level keyboard hook callback: which edges are
//! the agent's own, which close a drain, which fail the correction gate
//! open, which are held, deferred or forwarded, when a Space arms the
//! gate, and what the callback queues for the worker. The callback itself
//! only reads the edge, asks the platform for the foreground context, and
//! performs what is decided here.

use vstd::prelude::*;

use crate::agent::{
    aborted_gate, contextual_hotkey_action, hotkey_modifier_bit, hotkey_step, is_owned_gate_fence_marker,
    modifier_bit, owned_marker, recovers_at_once, recovery_foreground, retained_is, same_input_target,
    same_target, should_arm_space_decision_gate, CorrectionGate, ForegroundContext, GateAbort, GateFailureCause,
    ObserverFlags, RawKeyEvent, RetainedInput, UndoHotkeyAction, CORRECTION_GATE_CAPACITY,
    CORRECTION_GATE_MAX_HOLD_MS, DRAINED_EVENT_MARKER, INJECTED_EVENT_MARKER, PRIVACY_ALLOWED, VK_SPACE,
    WM_KEYDOWN, WM_KEYUP, WM_SYSKEYDOWN, WM_SYSKEYUP,
};

verus! {

/// One edge as the hook callback sees it, with what the platform reports
/// alongside.
#[derive(Debug, Clone, Copy, PartialEq, Eq)]
pub struct HookEvent {
    /// The edge's extra information, where injected edges carry a marker.
    pub marker: u64,
    /// The platform flags the edge as injected.
    pub injected: bool,
    pub message: u32,
    pub virtual_key: u32,
    pub scan_code: u32,
    pub caps_lock: bool,
    pub extended: bool,
    /// The foreground context, when the platform could tell it.
    pub foreground: Option<ForegroundContext>,
    /// The hotkey modifiers held during this edge.
    pub modifiers: u8,
    /// The agent is shutting down.
    pub shutdown: bool,
    /// The current privacy reason code.
    pub privacy_reason: u8,
    /// No shortcut modifier is physically held.
    pub shortcut_released: bool,
    /// The last input sequence number handed out.
    pub observed_sequence: u64,
}

/// What the callback queues for the worker.
#[derive(Debug, Clone, Copy, PartialEq, Eq)]
pub enum HookQueue {
    Nothing,
    /// The correction gate's drain arrived in full.
    DrainReady { token: u64, drained_count: usize, replay_succeeded: bool },
    /// Input the worker cannot account for.
    ExternalInjection,
    Key(RawKeyEvent),
    /// An explicit hotkey asks for the retained keys back.
    RecoverInput { sequence: u64 },
}

/// What the callback does with one edge.
#[derive(Debug, Clone, Copy, PartialEq, Eq)]
pub struct HookDecision {
    /// Keep the edge from the rest of the system.
    pub swallow: bool,
    pub enqueue: HookQueue,
    /// The input sequence advanced by one.
    pub sequence_advanced: bool,
    /// The sequence number of an edge passed on to the next hook.
    pub forwarded: Option<u64>,
    /// The correction gate failed open, for this cause.
    pub fail_open: Option<GateFailureCause>,
    /// The edge joined the held keys.
    pub held: bool,
    /// The edge was kept as the deferred hotkey.
    pub deferred: bool,
    /// A new correction gate was armed with the forwarded sequence number.
    pub armed: bool,
    /// The edge is one of the correction gate's own drained keys.
    pub drained: bool,
}

pub open spec fn is_down(message: u32) -> bool {
    message == WM_KEYDOWN || message == WM_SYSKEYDOWN
}

pub open spec fn is_up(message: u32) -> bool {
    message == WM_KEYUP || message == WM_SYSKEYUP
}

pub open spec fn next_sequence(s: u64) -> u64 {
    if s == u64::MAX {
        0
    } else {
        (s + 1) as u64
    }
}

pub open spec fn raw_of(e: HookEvent, foreground: ForegroundContext, drain_token: u64, trigger: bool, sequence: u64) -> RawKeyEvent {
    RawKeyEvent {
        message: e.message,
        virtual_key: e.virtual_key,
        scan_code: e.scan_code,
        caps_lock: e.caps_lock,
        extended: e.extended,
        foreground,
        sequence,
        drain_token,
        hotkey_trigger: trigger,
    }
}

pub open spec fn passed() -> HookDecision {
    HookDecision {
        swallow: false,
        enqueue: HookQueue::Nothing,
        sequence_advanced: false,
        forwarded: None,
        fail_open: None,
        held: false,
        deferred: false,
        armed: false,
        drained: false,
    }
}

/// A fail-open that only happens while the correction gate is active.
pub open spec fn fail_if_active(g: CorrectionGate, cause: GateFailureCause) -> Option<GateFailureCause> {
    if g.active {
        Some(cause)
    } else {
        None
    }
}

/// The hotkey's part of a key edge: the flags after it, its action (none
/// for drained edges), and whether the edge becomes the claimed hotkey or
/// the deferred one.
pub open spec fn hotkey_part(f: ObserverFlags, g: CorrectionGate, e: HookEvent, drained: bool) -> (
    ObserverFlags,
    UndoHotkeyAction,
) {
    if drained {
        (f, UndoHotkeyAction::PassThrough)
    } else {
        hotkey_step(f, e.message, e.virtual_key as u16, e.modifiers)
    }
}

/// The decision for an edge with a known foreground.
pub open spec fn key_plan(
    g: CorrectionGate,
    f: ObserverFlags,
    retained: bool,
    e: HookEvent,
    fg: ForegroundContext,
    drained: bool,
    now: u64,
) -> (ObserverFlags, HookDecision) {
    let (f1, action) = hotkey_part(f, g, e, drained);
    let base = HookDecision { drained, ..passed() };
    if action is Swallow {
        (f1, HookDecision { swallow: true, ..base })
    } else if action is TriggerSwallow && g.active {
        (f1, HookDecision { swallow: true, deferred: true, ..base })
    } else {
        let claimed = (action is TriggerSwallow || action is TriggerPassThrough) && !g.active;
        let deferred = action is TriggerPassThrough && g.active;
        let lost = !drained && !claimed && g.active && (g.origin matches Some(o) && !same_target(o, fg));
        if !drained && !claimed && g.active && !lost {
            let cause = if now >= g.deadline_ms {
                GateFailureCause::Deadline
            } else {
                GateFailureCause::Capacity
            };
            let fits = now < g.deadline_ms && g.held@.len() < CORRECTION_GATE_CAPACITY;
            (
                f1,
                HookDecision {
                    swallow: true,
                    held: true,
                    deferred,
                    fail_open: if fits {
                        None
                    } else {
                        Some(cause)
                    },
                    ..base
                },
            )
        } else {
            let seq = next_sequence(e.observed_sequence);
            let raw = raw_of(e, fg, if drained { g.token } else { 0 }, claimed, seq);
            let f2 = if claimed {
                ObserverFlags { explicit_hotkey_sequence: seq, ..f1 }
            } else {
                f1
            };
            let active_now = g.active && !lost;
            let retained_now = retained || (lost && g.held@.len() > 0);
            let arm = !drained && is_down(e.message) && e.virtual_key as u16 == VK_SPACE && f2.auto_enabled
                && e.privacy_reason == PRIVACY_ALLOWED && !active_now && e.shortcut_released && !retained_now
                && !f2.configuration_pending;
            let recover = claimed && retained_now && f2.recovery_armed;
            let f3 = if recover {
                ObserverFlags { recovery_armed: false, ..f2 }
            } else {
                f2
            };
            let enqueue = if claimed && retained_now {
                if recover {
                    HookQueue::RecoverInput { sequence: seq }
                } else {
                    HookQueue::Nothing
                }
            } else {
                HookQueue::Key(raw)
            };
            (
                f3,
                HookDecision {
                    enqueue,
                    sequence_advanced: true,
                    forwarded: Some(seq),
                    fail_open: if lost {
                        Some(GateFailureCause::FocusChanged)
                    } else {
                        None
                    },
                    deferred,
                    armed: arm,
                    ..base
                },
            )
        }
    }
}

/// What the hook does with `e` at `now_ms`, given the correction gate, the shared
/// flags and whether keys are retained: the flags afterwards and the
/// decision.
pub open spec fn hook_plan(g: CorrectionGate, f: ObserverFlags, retained: bool, e: HookEvent, now: u64) -> (
    ObserverFlags,
    HookDecision,
) {
    if e.marker == INJECTED_EVENT_MARKER {
        (f, passed())
    } else if owned_marker(e.marker) {
        if !g.active || e.marker != g.fence_marker || !is_up(e.message) {
            (f, HookDecision { swallow: true, ..passed() })
        } else if g.cancelled {
            (f, HookDecision { swallow: true, fail_open: Some(GateFailureCause::DownstreamHook), ..passed() })
        } else {
            (
                f,
                HookDecision {
                    swallow: true,
                    enqueue: HookQueue::DrainReady {
                        token: g.token,
                        drained_count: g.current_drain_count,
                        replay_succeeded: !g.drain_failed,
                    },
                    ..passed()
                },
            )
        }
    } else if e.shutdown {
        (f, passed())
    } else {
        let drained = e.marker == DRAINED_EVENT_MARKER;
        if e.injected && !drained {
            (
                f,
                HookDecision {
                    fail_open: fail_if_active(g, GateFailureCause::ExternalInjection),
                    enqueue: HookQueue::ExternalInjection,
                    sequence_advanced: true,
                    ..passed()
                },
            )
        } else {
            match e.foreground {
                None => (
                    f,
                    HookDecision {
                        fail_open: fail_if_active(g, GateFailureCause::FocusChanged),
                        enqueue: HookQueue::ExternalInjection,
                        drained,
                        ..passed()
                    },
                ),
                Some(fg) => key_plan(g, f, retained, e, fg, drained, now),
            }
        }
    }
}

/// The held keys after the decision, before any fail-open.
pub open spec fn held_before_abort(g: CorrectionGate, e: HookEvent, d: HookDecision) -> Seq<RawKeyEvent> {
    if d.held {
        g.held@.push(raw_of(e, e.foreground->0, 0, false, 0))
    } else {
        g.held@
    }
}

fn fail_open(
    gate: &mut CorrectionGate,
    retained: &mut Option<RetainedInput>,
    cause: GateFailureCause,
    current: Option<ForegroundContext>,
) -> (r: Option<GateAbort>)
    ensures
        !old(gate).active ==> r is None && *final(gate) == *old(gate) && *final(retained) == *old(retained),
        old(gate).active ==> aborted_gate(*old(gate), *final(gate)) && r == Some(
            GateAbort {
                token: old(gate).token,
                retained: old(gate).held@.len() > 0,
                failed: old(gate).held@.len() > 0 || old(gate).drain_failed,
                request_recovery: old(gate).held@.len() > 0 && recovers_at_once(cause),
            },
        ),
        old(gate).active && old(gate).held@.len() > 0 ==> retained_is(
            *final(retained),
            old(gate).token,
            recovery_foreground(old(gate).origin, current, old(gate).held@[0].foreground),
            old(gate).held@,
            cause is DownstreamHook,
        ),
        old(gate).active && old(gate).held@.len() == 0 ==> *final(retained) == *old(retained),
{
    gate.break_fail_open(cause, current, retained)
}

/// Decide what the hook does with `e` at `now_ms`, updating the correction gate, the
/// shared flags and the retained keys. A fail-open's outcome is returned.
#[verifier::rlimit(60)]
#[verifier::spinoff_prover]
pub fn hook_step(
    gate: &mut CorrectionGate,
    flags: &mut ObserverFlags,
    retained: &mut Option<RetainedInput>,
    e: HookEvent,
    now_ms: u64,
) -> (r: (HookDecision, Option<GateAbort>))
    ensures
        (*final(flags), r.0) == hook_plan(*old(gate), *old(flags), (*old(retained)) is Some, e, now_ms),
        (r.1 is Some) == (r.0.fail_open is Some),
        r.0.fail_open is None && !r.0.held && !r.0.deferred && !r.0.armed && !(r.0.enqueue is DrainReady)
            ==> *final(gate) == *old(gate) && *final(retained) == *old(retained),
        r.0.enqueue matches HookQueue::DrainReady { .. } ==> *final(gate) == (CorrectionGate {
            current_drain_count: 0,
            drain_in_flight: false,
            awaiting_worker_ack: true,
            ..*old(gate)
        }),
        r.0.held && r.0.fail_open is None ==> final(gate).held@ == old(gate).held@.push(
            raw_of(e, e.foreground->0, 0, false, 0),
        ) && final(gate).active && final(gate).token == old(gate).token,
        r.0.fail_open matches Some(cause) ==> r.1 matches Some(a) && a.token == old(gate).token
            && a.retained == (held_before_abort(*old(gate), e, r.0).len() > 0) && (a.retained ==> retained_is(
            *final(retained),
            old(gate).token,
            recovery_foreground(old(gate).origin, e.foreground, held_before_abort(*old(gate), e, r.0)[0].foreground),
            held_before_abort(*old(gate), e, r.0),
            cause is DownstreamHook,
        )) && (!a.retained ==> *final(retained) == *old(retained)),
        r.0.fail_open is Some && !r.0.armed ==> !final(gate).active && final(gate).cancelled
            && final(gate).held@.len() == 0,
        r.0.armed ==> final(gate).active && !final(gate).cancelled && final(gate).token == r.0.forwarded->0
            && final(gate).held@.len() == 0 && final(gate).origin == e.foreground,
{
    let pass = HookDecision {
        swallow: false,
        enqueue: HookQueue::Nothing,
        sequence_advanced: false,
        forwarded: None,
        fail_open: None,
        held: false,
        deferred: false,
        armed: false,
        drained: false,
    };
    if e.marker == INJECTED_EVENT_MARKER {
        return (pass, None);
    }
    let key_down = e.message == WM_KEYDOWN || e.message == WM_SYSKEYDOWN;
    let key_up = e.message == WM_KEYUP || e.message == WM_SYSKEYUP;
    if is_owned_gate_fence_marker(e.marker) {
        if !gate.active || e.marker != gate.fence_marker || !key_up {
            return (HookDecision { swallow: true, ..pass }, None);
        }
        if gate.cancelled {
            let abort = fail_open(gate, retained, GateFailureCause::DownstreamHook, e.foreground);
            return (HookDecision { swallow: true, fail_open: Some(GateFailureCause::DownstreamHook), ..pass }, abort);
        }
        let token = gate.token;
        let drained_count = gate.current_drain_count;
        let replay_succeeded = !gate.drain_failed;
        gate.current_drain_count = 0;
        gate.drain_in_flight = false;
        gate.awaiting_worker_ack = true;
        return (
            HookDecision {
                swallow: true,
                enqueue: HookQueue::DrainReady { token, drained_count, replay_succeeded },
                ..pass
            },
            None,
        );
    }
    if e.shutdown {
        return (pass, None);
    }
    let drained = e.marker == DRAINED_EVENT_MARKER;
    if e.injected && !drained {
        let was_active = gate.active;
        let abort = fail_open(gate, retained, GateFailureCause::ExternalInjection, e.foreground);
        let cause = if was_active {
            Some(GateFailureCause::ExternalInjection)
        } else {
            None
        };
        return (
            HookDecision { fail_open: cause, enqueue: HookQueue::ExternalInjection, sequence_advanced: true, ..pass },
            abort,
        );
    }
    let fg = match e.foreground {
        None => {
            let was_active = gate.active;
            let abort = fail_open(gate, retained, GateFailureCause::FocusChanged, e.foreground);
            let cause = if was_active {
                Some(GateFailureCause::FocusChanged)
            } else {
                None
            };
            return (
                HookDecision { fail_open: cause, enqueue: HookQueue::ExternalInjection, drained, ..pass },
                abort,
            );
        },
        Some(fg) => fg,
    };
    let base = HookDecision { drained, ..pass };
    let vk = #[verifier::truncate] (e.virtual_key as u16);
    let action = if drained {
        UndoHotkeyAction::PassThrough
    } else {
        contextual_hotkey_action(flags, e.message, vk, e.modifiers)
    };
    let raw = RawKeyEvent {
        message: e.message,
        virtual_key: e.virtual_key,
        scan_code: e.scan_code,
        caps_lock: e.caps_lock,
        extended: e.extended,
        foreground: fg,
        sequence: 0,
        drain_token: if drained {
            gate.token
        } else {
            0
        },
        hotkey_trigger: false,
    };
    let mut claimed = false;
    let mut deferred = false;
    match action {
        UndoHotkeyAction::PassThrough => {},
        UndoHotkeyAction::Swallow => {
            return (HookDecision { swallow: true, ..base }, None);
        },
        UndoHotkeyAction::TriggerSwallow => {
            if gate.active {
                gate.defer_hotkey(raw);
                return (HookDecision { swallow: true, deferred: true, ..base }, None);
            }
            claimed = true;
        },
        UndoHotkeyAction::TriggerPassThrough => {
            if gate.active {
                gate.defer_hotkey(raw);
                deferred = true;
            } else {
                claimed = true;
            }
        },
    }
    let mut lost = false;
    let mut abort: Option<GateAbort> = None;
    if !drained && !claimed && gate.active {
        let focus_lost = match gate.origin {
            Some(o) => !same_input_target(o, fg),
            None => false,
        };
        if focus_lost {
            lost = true;
            abort = fail_open(gate, retained, GateFailureCause::FocusChanged, e.foreground);
        } else {
            if key_down && hotkey_modifier_bit(vk).is_none() {
                gate.pending_hotkey = None;
            }
            if gate.hold(raw, now_ms) {
                return (HookDecision { swallow: true, held: true, deferred, ..base }, None);
            }
            let cause = if now_ms >= gate.deadline_ms {
                GateFailureCause::Deadline
            } else {
                GateFailureCause::Capacity
            };
            gate.held.push(raw);
            assert(raw == raw_of(e, fg, 0, false, 0));
            assert(gate.held@ == old(gate).held@.push(raw));
            assert(gate.origin == old(gate).origin && gate.token == old(gate).token);
            let abort = fail_open(gate, retained, cause, e.foreground);
            return (HookDecision { swallow: true, held: true, deferred, fail_open: Some(cause), ..base }, abort);
        }
    }
    let seq = e.observed_sequence.wrapping_add(1);
    let raw = RawKeyEvent { sequence: seq, hotkey_trigger: claimed, ..raw };
    if claimed {
        flags.explicit_hotkey_sequence = seq;
    }
    let retained_now = retained.is_some();
    let arm = should_arm_space_decision_gate(
        drained,
        key_down,
        vk,
        flags.auto_enabled,
        e.privacy_reason,
        gate.active,
        e.shortcut_released,
    ) && !retained_now && !flags.configuration_pending;
    if arm {
        gate.activate(seq, now_ms);
        gate.origin = Some(fg);
    }
    let enqueue = if claimed && retained_now {
        if flags.recovery_armed {
            flags.recovery_armed = false;
            HookQueue::RecoverInput { sequence: seq }
        } else {
            HookQueue::Nothing
        }
    } else {
        HookQueue::Key(raw)
    };
    let fail = if lost {
        Some(GateFailureCause::FocusChanged)
    } else {
        None
    };
    (
        HookDecision {
            enqueue,
            sequence_advanced: true,
            forwarded: Some(seq),
            fail_open: fail,
            deferred,
            armed: arm,
            ..base
        },
        abort,
    )
}

/// Whether a failed hand-over to the worker fails the correction gate open: a drain
/// report that could not be queued always does; a forwarded edge does when
/// the correction gate is still active and the edge is one of its drained keys or the
/// one that armed it.
pub open spec fn queue_failure(g: CorrectionGate, d: HookDecision, queued: bool) -> bool {
    !queued && g.active && match d.enqueue {
        HookQueue::DrainReady { .. } => true,
        HookQueue::Key(_) | HookQueue::RecoverInput { .. } => d.drained || (d.forwarded matches Some(
            s,
        ) && g.token == s),
        _ => false,
    }
}

/// After the callback tried to queue `d.enqueue` (`queued` tells whether
/// it went through): fail the correction gate open when the worker cannot follow.
pub fn after_enqueue(
    gate: &mut CorrectionGate,
    retained: &mut Option<RetainedInput>,
    d: HookDecision,
    queued: bool,
    current: Option<ForegroundContext>,
) -> (r: Option<GateAbort>)
    ensures
        !queue_failure(*old(gate), d, queued) ==> r is None && *final(gate) == *old(gate) && *final(retained)
            == *old(retained),
        queue_failure(*old(gate), d, queued) ==> {
            let g = if d.enqueue is DrainReady {
                *old(gate)
            } else {
                CorrectionGate { drain_failed: true, ..*old(gate) }
            };
            &&& aborted_gate(g, *final(gate))
            &&& r == Some(
                GateAbort {
                    token: g.token,
                    retained: g.held@.len() > 0,
                    failed: g.held@.len() > 0 || g.drain_failed,
                    request_recovery: g.held@.len() > 0,
                },
            )
            &&& g.held@.len() > 0 ==> retained_is(
                *final(retained),
                g.token,
                recovery_foreground(g.origin, current, g.held@[0].foreground),
                g.held@,
                false,
            )
            &&& g.held@.len() == 0 ==> *final(retained) == *old(retained)
        },
{
    if queued || !gate.active {
        return None;
    }
    match d.enqueue {
        HookQueue::DrainReady { .. } => fail_open(gate, retained, GateFailureCause::WorkerQueue, current),
        HookQueue::Key(_) | HookQueue::RecoverInput { .. } => {
            let ours = d.drained || match d.forwarded {
                Some(s) => gate.token == s,
                None => false,
            };
            if ours {
                gate.drain_failed = true;
                fail_open(gate, retained, GateFailureCause::WorkerQueue, current)
            } else {
                None
            }
        },
        _ => None,
    }
}

/// What the callback does once the next hook returned for a forwarded edge.
#[derive(Debug, Clone, Copy, PartialEq, Eq)]
pub struct ForwardOutcome {
    /// Record this sequence number as delivered.
    pub delivered: Option<u64>,
    /// Publish this token as cancelled.
    pub cancelled_token: Option<u64>,
    /// Queue an external-injection notice for the worker.
    pub notify_injection: bool,
}

/// After the next hook handled a forwarded edge (`consumed` when a
/// downstream hook kept it from the application): a delivered edge is
/// recorded; a consumed one means the worker's view no longer matches, so
/// the correction gate it armed fails open, a drained key cancels its drain, and the
/// worker is told.
pub fn after_forward(
    gate: &mut CorrectionGate,
    retained: &mut Option<RetainedInput>,
    d: HookDecision,
    consumed: bool,
    current: Option<ForegroundContext>,
) -> (r: (ForwardOutcome, Option<GateAbort>))
    ensures
        d.swallow || d.forwarded is None ==> r == (
            ForwardOutcome { delivered: None, cancelled_token: None, notify_injection: false },
            None::<GateAbort>,
        ) && *final(gate) == *old(gate) && *final(retained) == *old(retained),
        !d.swallow && d.forwarded is Some && !consumed ==> r == (
            ForwardOutcome { delivered: d.forwarded, cancelled_token: None, notify_injection: false },
            None::<GateAbort>,
        ) && *final(gate) == *old(gate) && *final(retained) == *old(retained),
        !d.swallow && d.forwarded is Some && consumed ==> {
            let s = d.forwarded->0;
            &&& r.0.delivered is None
            &&& r.0.notify_injection
            &&& (!d.drained && old(gate).active && old(gate).token == s) ==> aborted_gate(*old(gate), *final(gate))
                && r.0.cancelled_token is None && r.1 == Some(
                GateAbort {
                    token: old(gate).token,
                    retained: old(gate).held@.len() > 0,
                    failed: old(gate).held@.len() > 0 || old(gate).drain_failed,
                    request_recovery: false,
                },
            ) && (old(gate).held@.len() > 0 ==> retained_is(
                *final(retained),
                old(gate).token,
                recovery_foreground(old(gate).origin, current, old(gate).held@[0].foreground),
                old(gate).held@,
                true,
            ))
            &&& (d.drained && old(gate).active) ==> *final(gate) == (CorrectionGate {
                cancelled: true,
                drain_failed: true,
                ..*old(gate)
            }) && r.0.cancelled_token == Some(old(gate).token) && r.1 is None
            &&& !(old(gate).active && (d.drained || old(gate).token == s)) ==> *final(gate) == *old(gate)
                && r.0.cancelled_token is None && r.1 is None && *final(retained) == *old(retained)
        },
{
    let none = ForwardOutcome { delivered: None, cancelled_token: None, notify_injection: false };
    if d.swallow {
        return (none, None);
    }
    let s = match d.forwarded {
        None => return (none, None),
        Some(s) => s,
    };
    if !consumed {
        return (ForwardOutcome { delivered: Some(s), ..none }, None);
    }
    let mut abort = None;
    let mut cancelled_token = None;
    if !d.drained && gate.active && gate.token == s {
        abort = fail_open(gate, retained, GateFailureCause::DownstreamHook, current);
    }
    if d.drained && gate.active {
        gate.cancelled = true;
        gate.drain_failed = true;
        cancelled_token = Some(gate.token);
    }
    (ForwardOutcome { delivered: None, cancelled_token, notify_injection: true }, abort)
}

} // verus!
