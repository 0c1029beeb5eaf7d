//! The text barrier before a protected paste: compare the text typed
//! before the caret through UI Automation, or select exactly that text
//! and confirm that the selection holds it. Each UI Automation call is the platform's; which
//! call comes next, and which outcome counts as a mismatch (the host shows
//! other text, never replayed over) or as unavailable (nothing could be
//! read), is decided here.

use vstd::prelude::*;

use crate::agent::{
    barrier_matches, report_of, text_barrier_matches, classify_text_barrier, BarrierCharacterClass,
    EditableResolverReason, TextBarrierReport, TextBarrierStage, TextBarrierStatus,
};

verus! {

/// The most UTF-16 units the barrier selects.
pub const MAX_BARRIER_UNITS: i32 = 128;

/// How many UTF-16 units `s` takes.
pub open spec fn utf16_len(s: Seq<char>) -> int
    decreases s.len(),
{
    if s.len() == 0 {
        0
    } else {
        utf16_len(s.drop_last()) + if (s.last() as u32) < 0x10000 {
            1int
        } else {
            2int
        }
    }
}

/// The number of UTF-16 units of `expected`, when it is between 1 and 128.
pub open spec fn barrier_units(expected: Seq<char>) -> Option<i32> {
    if 1 <= utf16_len(expected) <= MAX_BARRIER_UNITS {
        Some(utf16_len(expected) as i32)
    } else {
        None
    }
}

proof fn lemma_utf16_len_grows(s: Seq<char>, i: int)
    requires
        0 <= i <= s.len(),
    ensures
        utf16_len(s.take(i)) <= utf16_len(s),
    decreases s.len() - i,
{
    if i < s.len() {
        lemma_utf16_len_grows(s, i + 1);
        assert(s.take(i + 1).drop_last() =~= s.take(i));
    } else {
        assert(s.take(i) =~= s);
    }
}

/// The UTF-16 length of `expected` when the barrier can select it.
pub fn barrier_units_of(expected: &str) -> (r: Option<i32>)
    ensures
        r == barrier_units(expected@),
{
    let chars = crate::text::chars_of(expected);
    let mut n: i32 = 0;
    let mut i: usize = 0;
    assert(chars@.take(0) =~= Seq::<char>::empty());
    while i < chars.len()
        invariant
            i <= chars@.len(),
            chars@ == expected@,
            n == utf16_len(chars@.take(i as int)),
            0 <= n <= MAX_BARRIER_UNITS,
        decreases chars.len() - i,
    {
        assert(chars@.take(i + 1).drop_last() =~= chars@.take(i as int));
        let step: i32 = if (chars[i] as u32) < 0x10000 {
            1
        } else {
            2
        };
        if n + step > MAX_BARRIER_UNITS {
            proof {
                lemma_utf16_len_grows(chars@, i + 1);
            }
            return None;
        }
        n = n + step;
        i = i + 1;
    }
    assert(chars@.take(chars@.len() as int) =~= chars@);
    if n == 0 {
        None
    } else {
        Some(n)
    }
}

/// Where a barrier probe stands: which answer it waits for.
#[derive(Debug, Clone, Copy, PartialEq, Eq)]
pub enum BarrierProbeStage {
    Start,
    Pattern,
    Selection,
    Caret,
    Move,
    Read,
    Select,
    ConfirmSelection,
    ConfirmElement,
    ConfirmText,
    Done,
}

/// A barrier probe in progress.
#[derive(Debug, Clone, Copy, PartialEq, Eq)]
pub struct BarrierProbe {
    pub stage: BarrierProbeStage,
    /// The probe selects the text and confirms the selection; otherwise it
    /// only compares the text before the caret.
    pub select: bool,
    /// How far the range start was moved back.
    pub moved: i32,
    /// A confirmation poll saw a selection that was not the expected text.
    pub saw_mismatch: bool,
    /// The last report recorded.
    pub report: TextBarrierReport,
}

/// A UI Automation outcome, answering the last action.
#[derive(Debug, Clone, PartialEq, Eq)]
pub enum UiaAnswer {
    Started,
    /// `None` when the focused editable text pattern was obtained, else the
    /// status the resolver ended with.
    Pattern(Option<TextBarrierStatus>),
    /// `None` when the selection could not be read, else its number of
    /// ranges (`None` when that could not be read).
    Selection(Option<Option<i32>>),
    /// `None` when the first selected range could not be taken, else how
    /// its start compares with its end (`None` when that failed).
    Element(Option<Option<i32>>),
    /// `None` when the caret range could not be cloned, else how many units
    /// its start moved (`None` when the move failed).
    Moved(Option<Option<i32>>),
    /// The range's text, `None` when it could not be read.
    Text(Option<String>),
    /// Whether selecting the range succeeded.
    Selected(bool),
    /// The confirmation deadline passed.
    Expired,
}

pub enum UiaView {
    Started,
    Pattern(Option<TextBarrierStatus>),
    Selection(Option<Option<i32>>),
    Element(Option<Option<i32>>),
    Moved(Option<Option<i32>>),
    Text(Option<Seq<char>>),
    Selected(bool),
    Expired,
}

impl View for UiaAnswer {
    type V = UiaView;

    open spec fn view(&self) -> UiaView {
        match self {
            UiaAnswer::Started => UiaView::Started,
            UiaAnswer::Pattern(p) => UiaView::Pattern(*p),
            UiaAnswer::Selection(s) => UiaView::Selection(*s),
            UiaAnswer::Element(e) => UiaView::Element(*e),
            UiaAnswer::Moved(m) => UiaView::Moved(*m),
            UiaAnswer::Text(t) => UiaView::Text(
                match t {
                    Some(s) => Some(s@),
                    None => None,
                },
            ),
            UiaAnswer::Selected(b) => UiaView::Selected(*b),
            UiaAnswer::Expired => UiaView::Expired,
        }
    }
}

/// The next UI Automation call.
#[derive(Debug, Clone, Copy, PartialEq, Eq)]
pub enum BarrierAction {
    /// Find the focused editable control of the expected process and its
    /// text pattern.
    FocusedPattern,
    /// Read the selection.
    GetSelection,
    /// Take the first selected range and compare its start with its end.
    GetElement,
    /// Clone the caret range and move its start back by this many units.
    MoveStart(i32),
    /// Read the range's text.
    ReadText,
    /// Select the range.
    Select,
    /// Wait a millisecond when `pause`, then answer `Expired` once the
    /// confirmation deadline has passed, or read the selection.
    Confirm { pause: bool },
    /// Stop with this status.
    Finish(TextBarrierStatus),
}

/// A report that only names the stage, the expected length and the move.
pub open spec fn plain_report(stage: TextBarrierStage, expected_chars: usize, moved: i32) -> TextBarrierReport {
    TextBarrierReport {
        stage,
        expected_chars,
        actual_chars: 0,
        moved_units: moved,
        exact: false,
        trailing_nbsp_equivalent: false,
        word_at_start: false,
        word_at_end: false,
        actual_without_first_is_word: false,
        actual_without_last_is_word: false,
        leading: BarrierCharacterClass::Absent,
        trailing: BarrierCharacterClass::Absent,
        resolver_depth: 0,
        resolver_reason: EditableResolverReason::NoReason,
        resolver_process_id: 0,
    }
}

/// One step of a barrier probe for `expected`: the next state, the next
/// call, and the report to record, if any.
pub open spec fn barrier_next(s: BarrierProbe, expected: Seq<char>, a: UiaView) -> (
    BarrierProbe,
    BarrierAction,
    Option<TextBarrierReport>,
) {
    let echars = expected.len() as usize;
    let finish = |st: TextBarrierStatus, rep: Option<TextBarrierReport>|
        (
            BarrierProbe {
                stage: BarrierProbeStage::Done,
                report: match rep {
                    Some(r) => r,
                    None => s.report,
                },
                ..s
            },
            BarrierAction::Finish(st),
            rep,
        );
    let go = |stage: BarrierProbeStage, act: BarrierAction| (BarrierProbe { stage, ..s }, act, None::<TextBarrierReport>);
    let again = |saw: bool|
        (
            BarrierProbe { stage: BarrierProbeStage::ConfirmSelection, saw_mismatch: saw, ..s },
            BarrierAction::Confirm { pause: true },
            None::<TextBarrierReport>,
        );
    match (s.stage, a) {
        (BarrierProbeStage::Start, UiaView::Started) => {
            let rep = plain_report(TextBarrierStage::NotStarted, echars, 0);
            match barrier_units(expected) {
                None => (
                    BarrierProbe { stage: BarrierProbeStage::Done, report: rep, ..s },
                    BarrierAction::Finish(TextBarrierStatus::Unavailable),
                    Some(rep),
                ),
                Some(_) => (
                    BarrierProbe { stage: BarrierProbeStage::Pattern, report: rep, ..s },
                    BarrierAction::FocusedPattern,
                    Some(rep),
                ),
            }
        },
        (BarrierProbeStage::Pattern, UiaView::Pattern(p)) => match p {
            Some(st) => finish(st, None),
            None => go(BarrierProbeStage::Selection, BarrierAction::GetSelection),
        },
        (BarrierProbeStage::Selection, UiaView::Selection(sel)) => match sel {
            None => finish(
                TextBarrierStatus::Unavailable,
                if s.select {
                    None
                } else {
                    Some(plain_report(TextBarrierStage::Selection, echars, 0))
                },
            ),
            Some(len) => if len != Some(1i32) {
                finish(TextBarrierStatus::Mismatch, None)
            } else {
                go(BarrierProbeStage::Caret, BarrierAction::GetElement)
            },
        },
        (BarrierProbeStage::Caret, UiaView::Element(el)) => match el {
            None => finish(TextBarrierStatus::Unavailable, Some(plain_report(TextBarrierStage::Caret, echars, 0))),
            Some(c) => if c != Some(0i32) {
                finish(TextBarrierStatus::Mismatch, Some(plain_report(TextBarrierStage::Caret, echars, 0)))
            } else {
                match barrier_units(expected) {
                    Some(n) => go(BarrierProbeStage::Move, BarrierAction::MoveStart(n)),
                    None => finish(TextBarrierStatus::Unavailable, None),
                }
            },
        },
        (BarrierProbeStage::Move, UiaView::Moved(mv)) => match (mv, barrier_units(expected)) {
            (None, _) | (_, None) => finish(TextBarrierStatus::Unavailable, None),
            (Some(m), Some(n)) => if m != Some((-n) as i32) {
                finish(
                    TextBarrierStatus::Mismatch,
                    Some(
                        plain_report(
                            TextBarrierStage::RangeMove,
                            echars,
                            match m {
                                Some(x) => x,
                                None => i32::MIN,
                            },
                        ),
                    ),
                )
            } else {
                (
                    BarrierProbe { stage: BarrierProbeStage::Read, moved: m->0, ..s },
                    BarrierAction::ReadText,
                    None,
                )
            },
        },
        (BarrierProbeStage::Read, UiaView::Text(t)) => match t {
            None => finish(TextBarrierStatus::Unavailable, Some(plain_report(TextBarrierStage::TextRead, echars, s.moved))),
            Some(actual) => {
                let rep = report_of(actual, expected, TextBarrierStage::TextCompared, s.moved);
                if !barrier_matches(actual, expected) {
                    finish(TextBarrierStatus::Mismatch, Some(rep))
                } else if !s.select {
                    finish(TextBarrierStatus::Match, Some(rep))
                } else {
                    (BarrierProbe { stage: BarrierProbeStage::Select, report: rep, ..s }, BarrierAction::Select, Some(rep))
                }
            },
        },
        (BarrierProbeStage::Select, UiaView::Selected(ok)) => if !ok {
            finish(TextBarrierStatus::Mismatch, Some(TextBarrierReport { stage: TextBarrierStage::SelectCall, ..s.report }))
        } else {
            (
                BarrierProbe { stage: BarrierProbeStage::ConfirmSelection, saw_mismatch: false, ..s },
                BarrierAction::Confirm { pause: false },
                None,
            )
        },
        (BarrierProbeStage::ConfirmSelection, UiaView::Expired) => if s.saw_mismatch {
            finish(TextBarrierStatus::Mismatch, None)
        } else {
            finish(
                TextBarrierStatus::Unavailable,
                Some(plain_report(TextBarrierStage::SelectionConfirm, echars, s.moved)),
            )
        },
        (BarrierProbeStage::ConfirmSelection, UiaView::Selection(sel)) => match sel {
            None => again(s.saw_mismatch),
            Some(len) => if len != Some(1i32) {
                again(true)
            } else {
                go(BarrierProbeStage::ConfirmElement, BarrierAction::GetElement)
            },
        },
        (BarrierProbeStage::ConfirmElement, UiaView::Element(el)) => match el {
            None => again(s.saw_mismatch),
            Some(c) => if c == Some(0i32) {
                again(true)
            } else {
                go(BarrierProbeStage::ConfirmText, BarrierAction::ReadText)
            },
        },
        (BarrierProbeStage::ConfirmText, UiaView::Text(t)) => match t {
            None => again(s.saw_mismatch),
            Some(actual) => {
                let rep = report_of(actual, expected, TextBarrierStage::SelectionConfirm, s.moved);
                if barrier_matches(actual, expected) {
                    finish(TextBarrierStatus::Match, Some(rep))
                } else {
                    (
                        BarrierProbe { stage: BarrierProbeStage::ConfirmSelection, saw_mismatch: true, report: rep, ..s },
                        BarrierAction::Confirm { pause: true },
                        Some(rep),
                    )
                }
            },
        },
        _ => finish(TextBarrierStatus::Unavailable, None),
    }
}

/// A probe that has not asked anything yet; `select` chooses selecting
/// and confirming over only comparing.
pub fn barrier_start(select: bool) -> (r: BarrierProbe)
    ensures
        r.stage is Start,
        r.select == select,
        !r.saw_mismatch,
        r.moved == 0,
{
    BarrierProbe {
        stage: BarrierProbeStage::Start,
        select,
        moved: 0,
        saw_mismatch: false,
        report: TextBarrierReport {
            stage: TextBarrierStage::NotStarted,
            expected_chars: 0,
            actual_chars: 0,
            moved_units: 0,
            exact: false,
            trailing_nbsp_equivalent: false,
            word_at_start: false,
            word_at_end: false,
            actual_without_first_is_word: false,
            actual_without_last_is_word: false,
            leading: BarrierCharacterClass::Absent,
            trailing: BarrierCharacterClass::Absent,
            resolver_depth: 0,
            resolver_reason: EditableResolverReason::NoReason,
            resolver_process_id: 0,
        },
    }
}

fn plain(stage: TextBarrierStage, expected_chars: usize, moved: i32) -> (r: TextBarrierReport)
    ensures
        r == plain_report(stage, expected_chars, moved),
{
    TextBarrierReport {
        stage,
        expected_chars,
        actual_chars: 0,
        moved_units: moved,
        exact: false,
        trailing_nbsp_equivalent: false,
        word_at_start: false,
        word_at_end: false,
        actual_without_first_is_word: false,
        actual_without_last_is_word: false,
        leading: BarrierCharacterClass::Absent,
        trailing: BarrierCharacterClass::Absent,
        resolver_depth: 0,
        resolver_reason: EditableResolverReason::NoReason,
        resolver_process_id: 0,
    }
}

fn finish_with(s: BarrierProbe, st: TextBarrierStatus, rep: Option<TextBarrierReport>) -> (r: (
    BarrierProbe,
    BarrierAction,
    Option<TextBarrierReport>,
))
    ensures
        r == (
            BarrierProbe {
                stage: BarrierProbeStage::Done,
                report: match rep {
                    Some(x) => x,
                    None => s.report,
                },
                ..s
            },
            BarrierAction::Finish(st),
            rep,
        ),
{
    let report = match rep {
        Some(x) => x,
        None => s.report,
    };
    (BarrierProbe { stage: BarrierProbeStage::Done, report, ..s }, BarrierAction::Finish(st), rep)
}

fn confirm_again(s: BarrierProbe, saw: bool) -> (r: (BarrierProbe, BarrierAction, Option<TextBarrierReport>))
    ensures
        r == (
            BarrierProbe { stage: BarrierProbeStage::ConfirmSelection, saw_mismatch: saw, ..s },
            BarrierAction::Confirm { pause: true },
            None::<TextBarrierReport>,
        ),
{
    (BarrierProbe { stage: BarrierProbeStage::ConfirmSelection, saw_mismatch: saw, ..s }, BarrierAction::Confirm { pause: true }, None)
}

/// Advance a barrier probe for `expected` with the answer to its last
/// call. A text that differs from `expected` always ends as a mismatch,
/// never as unavailable.
#[verifier::rlimit(60)]
#[verifier::spinoff_prover]
pub fn barrier_step(s: BarrierProbe, expected: &str, answer: UiaAnswer) -> (r: (
    BarrierProbe,
    BarrierAction,
    Option<TextBarrierReport>,
))
    ensures
        r == barrier_next(s, expected@, answer@),
        (s.stage is Read || s.stage is ConfirmText) && (answer@ matches UiaView::Text(Some(t)) && !barrier_matches(t, expected@))
            ==> !(r.1 matches BarrierAction::Finish(TextBarrierStatus::Unavailable)) && !(r.1 matches BarrierAction::Finish(
            TextBarrierStatus::Match,
        )),
{
    let ghost av = answer@;
    let echars = crate::text::chars_of(expected).len();
    match (s.stage, answer) {
        (BarrierProbeStage::Start, UiaAnswer::Started) => {
            let rep = plain(TextBarrierStage::NotStarted, echars, 0);
            match barrier_units_of(expected) {
                None => (
                    BarrierProbe { stage: BarrierProbeStage::Done, report: rep, ..s },
                    BarrierAction::Finish(TextBarrierStatus::Unavailable),
                    Some(rep),
                ),
                Some(_) => (BarrierProbe { stage: BarrierProbeStage::Pattern, report: rep, ..s }, BarrierAction::FocusedPattern, Some(rep)),
            }
        },
        (BarrierProbeStage::Pattern, UiaAnswer::Pattern(p)) => match p {
            Some(st) => finish_with(s, st, None),
            None => (BarrierProbe { stage: BarrierProbeStage::Selection, ..s }, BarrierAction::GetSelection, None),
        },
        (BarrierProbeStage::Selection, UiaAnswer::Selection(sel)) => match sel {
            None => {
                let rep = if s.select {
                    None
                } else {
                    Some(plain(TextBarrierStage::Selection, echars, 0))
                };
                finish_with(s, TextBarrierStatus::Unavailable, rep)
            },
            Some(len) => {
                if len != Some(1i32) {
                    finish_with(s, TextBarrierStatus::Mismatch, None)
                } else {
                    (BarrierProbe { stage: BarrierProbeStage::Caret, ..s }, BarrierAction::GetElement, None)
                }
            },
        },
        (BarrierProbeStage::Caret, UiaAnswer::Element(el)) => match el {
            None => finish_with(s, TextBarrierStatus::Unavailable, Some(plain(TextBarrierStage::Caret, echars, 0))),
            Some(c) => {
                if c != Some(0i32) {
                    finish_with(s, TextBarrierStatus::Mismatch, Some(plain(TextBarrierStage::Caret, echars, 0)))
                } else {
                    match barrier_units_of(expected) {
                        Some(n) => (BarrierProbe { stage: BarrierProbeStage::Move, ..s }, BarrierAction::MoveStart(n), None),
                        None => finish_with(s, TextBarrierStatus::Unavailable, None),
                    }
                }
            },
        },
        (BarrierProbeStage::Move, UiaAnswer::Moved(mv)) => match (mv, barrier_units_of(expected)) {
            (None, _) | (_, None) => finish_with(s, TextBarrierStatus::Unavailable, None),
            (Some(m), Some(n)) => {
                if m != Some(-n) {
                    let x = match m {
                        Some(x) => x,
                        None => i32::MIN,
                    };
                    finish_with(s, TextBarrierStatus::Mismatch, Some(plain(TextBarrierStage::RangeMove, echars, x)))
                } else {
                    (BarrierProbe { stage: BarrierProbeStage::Read, moved: -n, ..s }, BarrierAction::ReadText, None)
                }
            },
        },
        (BarrierProbeStage::Read, UiaAnswer::Text(t)) => match t {
            None => finish_with(s, TextBarrierStatus::Unavailable, Some(plain(TextBarrierStage::TextRead, echars, s.moved))),
            Some(actual) => {
                let rep = classify_text_barrier(actual.as_str(), expected, TextBarrierStage::TextCompared, s.moved);
                if !text_barrier_matches(actual.as_str(), expected) {
                    finish_with(s, TextBarrierStatus::Mismatch, Some(rep))
                } else if !s.select {
                    finish_with(s, TextBarrierStatus::Match, Some(rep))
                } else {
                    (BarrierProbe { stage: BarrierProbeStage::Select, report: rep, ..s }, BarrierAction::Select, Some(rep))
                }
            },
        },
        (BarrierProbeStage::Select, UiaAnswer::Selected(ok)) => {
            if !ok {
                finish_with(s, TextBarrierStatus::Mismatch, Some(TextBarrierReport { stage: TextBarrierStage::SelectCall, ..s.report }))
            } else {
                (
                    BarrierProbe { stage: BarrierProbeStage::ConfirmSelection, saw_mismatch: false, ..s },
                    BarrierAction::Confirm { pause: false },
                    None,
                )
            }
        },
        (BarrierProbeStage::ConfirmSelection, UiaAnswer::Expired) => {
            if s.saw_mismatch {
                finish_with(s, TextBarrierStatus::Mismatch, None)
            } else {
                finish_with(s, TextBarrierStatus::Unavailable, Some(plain(TextBarrierStage::SelectionConfirm, echars, s.moved)))
            }
        },
        (BarrierProbeStage::ConfirmSelection, UiaAnswer::Selection(sel)) => match sel {
            None => confirm_again(s, s.saw_mismatch),
            Some(len) => {
                if len != Some(1i32) {
                    confirm_again(s, true)
                } else {
                    (BarrierProbe { stage: BarrierProbeStage::ConfirmElement, ..s }, BarrierAction::GetElement, None)
                }
            },
        },
        (BarrierProbeStage::ConfirmElement, UiaAnswer::Element(el)) => match el {
            None => confirm_again(s, s.saw_mismatch),
            Some(c) => {
                if c == Some(0i32) {
                    confirm_again(s, true)
                } else {
                    (BarrierProbe { stage: BarrierProbeStage::ConfirmText, ..s }, BarrierAction::ReadText, None)
                }
            },
        },
        (BarrierProbeStage::ConfirmText, UiaAnswer::Text(t)) => match t {
            None => confirm_again(s, s.saw_mismatch),
            Some(actual) => {
                let rep = classify_text_barrier(actual.as_str(), expected, TextBarrierStage::SelectionConfirm, s.moved);
                if text_barrier_matches(actual.as_str(), expected) {
                    finish_with(s, TextBarrierStatus::Match, Some(rep))
                } else {
                    (
                        BarrierProbe { stage: BarrierProbeStage::ConfirmSelection, saw_mismatch: true, report: rep, ..s },
                        BarrierAction::Confirm { pause: true },
                        Some(rep),
                    )
                }
            },
        },
        _ => finish_with(s, TextBarrierStatus::Unavailable, None),
    }
}

} // verus!
