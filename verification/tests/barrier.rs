use autokeyboardlayot_core::agent::{TextBarrierStage, TextBarrierStatus};
use autokeyboardlayot_core::barrier::{
    barrier_start, barrier_step, barrier_units_of, BarrierAction, BarrierProbe, UiaAnswer,
};

fn run_to_read(expected: &str) -> BarrierProbe {
    let (s, a, _) = barrier_step(barrier_start(true), expected, UiaAnswer::Started);
    assert_eq!(a, BarrierAction::FocusedPattern);
    let (s, a, _) = barrier_step(s, expected, UiaAnswer::Pattern(None));
    assert_eq!(a, BarrierAction::GetSelection);
    let (s, a, _) = barrier_step(s, expected, UiaAnswer::Selection(Some(Some(1))));
    assert_eq!(a, BarrierAction::GetElement);
    let (s, a, _) = barrier_step(s, expected, UiaAnswer::Element(Some(Some(0))));
    assert_eq!(a, BarrierAction::MoveStart(barrier_units_of(expected).unwrap()));
    let units = barrier_units_of(expected).unwrap();
    let (s, a, _) = barrier_step(s, expected, UiaAnswer::Moved(Some(Some(-units))));
    assert_eq!(a, BarrierAction::ReadText);
    s
}

#[test]
fn exact_text_is_selected_and_confirmed() {
    let expected = "ghbdtn ";
    let s = run_to_read(expected);
    let (s, a, report) = barrier_step(s, expected, UiaAnswer::Text(Some("ghbdtn\u{a0}".to_string())));
    assert_eq!(a, BarrierAction::Select);
    assert_eq!(report.unwrap().stage, TextBarrierStage::TextCompared);
    let (s, a, _) = barrier_step(s, expected, UiaAnswer::Selected(true));
    assert_eq!(a, BarrierAction::Confirm { pause: false });
    let (s, a, _) = barrier_step(s, expected, UiaAnswer::Selection(Some(Some(0))));
    assert_eq!(a, BarrierAction::Confirm { pause: true });
    let (s, a, _) = barrier_step(s, expected, UiaAnswer::Selection(Some(Some(1))));
    assert_eq!(a, BarrierAction::GetElement);
    let (s, a, _) = barrier_step(s, expected, UiaAnswer::Element(Some(Some(-1))));
    assert_eq!(a, BarrierAction::ReadText);
    let (_, a, _) = barrier_step(s, expected, UiaAnswer::Text(Some(expected.to_string())));
    assert_eq!(a, BarrierAction::Finish(TextBarrierStatus::Match));
}

#[test]
fn other_text_is_a_mismatch_and_unreadable_text_is_unavailable() {
    let expected = "ghbdtn";
    let (_, a, _) = barrier_step(run_to_read(expected), expected, UiaAnswer::Text(Some("other".to_string())));
    assert_eq!(a, BarrierAction::Finish(TextBarrierStatus::Mismatch));
    let (_, a, report) = barrier_step(run_to_read(expected), expected, UiaAnswer::Text(None));
    assert_eq!(a, BarrierAction::Finish(TextBarrierStatus::Unavailable));
    assert_eq!(report.unwrap().stage, TextBarrierStage::TextRead);
}

#[test]
fn bounds_and_early_outcomes() {
    assert_eq!(barrier_units_of(""), None);
    assert_eq!(barrier_units_of(&"a".repeat(128)), Some(128));
    assert_eq!(barrier_units_of(&"a".repeat(129)), None);
    assert_eq!(barrier_units_of("𠀀"), Some(2));
    let (_, a, _) = barrier_step(barrier_start(true), "", UiaAnswer::Started);
    assert_eq!(a, BarrierAction::Finish(TextBarrierStatus::Unavailable));
    let (s, _, _) = barrier_step(barrier_start(true), "ab", UiaAnswer::Started);
    let (s2, _, _) = barrier_step(s, "ab", UiaAnswer::Pattern(None));
    let (_, a, _) = barrier_step(s2, "ab", UiaAnswer::Selection(Some(Some(2))));
    assert_eq!(a, BarrierAction::Finish(TextBarrierStatus::Mismatch));
    let (_, a, _) = barrier_step(s2, "ab", UiaAnswer::Selection(None));
    assert_eq!(a, BarrierAction::Finish(TextBarrierStatus::Unavailable));
    let (_, a, _) = barrier_step(s, "ab", UiaAnswer::Pattern(Some(TextBarrierStatus::Mismatch)));
    assert_eq!(a, BarrierAction::Finish(TextBarrierStatus::Mismatch));
}

#[test]
fn confirmation_that_never_saw_other_text_ends_unavailable() {
    let expected = "ab";
    let s = run_to_read(expected);
    let (s, _, _) = barrier_step(s, expected, UiaAnswer::Text(Some("ab".to_string())));
    let (s, _, _) = barrier_step(s, expected, UiaAnswer::Selected(true));
    let (s1, a, _) = barrier_step(s, expected, UiaAnswer::Selection(None));
    assert_eq!(a, BarrierAction::Confirm { pause: true });
    let (_, a, report) = barrier_step(s1, expected, UiaAnswer::Expired);
    assert_eq!(a, BarrierAction::Finish(TextBarrierStatus::Unavailable));
    assert_eq!(report.unwrap().stage, TextBarrierStage::SelectionConfirm);
    let (s2, _, _) = barrier_step(s, expected, UiaAnswer::Selection(Some(Some(3))));
    let (_, a, _) = barrier_step(s2, expected, UiaAnswer::Expired);
    assert_eq!(a, BarrierAction::Finish(TextBarrierStatus::Mismatch));
    let (_, a, _) = barrier_step(s, expected, UiaAnswer::Selected(false));
    assert_eq!(a, BarrierAction::Finish(TextBarrierStatus::Unavailable));
}

#[test]
fn comparing_only_ends_at_the_text() {
    let expected = "ab";
    let (s, _, _) = barrier_step(barrier_start(false), expected, UiaAnswer::Started);
    let (s, _, _) = barrier_step(s, expected, UiaAnswer::Pattern(None));
    let (_, a, report) = barrier_step(s, expected, UiaAnswer::Selection(None));
    assert_eq!(a, BarrierAction::Finish(TextBarrierStatus::Unavailable));
    assert_eq!(report.unwrap().stage, TextBarrierStage::Selection);
    let (s, _, _) = barrier_step(s, expected, UiaAnswer::Selection(Some(Some(1))));
    let (s, _, _) = barrier_step(s, expected, UiaAnswer::Element(Some(Some(0))));
    let (s, _, _) = barrier_step(s, expected, UiaAnswer::Moved(Some(Some(-2))));
    let (_, a, _) = barrier_step(s, expected, UiaAnswer::Text(Some("ab".to_string())));
    assert_eq!(a, BarrierAction::Finish(TextBarrierStatus::Match));
}
