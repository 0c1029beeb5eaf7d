//! The in-memory input session: the current word and the volatile
//! suppression state, driven by keyboard and platform events.
//!
//! Nothing here persists typed text or exposes it to diagnostics.

use vstd::prelude::*;

use crate::detector::{
    candidate_views, detect_in_context_spec, detect_spec, extends_word, force_spec, language_views,
    CompositionState, Detection, DetectionView, Detector, DetectorView,
};
use crate::pack_id::Language;
use crate::text::chars_of;

verus! {

/// The longest word the session buffers.
pub const DEFAULT_MAX_WORD_CHARACTERS: usize = 64;

/// Why the current word was dropped.
#[derive(Debug, Clone, Copy, PartialEq, Eq)]
pub enum ResetReason {
    Backspace,
    Delete,
    Navigation,
    Mouse,
    FocusChanged,
    LayoutChanged,
    Shortcut,
    UnsupportedInput,
    Composition,
    QueueOverflow,
}

/// A keyboard or platform event, already classified.
#[derive(Debug, Clone, Copy, PartialEq, Eq)]
pub enum InputEvent {
    Printable(char),
    Boundary,
    Backspace,
    Delete,
    Navigation,
    Mouse,
    FocusChanged,
    LayoutChanged,
    Shortcut,
    UnsupportedInput,
    QueueOverflow,
    Injected,
}

/// What the caller should do after an event.
#[derive(Debug, Clone, PartialEq, Eq)]
pub enum SessionAction {
    NoAction,
    Candidate(Detection),
    Reset(ResetReason),
}

/// The content of a `SessionAction`.
pub enum ActionView {
    NoAction,
    Candidate(DetectionView),
    Reset(ResetReason),
}

impl View for SessionAction {
    type V = ActionView;

    open spec fn view(&self) -> ActionView {
        match self {
            SessionAction::NoAction => ActionView::NoAction,
            SessionAction::Candidate(d) => ActionView::Candidate(d@),
            SessionAction::Reset(r) => ActionView::Reset(*r),
        }
    }
}

/// Holds only the current word and volatile suppression state.
#[derive(Debug, Clone)]
pub struct InputSession {
    current_word: Vec<char>,
    suppressed_until_boundary: bool,
    backspace_remaining: Option<usize>,
    max_word_characters: usize,
    at_line_start: bool,
    current_word_started_at_line_start: bool,
    recheck_first_word_after_erasing: bool,
}

/// The content of an `InputSession`.
pub struct SessionView {
    pub word: Seq<char>,
    pub suppressed: bool,
    pub backspace_remaining: Option<nat>,
    pub max: nat,
    pub at_line_start: bool,
    pub started_at_line_start: bool,
    pub recheck: bool,
}

impl View for InputSession {
    type V = SessionView;

    closed spec fn view(&self) -> SessionView {
        SessionView {
            word: self.current_word@,
            suppressed: self.suppressed_until_boundary,
            backspace_remaining: match self.backspace_remaining {
                Some(n) => Some(n as nat),
                None => None,
            },
            max: self.max_word_characters as nat,
            at_line_start: self.at_line_start,
            started_at_line_start: self.current_word_started_at_line_start,
            recheck: self.recheck_first_word_after_erasing,
        }
    }
}

/// The buffer never holds more than the word limit.
pub open spec fn session_wf(s: SessionView) -> bool {
    s.word.len() <= s.max
}

/// The word dropped, with suppression until the next boundary as given.
pub open spec fn reset_spec(s: SessionView, suppress: bool) -> SessionView {
    SessionView {
        word: Seq::<char>::empty(),
        suppressed: suppress,
        backspace_remaining: None,
        at_line_start: false,
        started_at_line_start: false,
        ..s
    }
}

pub open spec fn action_of(d: Option<DetectionView>) -> ActionView {
    match d {
        Some(v) => ActionView::Candidate(v),
        None => ActionView::NoAction,
    }
}

/// A typed character.
pub open spec fn printable_spec(s: SessionView, c: char, language: Option<Seq<char>>) -> (SessionView, ActionView) {
    if s.suppressed {
        (SessionView { backspace_remaining: None, ..s }, ActionView::NoAction)
    } else {
        match language {
            None => (reset_spec(s, true), ActionView::Reset(ResetReason::UnsupportedInput)),
            Some(l) => if !extends_word(c, l) || s.word.len() >= s.max {
                (reset_spec(s, true), ActionView::Reset(ResetReason::UnsupportedInput))
            } else {
                (
                    SessionView {
                        word: s.word.push(c),
                        at_line_start: false,
                        started_at_line_start: if s.word.len() == 0 {
                            s.at_line_start
                        } else {
                            s.started_at_line_start
                        },
                        ..s
                    },
                    ActionView::NoAction,
                )
            },
        }
    }
}

/// The line-start state after the whole tracked word was erased: the first
/// word of a line is armed again when rechecking is enabled.
pub open spec fn after_full_erase(s: SessionView) -> bool {
    if s.started_at_line_start && s.recheck {
        true
    } else {
        s.at_line_start
    }
}

/// A plain Backspace. A partially erased word stays suppressed until its
/// boundary; erasing it completely starts a fresh word; a Backspace with
/// nothing tracked suppresses, since it may join the line with older text.
pub open spec fn backspace_spec(s: SessionView) -> SessionView {
    if s.suppressed {
        match s.backspace_remaining {
            None => s,
            Some(rem) => {
                let left: nat = if rem == 0 {
                    0
                } else {
                    (rem - 1) as nat
                };
                if left == 0 {
                    SessionView {
                        word: Seq::<char>::empty(),
                        suppressed: false,
                        backspace_remaining: None,
                        started_at_line_start: false,
                        at_line_start: after_full_erase(s),
                        ..s
                    }
                } else {
                    SessionView {
                        word: if s.word.len() > 0 {
                            s.word.drop_last()
                        } else {
                            s.word
                        },
                        backspace_remaining: Some(left),
                        ..s
                    }
                }
            },
        }
    } else if s.word.len() > 0 {
        let w = s.word.drop_last();
        if w.len() == 0 {
            SessionView {
                word: w,
                suppressed: false,
                backspace_remaining: None,
                started_at_line_start: false,
                at_line_start: after_full_erase(s),
                ..s
            }
        } else {
            SessionView { word: w, suppressed: true, backspace_remaining: Some(w.len()), ..s }
        }
    } else {
        SessionView { suppressed: true, backspace_remaining: None, ..s }
    }
}

/// One event, with the built-in detection at a boundary.
pub open spec fn handle_spec(
    s: SessionView,
    event: InputEvent,
    language: Option<Seq<char>>,
    d: DetectorView,
) -> (SessionView, ActionView) {
    match event {
        InputEvent::Injected => (s, ActionView::NoAction),
        InputEvent::Printable(c) => printable_spec(s, c, language),
        InputEvent::Boundary => (
            reset_spec(s, false),
            if s.suppressed {
                ActionView::NoAction
            } else {
                match language {
                    None => ActionView::NoAction,
                    Some(l) => action_of(detect_spec(d, s.word, l)),
                }
            },
        ),
        InputEvent::Backspace => (backspace_spec(s), ActionView::Reset(ResetReason::Backspace)),
        InputEvent::Delete => (reset_spec(s, true), ActionView::Reset(ResetReason::Delete)),
        InputEvent::Navigation => (reset_spec(s, true), ActionView::Reset(ResetReason::Navigation)),
        InputEvent::Mouse => (reset_spec(s, false), ActionView::Reset(ResetReason::Mouse)),
        InputEvent::FocusChanged => (reset_spec(s, false), ActionView::Reset(ResetReason::FocusChanged)),
        InputEvent::LayoutChanged => (reset_spec(s, true), ActionView::Reset(ResetReason::LayoutChanged)),
        InputEvent::Shortcut => (reset_spec(s, true), ActionView::Reset(ResetReason::Shortcut)),
        InputEvent::UnsupportedInput => (
            reset_spec(s, true),
            ActionView::Reset(ResetReason::UnsupportedInput),
        ),
        InputEvent::QueueOverflow => (reset_spec(s, true), ActionView::Reset(ResetReason::QueueOverflow)),
    }
}

/// A boundary whose detection uses platform-mapped candidates.
pub open spec fn boundary_in_context_spec(
    s: SessionView,
    language: Option<Seq<char>>,
    d: DetectorView,
    cs: Seq<(Seq<char>, Seq<char>)>,
    previous: Seq<Seq<char>>,
) -> (SessionView, ActionView) {
    (
        reset_spec(s, false),
        if s.suppressed {
            ActionView::NoAction
        } else {
            match language {
                None => ActionView::NoAction,
                Some(l) => action_of(detect_in_context_spec(d, s.word, l, cs, previous)),
            }
        },
    )
}

/// An explicit conversion of the word under the caret; the buffer is
/// consumed only when a target is selected.
pub open spec fn force_word_spec(
    s: SessionView,
    language: Option<Seq<char>>,
    d: DetectorView,
    cs: Seq<(Seq<char>, Seq<char>)>,
) -> (SessionView, ActionView) {
    if s.suppressed || s.word.len() == 0 {
        (s, ActionView::NoAction)
    } else {
        match language {
            None => (s, ActionView::NoAction),
            Some(l) => match force_spec(d, s.word, l, cs) {
                None => (s, ActionView::NoAction),
                Some(v) => (
                    SessionView {
                        word: Seq::<char>::empty(),
                        backspace_remaining: None,
                        started_at_line_start: false,
                        ..s
                    },
                    ActionView::Candidate(v),
                ),
            },
        }
    }
}

pub open spec fn lang_view(language: Option<Language>) -> Option<Seq<char>> {
    match language {
        Some(l) => Some(l@),
        None => None,
    }
}

impl Default for InputSession {
    fn default() -> (r: InputSession)
        ensures
            r@.word.len() == 0,
            !r@.suppressed,
            r@.backspace_remaining is None,
            r@.max == DEFAULT_MAX_WORD_CHARACTERS,
            !r@.at_line_start,
            !r@.started_at_line_start,
            r@.recheck,
    {
        InputSession {
            current_word: Vec::new(),
            suppressed_until_boundary: false,
            backspace_remaining: None,
            max_word_characters: DEFAULT_MAX_WORD_CHARACTERS,
            at_line_start: false,
            current_word_started_at_line_start: false,
            recheck_first_word_after_erasing: true,
        }
    }
}

impl InputSession {
    fn reset(&mut self, reason: ResetReason, suppress_until_boundary: bool) -> (r: SessionAction)
        ensures
            final(self)@ == reset_spec(old(self)@, suppress_until_boundary),
            r@ == ActionView::Reset(reason),
    {
        self.current_word.clear();
        self.suppressed_until_boundary = suppress_until_boundary;
        self.backspace_remaining = None;
        self.at_line_start = false;
        self.current_word_started_at_line_start = false;
        SessionAction::Reset(reason)
    }

    /// Handle one event; a candidate comes only from a boundary.
    pub fn handle(&mut self, event: InputEvent, current_language: Option<Language>, detector: &Detector) -> (r: SessionAction)
        requires
            session_wf(old(self)@),
        ensures
            session_wf(final(self)@),
            (final(self)@, r@) == handle_spec(old(self)@, event, lang_view(current_language), detector@),
    {
        match event {
            InputEvent::Injected => SessionAction::NoAction,
            InputEvent::Printable(character) => self.handle_printable(character, current_language, detector),
            InputEvent::Boundary => {
                let suppressed = self.suppressed_until_boundary;
                let word = self.take_word();
                if suppressed {
                    return SessionAction::NoAction;
                }
                match current_language {
                    None => SessionAction::NoAction,
                    Some(language) => match detector.detect(&word, language) {
                        Some(d) => SessionAction::Candidate(d),
                        None => SessionAction::NoAction,
                    },
                }
            },
            InputEvent::Backspace => {
                self.handle_backspace();
                SessionAction::Reset(ResetReason::Backspace)
            },
            InputEvent::Delete => self.reset(ResetReason::Delete, true),
            InputEvent::Navigation => self.reset(ResetReason::Navigation, true),
            InputEvent::Mouse => self.reset(ResetReason::Mouse, false),
            InputEvent::FocusChanged => self.reset(ResetReason::FocusChanged, false),
            InputEvent::LayoutChanged => self.reset(ResetReason::LayoutChanged, true),
            InputEvent::Shortcut => self.reset(ResetReason::Shortcut, true),
            InputEvent::UnsupportedInput => self.reset(ResetReason::UnsupportedInput, true),
            InputEvent::QueueOverflow => self.reset(ResetReason::QueueOverflow, true),
        }
    }

    fn handle_printable(&mut self, character: char, current_language: Option<Language>, detector: &Detector) -> (r: SessionAction)
        requires
            session_wf(old(self)@),
        ensures
            session_wf(final(self)@),
            (final(self)@, r@) == printable_spec(old(self)@, character, lang_view(current_language)),
    {
        if self.suppressed_until_boundary {
            self.backspace_remaining = None;
            return SessionAction::NoAction;
        }
        let language = match current_language {
            Some(l) => l,
            None => return self.reset(ResetReason::UnsupportedInput, true),
        };
        if !detector.can_extend_word(character, language) {
            return self.reset(ResetReason::UnsupportedInput, true);
        }
        if self.current_word.len() >= self.max_word_characters {
            return self.reset(ResetReason::UnsupportedInput, true);
        }
        if self.current_word.len() == 0 {
            self.current_word_started_at_line_start = self.at_line_start;
        }
        self.at_line_start = false;
        self.current_word.push(character);
        SessionAction::NoAction
    }

    /// Ends the word: the buffer is emptied and suppression lifted; returns
    /// the word.
    fn take_word(&mut self) -> (r: Vec<char>)
        ensures
            final(self)@ == reset_spec(old(self)@, false),
            r@ == old(self)@.word,
    {
        let mut word: Vec<char> = Vec::new();
        std::mem::swap(&mut word, &mut self.current_word);
        self.suppressed_until_boundary = false;
        self.backspace_remaining = None;
        self.at_line_start = false;
        self.current_word_started_at_line_start = false;
        word
    }

    fn handle_backspace(&mut self)
        requires
            session_wf(old(self)@),
        ensures
            session_wf(final(self)@),
            final(self)@ == backspace_spec(old(self)@),
    {
        if self.suppressed_until_boundary {
            if let Some(remaining) = self.backspace_remaining {
                let _ = self.current_word.pop();
                let left = if remaining == 0 {
                    0
                } else {
                    remaining - 1
                };
                if left == 0 {
                    let was_first_word = self.current_word_started_at_line_start;
                    self.current_word.clear();
                    self.suppressed_until_boundary = false;
                    self.backspace_remaining = None;
                    self.current_word_started_at_line_start = false;
                    if was_first_word && self.recheck_first_word_after_erasing {
                        self.at_line_start = true;
                    }
                } else {
                    self.backspace_remaining = Some(left);
                }
            }
            return;
        }
        if self.current_word.len() > 0 {
            let _ = self.current_word.pop();
            let remaining = self.current_word.len();
            self.suppressed_until_boundary = remaining != 0;
            self.backspace_remaining = if remaining != 0 {
                Some(remaining)
            } else {
                None
            };
            if remaining == 0 {
                let was_first_word = self.current_word_started_at_line_start;
                self.current_word_started_at_line_start = false;
                if was_first_word && self.recheck_first_word_after_erasing {
                    self.at_line_start = true;
                }
            }
        } else {
            self.suppressed_until_boundary = true;
            self.backspace_remaining = None;
        }
    }
}

impl InputSession {
    /// Forget the word and every suppression.
    pub fn clear(&mut self)
        ensures
            final(self)@.max == old(self)@.max,
            session_wf(old(self)@) ==> session_wf(final(self)@),
            final(self)@ == reset_spec(old(self)@, false),
    {
        self.current_word.clear();
        self.suppressed_until_boundary = false;
        self.backspace_remaining = None;
        self.at_line_start = false;
        self.current_word_started_at_line_start = false;
    }

    /// Finish the current word using target strings mapped from the same
    /// physical keys by a platform adapter.
    pub fn finish_boundary_with_candidates(
        &mut self,
        current_language: Option<Language>,
        detector: &Detector,
        candidates: &[(Language, String)],
    ) -> (r: SessionAction)
        ensures
            final(self)@.max == old(self)@.max,
            session_wf(old(self)@) ==> session_wf(final(self)@),
            (final(self)@, r@) == boundary_in_context_spec(
                old(self)@,
                lang_view(current_language),
                detector@,
                candidate_views(candidates@),
                Seq::<Seq<char>>::empty(),
            ),
    {
        let none: Vec<Language> = Vec::new();
        proof {
            assert(language_views(none@) =~= Seq::<Seq<char>>::empty());
        }
        self.finish_boundary_in_context(current_language, detector, candidates, none.as_slice())
    }

    /// As `finish_boundary_with_candidates`, also passing the languages (not
    /// the text) of recent words.
    pub fn finish_boundary_in_context(
        &mut self,
        current_language: Option<Language>,
        detector: &Detector,
        candidates: &[(Language, String)],
        previous: &[Language],
    ) -> (r: SessionAction)
        ensures
            final(self)@.max == old(self)@.max,
            session_wf(old(self)@) ==> session_wf(final(self)@),
            (final(self)@, r@) == boundary_in_context_spec(
                old(self)@,
                lang_view(current_language),
                detector@,
                candidate_views(candidates@),
                language_views(previous@),
            ),
    {
        let suppressed = self.suppressed_until_boundary;
        let word = self.take_word();
        if suppressed {
            return SessionAction::NoAction;
        }
        match current_language {
            None => SessionAction::NoAction,
            Some(language) => match detector.detect_mapped_candidates_in_context(&word, language, candidates, previous) {
                Some(d) => SessionAction::Candidate(d),
                None => SessionAction::NoAction,
            },
        }
    }

    /// Explicitly evaluate the word still under the caret without typing a
    /// boundary. The buffer is consumed only when a target is selected.
    pub fn force_current_word_with_candidates(
        &mut self,
        current_language: Option<Language>,
        detector: &Detector,
        candidates: &[(Language, String)],
    ) -> (r: SessionAction)
        ensures
            final(self)@.max == old(self)@.max,
            session_wf(old(self)@) ==> session_wf(final(self)@),
            (final(self)@, r@) == force_word_spec(
                old(self)@,
                lang_view(current_language),
                detector@,
                candidate_views(candidates@),
            ),
    {
        if self.suppressed_until_boundary || self.current_word.len() == 0 {
            return SessionAction::NoAction;
        }
        let language = match current_language {
            Some(l) => l,
            None => return SessionAction::NoAction,
        };
        match detector.force_mapped_candidates(&self.current_word, language, candidates) {
            None => SessionAction::NoAction,
            Some(detection) => {
                self.current_word.clear();
                self.backspace_remaining = None;
                self.current_word_started_at_line_start = false;
                SessionAction::Candidate(detection)
            },
        }
    }

    /// The number of characters in the current word.
    pub fn buffered_character_count(&self) -> (r: usize)
        ensures
            r == self@.word.len(),
            session_wf(self@) ==> r <= self@.max,
    {
        self.current_word.len()
    }

    /// Whether conversion waits for the next boundary.
    pub fn is_suppressed(&self) -> (r: bool)
        ensures
            r == self@.suppressed,
    {
        self.suppressed_until_boundary
    }

    /// Whether the next word would be the first one on its line.
    pub fn is_at_line_start(&self) -> (r: bool)
        ensures
            r == self@.at_line_start,
    {
        self.at_line_start
    }

    /// Apply an observed composition state. Fail closed: `Active` and
    /// `Indeterminate` drop the word and suppress conversion until the next
    /// boundary; `Inactive` leaves the word untouched.
    pub fn observe_composition(&mut self, state: CompositionState) -> (r: SessionAction)
        ensures
            final(self)@.max == old(self)@.max,
            session_wf(old(self)@) ==> session_wf(final(self)@),
            (final(self)@, r@) == (if state is Inactive {
                (old(self)@, ActionView::NoAction)
            } else {
                (reset_spec(old(self)@, true), ActionView::Reset(ResetReason::Composition))
            }),
    {
        if state.requires_suppression() {
            self.reset(ResetReason::Composition, true)
        } else {
            SessionAction::NoAction
        }
    }

    pub fn set_recheck_first_word_after_erasing(&mut self, enabled: bool)
        ensures
            final(self)@.max == old(self)@.max,
            session_wf(old(self)@) ==> session_wf(final(self)@),
            final(self)@ == (SessionView { recheck: enabled, ..old(self)@ }),
    {
        self.recheck_first_word_after_erasing = enabled;
    }

    /// An observed line start: the next word is the first on its line.
    pub fn mark_line_start(&mut self)
        ensures
            final(self)@.max == old(self)@.max,
            session_wf(old(self)@) ==> session_wf(final(self)@),
            final(self)@ == (SessionView { at_line_start: true, ..reset_spec(old(self)@, false) }),
    {
        self.clear();
        self.at_line_start = true;
    }

    /// Remove the last tracked character after an observed plain Backspace
    /// and keep the corrected word eligible. Returns false, changing
    /// nothing, when the erased character is not part of a known word.
    pub fn erase_last_character(&mut self) -> (r: bool)
        ensures
            final(self)@.max == old(self)@.max,
            session_wf(old(self)@) ==> session_wf(final(self)@),
            r == (!old(self)@.suppressed && old(self)@.word.len() > 0),
            !r ==> final(self)@ == old(self)@,
            r ==> final(self)@ == (if old(self)@.word.len() == 1 {
                SessionView {
                    word: Seq::<char>::empty(),
                    backspace_remaining: None,
                    at_line_start: old(self)@.started_at_line_start,
                    started_at_line_start: false,
                    ..old(self)@
                }
            } else {
                SessionView {
                    word: old(self)@.word.drop_last(),
                    backspace_remaining: None,
                    ..old(self)@
                }
            }),
    {
        if self.suppressed_until_boundary || self.current_word.len() == 0 {
            return false;
        }
        let _ = self.current_word.pop();
        self.backspace_remaining = None;
        if self.current_word.len() == 0 {
            assert(self.current_word@ =~= Seq::<char>::empty());
            self.at_line_start = self.current_word_started_at_line_start;
            self.current_word_started_at_line_start = false;
        }
        true
    }

    /// Resume a completed word after the user erased its delimiter. The
    /// caller validates that the word is still adjacent to the caret.
    pub fn restore_word(&mut self, word: &str) -> (r: bool)
        ensures
            final(self)@.max == old(self)@.max,
            session_wf(old(self)@) ==> session_wf(final(self)@),
            r == (word@.len() > 0 && word@.len() <= old(self)@.max),
            !r ==> final(self)@ == old(self)@,
            r ==> final(self)@ == (SessionView { word: word@, ..reset_spec(old(self)@, false) }),
    {
        let chars = chars_of(word);
        if chars.len() == 0 || chars.len() > self.max_word_characters {
            return false;
        }
        self.clear();
        self.current_word = chars;
        true
    }

    /// Handle Ctrl+Backspace only when the tracked word is known to be the
    /// first word after an observed line start.
    pub fn erase_first_word_by_shortcut(&mut self) -> (r: bool)
        ensures
            final(self)@.max == old(self)@.max,
            session_wf(old(self)@) ==> session_wf(final(self)@),
            r == (old(self)@.recheck && old(self)@.word.len() > 0 && old(self)@.started_at_line_start),
            !r ==> final(self)@ == old(self)@,
            r ==> final(self)@ == (SessionView { at_line_start: true, ..reset_spec(old(self)@, false) }),
    {
        if !self.recheck_first_word_after_erasing || self.current_word.len() == 0
            || !self.current_word_started_at_line_start {
            return false;
        }
        self.clear();
        self.at_line_start = true;
        true
    }
}

/// The buffer never exceeds the word limit, whatever the event.
pub proof fn lemma_buffer_stays_bounded(
    s: SessionView,
    event: InputEvent,
    language: Option<Seq<char>>,
    d: DetectorView,
)
    requires
        session_wf(s),
    ensures
        session_wf(handle_spec(s, event, language, d).0),
        handle_spec(s, event, language, d).0.max == s.max,
{
}

/// Injected input changes nothing.
pub proof fn lemma_injected_is_ignored(s: SessionView, language: Option<Seq<char>>, d: DetectorView)
    ensures
        handle_spec(s, InputEvent::Injected, language, d) == (s, ActionView::NoAction),
{
}

/// Only a boundary produces a candidate.
pub proof fn lemma_candidate_only_at_boundary(
    s: SessionView,
    event: InputEvent,
    language: Option<Seq<char>>,
    d: DetectorView,
)
    requires
        handle_spec(s, event, language, d).1 is Candidate,
    ensures
        event is Boundary,
{
}

/// After a boundary the buffer is empty and nothing is suppressed; a
/// suppressed word produces no candidate.
pub proof fn lemma_boundary_starts_fresh(s: SessionView, language: Option<Seq<char>>, d: DetectorView)
    ensures
        handle_spec(s, InputEvent::Boundary, language, d).0.word.len() == 0,
        !handle_spec(s, InputEvent::Boundary, language, d).0.suppressed,
        s.suppressed ==> handle_spec(s, InputEvent::Boundary, language, d).1 is NoAction,
{
}

/// A focus change or a mouse click starts a fresh context without blocking
/// the next word.
pub proof fn lemma_focus_and_mouse_do_not_suppress(
    s: SessionView,
    event: InputEvent,
    language: Option<Seq<char>>,
    d: DetectorView,
)
    requires
        event is FocusChanged || event is Mouse,
    ensures
        handle_spec(s, event, language, d).0.word.len() == 0,
        !handle_spec(s, event, language, d).0.suppressed,
{
}

/// Edits, navigation, layout changes, shortcuts, unsupported input and
/// queue overflow drop the word and suppress until the next boundary.
pub proof fn lemma_uncertainty_suppresses(
    s: SessionView,
    event: InputEvent,
    language: Option<Seq<char>>,
    d: DetectorView,
)
    requires
        event is Delete || event is Navigation || event is LayoutChanged || event is Shortcut
            || event is UnsupportedInput || event is QueueOverflow,
    ensures
        handle_spec(s, event, language, d).0.word.len() == 0,
        handle_spec(s, event, language, d).0.suppressed,
        handle_spec(s, event, language, d).1 is Reset,
{
}

/// While suppressed, typing neither grows the buffer nor lifts the
/// suppression.
pub proof fn lemma_suppressed_typing_is_held(s: SessionView, c: char, language: Option<Seq<char>>, d: DetectorView)
    requires
        s.suppressed,
    ensures
        handle_spec(s, InputEvent::Printable(c), language, d).0.word == s.word,
        handle_spec(s, InputEvent::Printable(c), language, d).0.suppressed,
        handle_spec(s, InputEvent::Printable(c), language, d).1 is NoAction,
{
}

/// A Backspace that erases a word of several characters keeps the rest
/// suppressed; erasing its only character starts a fresh word.
pub proof fn lemma_backspace_partial_and_full(s: SessionView, language: Option<Seq<char>>, d: DetectorView)
    requires
        !s.suppressed,
        s.word.len() > 0,
    ensures
        s.word.len() > 1 ==> handle_spec(s, InputEvent::Backspace, language, d).0.suppressed,
        s.word.len() == 1 ==> !handle_spec(s, InputEvent::Backspace, language, d).0.suppressed
            && handle_spec(s, InputEvent::Backspace, language, d).0.word.len() == 0,
{
}

} // verus!
