//! The right/wrong flash shown just after an answer. Display state only: the score itself is
//! kept by the ScoreTracker; the counts here feed the HUD.

use vstd::prelude::*;

verus! {

/// How long the latest verdict stays on screen, in milliseconds.
pub const FEEDBACK_HOLD_MS: u64 = 900;

#[derive(Clone, Copy, Debug, PartialEq, Eq, Structural)]
pub enum Verdict {
    Correct,
    Incorrect,
}

/// A verdict on screen, with an optional remark (the answer of the last question, for example).
#[derive(Clone, Debug, PartialEq, Eq)]
pub struct Flash {
    pub verdict: Verdict,
    /// Shown beside the verdict; nothing is shown when it is empty.
    pub detail: String,
}

/// What the feedback holds: the verdict on screen with its remark and how long it has been
/// shown, the number of right answers and the current run of right answers.
pub struct FeedbackView {
    pub shown: Option<(Verdict, Seq<char>)>,
    pub shown_for_ms: nat,
    pub correct: nat,
    pub streak: nat,
}

/// The feedback after an answer: its verdict and remark shown from the start, the right
/// answers and the run of right answers counted (a wrong answer ends the run).
pub open spec fn recorded(s: FeedbackView, is_correct: bool, detail: Seq<char>) -> FeedbackView {
    FeedbackView {
        shown: Some((if is_correct { Verdict::Correct } else { Verdict::Incorrect }, detail)),
        shown_for_ms: 0,
        correct: if is_correct { s.correct + 1 } else { s.correct },
        streak: if is_correct { s.streak + 1 } else { 0 },
    }
}

/// The feedback `dt` milliseconds later: a verdict goes away once it has been shown for
/// FEEDBACK_HOLD_MS; the counts stay.
pub open spec fn aged(s: FeedbackView, dt: u64) -> FeedbackView {
    if s.shown is None || s.shown_for_ms + dt >= FEEDBACK_HOLD_MS {
        FeedbackView { shown: None, shown_for_ms: 0, ..s }
    } else {
        FeedbackView { shown_for_ms: (s.shown_for_ms + dt) as nat, ..s }
    }
}

#[derive(Debug)]
pub struct AnswerFeedback {
    last: Option<(Flash, u64)>,
    correct: u32,
    streak: u32,
}

impl View for AnswerFeedback {
    type V = FeedbackView;

    closed spec fn view(&self) -> FeedbackView {
        FeedbackView {
            shown: match self.last {
                Some((flash, _)) => Some((flash.verdict, flash.detail@)),
                None => None,
            },
            shown_for_ms: match self.last {
                Some((_, elapsed)) => elapsed as nat,
                None => 0,
            },
            correct: self.correct as nat,
            streak: self.streak as nat,
        }
    }
}

impl AnswerFeedback {
    /// Nothing on screen, no answers counted.
    pub fn new() -> (r: AnswerFeedback)
        ensures
            r@.shown is None,
            r@.shown_for_ms == 0,
            r@.correct == 0,
            r@.streak == 0,
    {
        AnswerFeedback { last: None, correct: 0, streak: 0 }
    }

    /// Takes in one answer and shows its verdict from the start of the display time.
    pub fn record(&mut self, is_correct: bool, detail: String)
        requires
            old(self)@.correct < u32::MAX,
            old(self)@.streak < u32::MAX,
        ensures
            final(self)@ == recorded(old(self)@, is_correct, detail@),
    {
        let verdict = if is_correct {
            self.correct = self.correct + 1;
            self.streak = self.streak + 1;
            Verdict::Correct
        } else {
            self.streak = 0;
            Verdict::Incorrect
        };
        self.last = Some((Flash { verdict, detail }, 0));
    }

    /// Lets `dt_ms` pass; a verdict shown for FEEDBACK_HOLD_MS or longer goes away.
    pub fn tick(&mut self, dt_ms: u64)
        ensures
            final(self)@ == aged(old(self)@, dt_ms),
    {
        match self.last.take() {
            Some((flash, elapsed)) => {
                let elapsed = elapsed.saturating_add(dt_ms);
                if elapsed < FEEDBACK_HOLD_MS {
                    self.last = Some((flash, elapsed));
                }
            },
            None => {},
        }
    }

    /// The verdict to show now, if one is within its display time.
    pub fn current(&self) -> (r: Option<&Flash>)
        ensures
            match r {
                Some(flash) => self@.shown == Some((flash.verdict, flash.detail@)),
                None => self@.shown is None,
            },
    {
        match &self.last {
            Some((flash, _)) => Some(flash),
            None => None,
        }
    }

    pub fn correct(&self) -> (r: u32)
        ensures
            r == self@.correct,
    {
        self.correct
    }

    pub fn streak(&self) -> (r: u32)
        ensures
            r == self@.streak,
    {
        self.streak
    }
}

} // verus!
