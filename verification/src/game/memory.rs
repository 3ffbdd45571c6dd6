//! Oikake, the sequence memory game: four coloured panels light up one after another, and the
//! player repeats the order with the keys 1-4 or by clicking. Ten questions; the sequences grow
//! from three to five to seven steps as the session goes on.
//!
//! The time from the end of a sequence to the last key is measured by the caller (a wall clock
//! outside this crate) and handed in with each key.

use crate::game::feedback::{aged, recorded, AnswerFeedback, FeedbackView};
use crate::game::{contains, Difficulty, ScoreTracker, ScoreView, QUESTIONS_PER_SESSION};
use crate::random::{gen_range_inclusive};
use crate::rect::Rect;
use crate::sat_add;
use crate::text::{decimal, decimal_string};
use rand::rngs::StdRng;
use vstd::prelude::*;

verus! {

pub const GAME_ID: &'static str = "memory";

/// The difficulty that results are filed under (the longest sequences are advanced).
pub const SESSION_DIFFICULTY: Difficulty = Difficulty::Advanced;

/// How long one panel stays lit while the sequence is shown, in milliseconds.
pub const SHOW_ON_DURATION_MS: u64 = 400;

/// How long all panels stay dark before the next one lights, in milliseconds (so that the same
/// panel twice in a row shows as two flashes).
pub const SHOW_OFF_DURATION_MS: u64 = 200;

/// How long the verdict is shown after an answer, in milliseconds.
pub const RESULT_INTERVAL_MS: u64 = 1200;

/// How long the board stays empty after the verdict, before the next sequence, in milliseconds.
pub const BLANK_INTERVAL_MS: u64 = 1000;

/// Steps in the sequence of question `question_index` (0-based): three for the first three
/// questions, five for the next four, seven after that.
pub open spec fn sequence_len_spec(question_index: int) -> int {
    if question_index <= 2 { 3 } else if question_index <= 6 { 5 } else { 7 }
}

/// Steps in the sequence of question `question_index` (0-based): 3, 3, 3, 5, 5, 5, 5, 7, ...
pub fn sequence_len_for_question(question_index: u32) -> (r: usize)
    ensures
        r == sequence_len_spec(question_index as int),
{
    if question_index <= 2 {
        3
    } else if question_index <= 6 {
        5
    } else {
        7
    }
}

/// A sequence for question `question_index`: the question's number of steps, each a random panel
/// 1..=4.
pub open spec fn sequence_ok(seq: Seq<usize>, question_index: int) -> bool {
    &&& seq.len() == sequence_len_spec(question_index)
    &&& forall|i: int| 0 <= i < seq.len() ==> 1 <= #[trigger] seq[i] <= 4
}

/// A random sequence of panels 1..=4 for question `question_index` (0-based).
pub fn generate_sequence(rng: &mut StdRng, question_index: u32) -> (r: Vec<usize>)
    ensures
        sequence_ok(r@, question_index as int),
{
    let len = sequence_len_for_question(question_index);
    let mut seq: Vec<usize> = Vec::new();
    while seq.len() < len
        invariant
            len == sequence_len_spec(question_index as int),
            seq@.len() <= len,
            forall|i: int| 0 <= i < seq@.len() ==> 1 <= #[trigger] seq@[i] <= 4,
        decreases len - seq@.len(),
    {
        let panel = gen_range_inclusive(rng, 1, 4) as usize;
        seq.push(panel);
    }
    seq
}

/// While a sequence is shown: a panel is lit, or all are dark between two panels.
#[derive(Clone, Copy, Debug, PartialEq, Eq, Structural)]
pub enum ShowSubPhase {
    On,
    Off,
}

/// The stage of a question.
#[derive(Clone, Copy, Debug, PartialEq, Eq, Structural)]
pub enum Phase {
    /// The sequence is shown; `shown` panels are done.
    Showing { shown: usize, sub_phase: ShowSubPhase, elapsed_in_step_ms: u64 },
    /// The player repeats the sequence; `entered` steps are in.
    Input { entered: usize },
    /// The verdict is shown.
    Interval { is_correct: bool, elapsed_ms: u64 },
    /// The board stays empty before the next sequence.
    Blank { elapsed_ms: u64 },
}

/// The footer's status line for a sequence of `len` steps: the step being shown of all of them,
/// the steps left to enter (the drawing side puts its progress bar after it), the verdict with
/// "つぎいくよ…", and nothing while the board is blank.
pub open spec fn status_spec(phase: Phase, len: nat) -> Seq<char> {
    match phase {
        Phase::Showing { shown, .. } => {
            let step: nat = if shown + 1 <= len { (shown + 1) as nat } else { len };
            "提示中… 順番を覚えてください  ("@ + decimal(step) + "/"@ + decimal(len) + ")"@
        },
        Phase::Input { entered } => {
            let left: nat = if entered <= len { (len - entered) as nat } else { 0 };
            "入力中: 数字キー1〜4で再現  残り"@ + decimal(left) + "手"@
        },
        Phase::Interval { is_correct, .. } => if is_correct {
            "せいかい！   つぎいくよ…"@
        } else {
            "ざんねん…   つぎいくよ…"@
        },
        Phase::Blank { .. } => Seq::empty(),
    }
}

/// What a session holds.
pub struct MemoryView {
    pub score: ScoreView,
    pub sequence: Seq<usize>,
    pub phase: Phase,
    pub active_panel: Option<usize>,
    pub feedback: FeedbackView,
}

impl MemoryView {
    /// All ten questions are answered.
    pub open spec fn finished(self) -> bool {
        self.score.total >= self.score.session_length
    }

    /// The session's invariant: ten questions at most; the sequence in hand belongs to the next
    /// question (or to the last one, once the session is over); the stage's counters stay inside
    /// the sequence, and while the sequence is shown the lit panel is its current step.
    pub open spec fn valid(self) -> bool {
        &&& self.score.session_length == QUESTIONS_PER_SESSION
        &&& self.score.total <= QUESTIONS_PER_SESSION
        &&& self.feedback.correct <= self.score.total
        &&& self.feedback.streak <= self.score.total
        &&& forall|i: int| 0 <= i < self.sequence.len() ==> 1 <= #[trigger] self.sequence[i] <= 4
        &&& self.sequence.len() >= 1
        &&& match self.phase {
            Phase::Showing { shown, sub_phase, .. } => {
                &&& !self.finished()
                &&& sequence_ok(self.sequence, self.score.total as int)
                &&& shown < self.sequence.len()
                &&& sub_phase == ShowSubPhase::On ==> self.active_panel == Some(self.sequence[shown as int])
                &&& sub_phase == ShowSubPhase::Off ==> self.active_panel is None
            },
            Phase::Input { entered } => {
                &&& entered <= self.sequence.len()
                &&& !self.finished() ==> (entered < self.sequence.len() && sequence_ok(self.sequence, self.score.total as int))
            },
            Phase::Interval { .. } => !self.finished() && self.score.total >= 1
                && sequence_ok(self.sequence, self.score.total - 1),
            Phase::Blank { .. } => !self.finished() && self.score.total >= 1
                && sequence_ok(self.sequence, self.score.total - 1),
        }
    }

    /// `next` is this state after the answer (`is_correct`, `latency_ms`) closed the question:
    /// recorded, a blank remark shown, no panel lit, and the verdict shown unless that was the
    /// last question (the stage then stays as it was).
    pub open spec fn answered(self, next: MemoryView, is_correct: bool, latency_ms: u64) -> bool {
        &&& next.score == self.score.after(is_correct, latency_ms)
        &&& next.feedback == recorded(self.feedback, is_correct, Seq::empty())
        &&& next.active_panel is None
        &&& next.sequence == self.sequence
        &&& next.phase == (if next.score.total < next.score.session_length {
            Phase::Interval { is_correct, elapsed_ms: 0 }
        } else {
            self.phase
        })
    }

    /// `next` is this state after panel `pressed` was pressed with `latency_ms` since the input
    /// began: outside the input stage nothing changes; otherwise the panel lights, a wrong panel
    /// closes the question as wrong, and the last right panel closes it as right.
    pub open spec fn pressed(self, next: MemoryView, pressed: usize, latency_ms: u64) -> bool {
        match self.phase {
            Phase::Input { entered } => {
                let lit = MemoryView { active_panel: Some(pressed), ..self };
                if pressed != self.sequence[entered as int] {
                    lit.answered(next, false, latency_ms)
                } else if entered + 1 >= self.sequence.len() {
                    MemoryView { phase: Phase::Input { entered: (entered + 1) as usize }, ..lit }.answered(next, true, latency_ms)
                } else {
                    next == MemoryView { phase: Phase::Input { entered: (entered + 1) as usize }, ..lit }
                }
            },
            _ => next == self,
        }
    }

    /// `next` is this state `dt` ms later. A finished session does not change. Otherwise the
    /// remark ages and the stage runs: a lit panel goes dark after SHOW_ON_DURATION_MS; after
    /// SHOW_OFF_DURATION_MS of darkness the next step lights, or the input begins after the last
    /// step; the verdict gives way to the blank board after RESULT_INTERVAL_MS, and the blank
    /// board to a new sequence for the next question after BLANK_INTERVAL_MS.
    pub open spec fn updated(self, next: MemoryView, dt: u64) -> bool {
        if self.finished() {
            next == self
        } else {
            &&& next.feedback == aged(self.feedback, dt)
            &&& next.score == self.score
            &&& match self.phase {
                Phase::Showing { shown, sub_phase, elapsed_in_step_ms } => {
                    let e = sat_add(elapsed_in_step_ms, dt);
                    &&& next.sequence == self.sequence
                    &&& match sub_phase {
                        ShowSubPhase::On => if e >= SHOW_ON_DURATION_MS {
                            next.phase == (Phase::Showing { shown, sub_phase: ShowSubPhase::Off, elapsed_in_step_ms: 0 })
                                && next.active_panel is None
                        } else {
                            next.phase == (Phase::Showing { shown, sub_phase, elapsed_in_step_ms: e })
                                && next.active_panel == self.active_panel
                        },
                        ShowSubPhase::Off => if e >= SHOW_OFF_DURATION_MS {
                            if shown + 1 >= self.sequence.len() {
                                next.phase == (Phase::Input { entered: 0 }) && next.active_panel is None
                            } else {
                                next.phase == (Phase::Showing { shown: (shown + 1) as usize, sub_phase: ShowSubPhase::On, elapsed_in_step_ms: 0 })
                                    && next.active_panel == Some(self.sequence[shown + 1])
                            }
                        } else {
                            next.phase == (Phase::Showing { shown, sub_phase, elapsed_in_step_ms: e })
                                && next.active_panel == self.active_panel
                        },
                    }
                },
                Phase::Interval { is_correct, elapsed_ms } => {
                    let e = sat_add(elapsed_ms, dt);
                    &&& next.sequence == self.sequence
                    &&& next.active_panel == self.active_panel
                    &&& next.phase == (if e >= RESULT_INTERVAL_MS { Phase::Blank { elapsed_ms: 0 } } else {
                        Phase::Interval { is_correct, elapsed_ms: e }
                    })
                },
                Phase::Blank { elapsed_ms } => {
                    let e = sat_add(elapsed_ms, dt);
                    if e >= BLANK_INTERVAL_MS {
                        &&& sequence_ok(next.sequence, self.score.total as int)
                        &&& next.active_panel == Some(next.sequence[0])
                        &&& next.phase == (Phase::Showing { shown: 0, sub_phase: ShowSubPhase::On, elapsed_in_step_ms: 0 })
                    } else {
                        &&& next.sequence == self.sequence
                        &&& next.active_panel == self.active_panel
                        &&& next.phase == (Phase::Blank { elapsed_ms: e })
                    }
                },
                Phase::Input { .. } => next.sequence == self.sequence && next.active_panel == self.active_panel
                    && next.phase == self.phase,
            }
        }
    }
}

/// One session of Oikake.
pub struct MemoryGame {
    tracker: ScoreTracker,
    sequence: Vec<usize>,
    phase: Phase,
    active_panel: Option<usize>,
    feedback: AnswerFeedback,
    rng: StdRng,
}

impl View for MemoryGame {
    type V = MemoryView;

    closed spec fn view(&self) -> MemoryView {
        MemoryView {
            score: self.tracker@,
            sequence: self.sequence@,
            phase: self.phase,
            active_panel: self.active_panel,
            feedback: self.feedback@,
        }
    }
}

impl MemoryGame {
    pub closed spec fn wf(&self) -> bool {
        self.tracker.wf() && self@.valid()
    }

    /// The session's invariant holds of a well-formed game.
    pub proof fn lemma_valid(&self)
        requires
            self.wf(),
        ensures
            self@.valid(),
    {
    }


    /// A new session drawing its sequences from `rng`: question one's sequence, its first panel lit.
    pub fn with_rng(rng: StdRng) -> (r: MemoryGame)
        ensures
            r.wf(),
            r@.score.total == 0,
            r@.score.correct == 0,
            sequence_ok(r@.sequence, 0),
            r@.phase == (Phase::Showing { shown: 0, sub_phase: ShowSubPhase::On, elapsed_in_step_ms: 0 }),
            r@.active_panel == Some(r@.sequence[0]),
            r@.feedback.shown is None,
    {
        let mut rng = rng;
        let sequence = generate_sequence(&mut rng, 0);
        let active_panel = Some(sequence[0]);
        MemoryGame {
            tracker: ScoreTracker::new(),
            sequence,
            phase: Phase::Showing { shown: 0, sub_phase: ShowSubPhase::On, elapsed_in_step_ms: 0 },
            active_panel,
            feedback: AnswerFeedback::new(),
            rng,
        }
    }

    pub fn tracker(&self) -> (r: &ScoreTracker)
        ensures
            r@ == self@.score,
    {
        &self.tracker
    }

    pub fn feedback(&self) -> (r: &AnswerFeedback)
        ensures
            r@ == self@.feedback,
    {
        &self.feedback
    }

    pub fn sequence(&self) -> (r: &Vec<usize>)
        ensures
            r@ == self@.sequence,
    {
        &self.sequence
    }

    pub fn phase(&self) -> (r: Phase)
        ensures
            r == self@.phase,
    {
        self.phase
    }

    /// The panel lit now (shown step or last pressed panel).
    pub fn active_panel(&self) -> (r: Option<usize>)
        ensures
            r == self@.active_panel,
    {
        self.active_panel
    }

    /// The footer's status line; see `status_spec`.
    pub fn status_text(&self) -> (r: String)
        requires
            self.wf(),
        ensures
            r@ == status_spec(self@.phase, self@.sequence.len()),
    {
        let len = self.sequence.len();
        match self.phase {
            Phase::Showing { shown, .. } => {
                let step = if shown < len { shown + 1 } else { len };
                let mut s = String::from_str("提示中… 順番を覚えてください  (");
                let step_text = decimal_string(step as u64);
                s.append(step_text.as_str());
                s.append("/");
                let len_text = decimal_string(len as u64);
                s.append(len_text.as_str());
                s.append(")");
                s
            },
            Phase::Input { entered } => {
                let left = if entered <= len { len - entered } else { 0 };
                let mut s = String::from_str("入力中: 数字キー1〜4で再現  残り");
                let left_text = decimal_string(left as u64);
                s.append(left_text.as_str());
                s.append("手");
                s
            },
            Phase::Interval { is_correct, .. } => {
                if is_correct {
                    String::from_str("せいかい！   つぎいくよ…")
                } else {
                    String::from_str("ざんねん…   つぎいくよ…")
                }
            },
            Phase::Blank { .. } => String::new(),
        }
    }

    /// All ten questions are answered.
    pub fn is_finished(&self) -> (r: bool)
        ensures
            r == self@.finished(),
    {
        self.tracker.is_session_finished()
    }

    /// Deals the sequence of the next question and starts showing it.
    fn next_sequence(&mut self)
        requires
            old(self).wf(),
            old(self)@.phase is Blank,
        ensures
            final(self).wf(),
            sequence_ok(final(self)@.sequence, old(self)@.score.total as int),
            final(self)@.active_panel == Some(final(self)@.sequence[0]),
            final(self)@.phase == (Phase::Showing { shown: 0, sub_phase: ShowSubPhase::On, elapsed_in_step_ms: 0 }),
            final(self)@.score == old(self)@.score,
            final(self)@.feedback == old(self)@.feedback,
    {
        let total = self.tracker.total();
        self.sequence = generate_sequence(&mut self.rng, total);
        self.active_panel = Some(self.sequence[0]);
        self.phase = Phase::Showing { shown: 0, sub_phase: ShowSubPhase::On, elapsed_in_step_ms: 0 };
    }

    /// Closes the question with the verdict `is_correct`, answered `latency_ms` after the input
    /// began.
    fn finish_question(&mut self, is_correct: bool, latency_ms: u64)
        requires
            old(self).tracker.wf(),
            old(self)@.score.total < QUESTIONS_PER_SESSION,
            old(self)@.score.session_length == QUESTIONS_PER_SESSION,
            old(self)@.feedback.correct <= old(self)@.score.total,
            old(self)@.feedback.streak <= old(self)@.score.total,
        ensures
            final(self).tracker.wf(),
            old(self)@.answered(final(self)@, is_correct, latency_ms),
    {
        self.tracker.record(is_correct, latency_ms);
        self.feedback.record(is_correct, String::new());
        self.active_panel = None;
        if !self.tracker.is_session_finished() {
            self.phase = Phase::Interval { is_correct, elapsed_ms: 0 };
        }
    }

    /// Panel `pressed` was pressed during the input, `latency_ms` after it began.
    fn press_panel(&mut self, pressed: usize, latency_ms: u64)
        requires
            old(self).wf(),
            !old(self)@.finished(),
        ensures
            final(self).wf(),
            old(self)@.pressed(final(self)@, pressed, latency_ms),
    {
        match self.phase {
            Phase::Input { entered } => {
                self.active_panel = Some(pressed);
                let expected = self.sequence[entered];
                if pressed != expected {
                    self.finish_question(false, latency_ms);
                    return;
                }
                self.phase = Phase::Input { entered: entered + 1 };
                if entered + 1 >= self.sequence.len() {
                    self.finish_question(true, latency_ms);
                }
            },
            _ => {},
        }
    }

    /// A key during the session: '1' to '4' press that panel (see `MemoryView::pressed`); other
    /// keys, and every key once the session is over, do nothing.
    pub fn handle_key(&mut self, key: char, latency_ms: u64)
        requires
            old(self).wf(),
        ensures
            final(self).wf(),
            (old(self)@.finished() || !('1' <= key <= '4')) ==> final(self)@ == old(self)@,
            (!old(self)@.finished() && '1' <= key <= '4') ==> old(self)@.pressed(final(self)@, (key as u32 - '0' as u32) as usize, latency_ms),
    {
        if self.is_finished() {
            return;
        }
        if key >= '1' && key <= '4' {
            let pressed = (key as u32 - '0' as u32) as usize;
            self.press_panel(pressed, latency_ms);
        }
    }

    /// A left click on (column, row), with `panels` the area of each panel (number, area) as
    /// drawn. During the input, the first panel whose area holds the click is pressed (see
    /// `MemoryView::pressed`); otherwise, or when no panel holds it, nothing changes.
    pub fn handle_click(&mut self, panels: &Vec<(usize, Rect)>, column: u16, row: u16, latency_ms: u64)
        requires
            old(self).wf(),
            forall|i: int| 0 <= i < panels@.len() ==> (#[trigger] panels@[i]).1.wf(),
        ensures
            final(self).wf(),
            (old(self)@.finished() || !(old(self)@.phase is Input)
                || forall|i: int| 0 <= i < panels@.len() ==> !(#[trigger] panels@[i]).1.has_cell(column as int, row as int))
                ==> final(self)@ == old(self)@,
            (!old(self)@.finished() && old(self)@.phase is Input) ==> forall|i: int| 0 <= i < panels@.len()
                && (#[trigger] panels@[i]).1.has_cell(column as int, row as int)
                && (forall|j: int| 0 <= j < i ==> !panels@[j].1.has_cell(column as int, row as int))
                ==> old(self)@.pressed(final(self)@, panels@[i].0, latency_ms),
    {
        if self.is_finished() {
            return;
        }
        match self.phase {
            Phase::Input { .. } => {},
            _ => {
                return;
            },
        }
        let ghost before = self@;
        let mut i: usize = 0;
        while i < panels.len()
            invariant
                self.wf(),
                self@ == before,
                before == old(self)@,
                !before.finished(),
                before.phase is Input,
                i <= panels@.len(),
                forall|k: int| 0 <= k < panels@.len() ==> (#[trigger] panels@[k]).1.wf(),
                forall|j: int| 0 <= j < i ==> !(#[trigger] panels@[j]).1.has_cell(column as int, row as int),
            decreases panels@.len() - i,
        {
            let (panel, area) = panels[i];
            if contains(area, column, row) {
                self.press_panel(panel, latency_ms);
                return;
            }
            i = i + 1;
        }
    }

    /// Lets `dt_ms` pass; see `MemoryView::updated`.
    pub fn update(&mut self, dt_ms: u64)
        requires
            old(self).wf(),
        ensures
            final(self).wf(),
            old(self)@.updated(final(self)@, dt_ms),
    {
        if self.is_finished() {
            return;
        }
        self.feedback.tick(dt_ms);
        match self.phase {
            Phase::Showing { shown, sub_phase, elapsed_in_step_ms } => {
                let elapsed = elapsed_in_step_ms.saturating_add(dt_ms);
                match sub_phase {
                    ShowSubPhase::On => {
                        if elapsed >= SHOW_ON_DURATION_MS {
                            self.phase = Phase::Showing { shown, sub_phase: ShowSubPhase::Off, elapsed_in_step_ms: 0 };
                            self.active_panel = None;
                        } else {
                            self.phase = Phase::Showing { shown, sub_phase, elapsed_in_step_ms: elapsed };
                        }
                    },
                    ShowSubPhase::Off => {
                        if elapsed >= SHOW_OFF_DURATION_MS {
                            let shown = shown + 1;
                            if shown >= self.sequence.len() {
                                self.active_panel = None;
                                self.phase = Phase::Input { entered: 0 };
                            } else {
                                self.active_panel = Some(self.sequence[shown]);
                                self.phase = Phase::Showing { shown, sub_phase: ShowSubPhase::On, elapsed_in_step_ms: 0 };
                            }
                        } else {
                            self.phase = Phase::Showing { shown, sub_phase, elapsed_in_step_ms: elapsed };
                        }
                    },
                }
            },
            Phase::Interval { is_correct, elapsed_ms } => {
                let elapsed = elapsed_ms.saturating_add(dt_ms);
                if elapsed >= RESULT_INTERVAL_MS {
                    self.phase = Phase::Blank { elapsed_ms: 0 };
                } else {
                    self.phase = Phase::Interval { is_correct, elapsed_ms: elapsed };
                }
            },
            Phase::Blank { elapsed_ms } => {
                let elapsed = elapsed_ms.saturating_add(dt_ms);
                if elapsed >= BLANK_INTERVAL_MS {
                    self.next_sequence();
                } else {
                    self.phase = Phase::Blank { elapsed_ms: elapsed };
                }
            },
            Phase::Input { .. } => {},
        }
    }
}

/// Each session deals question `k` a sequence of `sequence_len_spec(k)` steps whatever came
/// before: a new sequence is always for the question after the answers recorded.
pub proof fn lemma_sequence_follows_question(g: MemoryView, next: MemoryView, dt: u64)
    requires
        g.valid(),
        g.updated(next, dt),
        g.phase is Blank,
        next.phase is Showing,
    ensures
        next.sequence.len() == sequence_len_spec(g.score.total as int),
{
}

} // verus!
