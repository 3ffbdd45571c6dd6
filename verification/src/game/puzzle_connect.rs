//! Puzzle connect: a model shows two pieces joined (piece A, and piece B turned and set against
//! A's right edge); the player picks, among four candidate second pieces turned the same way,
//! the one of the model, with the keys 1-4 or by clicking. Ten questions of one difficulty.
//!
//! Pieces are named by their index in the drawing side's list of BASE_SHAPE_COUNT shapes and
//! turned by whole degrees; their geometry is drawn with floating point outside this crate.
//! The time taken on each question is measured by the caller and handed in with the answer.

use crate::game::feedback::{aged, recorded, AnswerFeedback, FeedbackView};
use crate::game::pattern_fill::draw_distinct;
use crate::game::{band_index, column_index, contains, Difficulty, ScoreTracker, ScoreView, BASE_SHAPE_COUNT, QUESTIONS_PER_SESSION};
use crate::game::choices::{arrange, arranged, draw_order, first_position, is_order, lemma_arranged};
use crate::random::{all_distinct, gen_range_inclusive, random_index};
use crate::rect::Rect;
use rand::rngs::StdRng;
use vstd::prelude::*;

verus! {

pub const GAME_ID: &'static str = "puzzle_connect";

/// Candidate pieces offered per question.
pub const CHOICE_COUNT: usize = 4;

/// The names of the base shapes, in index order (used in the remark after an answer).
pub const SHAPE_NAMES: [&'static str; 8] = ["三角形", "矢印", "L字", "T字", "稲妻", "旗", "階段", "フック"];

/// The angles a difficulty turns pieces by, in degrees: none for beginners, a multiple of 45
/// for intermediates, any whole degree for advanced players.
pub open spec fn angle_allowed(d: Difficulty, deg: int) -> bool {
    match d {
        Difficulty::Beginner => deg == 0,
        Difficulty::Intermediate => 0 <= deg < 360 && deg % 45 == 0,
        Difficulty::Advanced => 0 <= deg < 360,
    }
}

/// A random angle, in degrees, for difficulty `difficulty` (see `angle_allowed`); beginners draw
/// nothing.
pub fn rotation_angle_deg(rng: &mut StdRng, difficulty: Difficulty) -> (r: u32)
    ensures
        angle_allowed(difficulty, r as int),
        difficulty is Beginner ==> *final(rng) == *old(rng),
{
    match difficulty {
        Difficulty::Beginner => 0,
        Difficulty::Intermediate => {
            let step = gen_range_inclusive(rng, 0, 7) as u32;
            step * 45
        },
        Difficulty::Advanced => gen_range_inclusive(rng, 0, 359) as u32,
    }
}

/// One question: pieces A and B with their angles, four different candidate shapes for piece B
/// (all turned by B's angle when drawn) and where the real piece B is among them.
#[derive(Clone, Copy, Debug)]
pub struct Question {
    pub piece_a: usize,
    pub piece_b: usize,
    pub angle_a_deg: u32,
    pub angle_b_deg: u32,
    pub choices: [usize; 4],
    pub correct_choice_position: usize,
}

impl Question {
    /// A question of difficulty `d`: pieces and candidates are base shapes, both angles are
    /// allowed, the candidates are different and hold piece B at the right position.
    pub open spec fn valid_for(self, d: Difficulty) -> bool {
        &&& self.piece_a < BASE_SHAPE_COUNT
        &&& self.piece_b < BASE_SHAPE_COUNT
        &&& angle_allowed(d, self.angle_a_deg as int)
        &&& angle_allowed(d, self.angle_b_deg as int)
        &&& all_distinct(self.choices@)
        &&& forall|k: int| 0 <= k < 4 ==> #[trigger] self.choices@[k] < BASE_SHAPE_COUNT
        &&& self.correct_choice_position < CHOICE_COUNT
        &&& self.choices@[self.correct_choice_position as int] == self.piece_b
    }
}

/// The values drawn for one question: pieces A and B, their angles, the three other candidate
/// shapes, and the order in which the four candidates (piece B first) are shown.
#[derive(Clone, Copy, Debug)]
pub struct PuzzleDraws {
    pub piece_a: usize,
    pub piece_b: usize,
    pub angle_a_deg: u32,
    pub angle_b_deg: u32,
    pub others: [usize; 3],
    pub order: [usize; 4],
}

/// Values that a question of difficulty `d` can draw: base shapes, allowed angles, three
/// different other shapes that are not piece B, and an order of the four candidates.
pub open spec fn draws_ok(d: Difficulty, dr: PuzzleDraws) -> bool {
    &&& dr.piece_a < BASE_SHAPE_COUNT
    &&& dr.piece_b < BASE_SHAPE_COUNT
    &&& angle_allowed(d, dr.angle_a_deg as int)
    &&& angle_allowed(d, dr.angle_b_deg as int)
    &&& all_distinct(dr.others@)
    &&& forall|k: int| 0 <= k < 3 ==> #[trigger] dr.others@[k] < BASE_SHAPE_COUNT && dr.others@[k] != dr.piece_b
    &&& is_order(dr.order@)
}

/// The candidates before they are ordered: piece B, then the other shapes.
pub open spec fn listed_candidates(dr: PuzzleDraws) -> Seq<usize> {
    seq![dr.piece_b, dr.others@[0], dr.others@[1], dr.others@[2]]
}

/// `q` is the question built from the values `dr`: its pieces and angles, and the candidates
/// in the drawn order, with the position that piece B took.
pub open spec fn built_from(q: Question, dr: PuzzleDraws) -> bool {
    &&& q.piece_a == dr.piece_a
    &&& q.piece_b == dr.piece_b
    &&& q.angle_a_deg == dr.angle_a_deg
    &&& q.angle_b_deg == dr.angle_b_deg
    &&& q.choices@ == arranged(listed_candidates(dr), dr.order@)
    &&& q.correct_choice_position == first_position(dr.order@)
}

/// The question built from the drawn values `draws`; see `built_from`. It is valid for
/// `difficulty`.
pub fn build_question(difficulty: Difficulty, draws: PuzzleDraws) -> (r: Question)
    requires
        draws_ok(difficulty, draws),
    ensures
        built_from(r, draws),
        r.valid_for(difficulty),
{
    let listed = [draws.piece_b, draws.others[0], draws.others[1], draws.others[2]];
    let (choices, position) = arrange(listed, draws.order);
    proof {
        assert(listed@ =~= listed_candidates(draws));
        assert(all_distinct(listed@)) by {
            assert forall|i: int, j: int| 0 <= i < 4 && 0 <= j < 4 && i != j implies listed@[i] != listed@[j] by {
                if i > 0 && j > 0 {
                    assert(draws.others@[i - 1] != draws.others@[j - 1]);
                } else if i == 0 {
                    assert(draws.others@[j - 1] != draws.piece_b);
                } else {
                    assert(draws.others@[i - 1] != draws.piece_b);
                }
            }
        }
        lemma_arranged(listed@, draws.order@);
        assert forall|k: int| 0 <= k < 4 implies #[trigger] choices@[k] < BASE_SHAPE_COUNT by {
            assert(choices@.contains(choices@[k]));
            assert(listed@.contains(choices@[k]));
            let m = choose|m: int| 0 <= m < 4 && listed@[m] == choices@[k];
            if m > 0 {
                assert(draws.others@[m - 1] < BASE_SHAPE_COUNT);
            }
        }
    }
    Question {
        piece_a: draws.piece_a,
        piece_b: draws.piece_b,
        angle_a_deg: draws.angle_a_deg,
        angle_b_deg: draws.angle_b_deg,
        choices,
        correct_choice_position: position,
    }
}

/// A random question of difficulty `difficulty`: piece A, piece B, A's angle and B's angle are
/// drawn in turn, then three other shapes (each uniformly among those still free) and the order
/// of the four candidates; the question is built from them (see `build_question`).
pub fn generate_question(rng: &mut StdRng, difficulty: Difficulty) -> (r: Question)
    ensures
        exists|dr: PuzzleDraws| draws_ok(difficulty, dr) && #[trigger] built_from(r, dr),
        r.valid_for(difficulty),
{
    let piece_a = random_index(rng, BASE_SHAPE_COUNT);
    let piece_b = random_index(rng, BASE_SHAPE_COUNT);
    let angle_a_deg = rotation_angle_deg(rng, difficulty);
    let angle_b_deg = rotation_angle_deg(rng, difficulty);
    let first = vec![piece_b];
    let others = draw_distinct(rng, BASE_SHAPE_COUNT, &first, 3);
    let order = draw_order(rng);
    let draws = PuzzleDraws {
        piece_a,
        piece_b,
        angle_a_deg,
        angle_b_deg,
        others: [others[0], others[1], others[2]],
        order,
    };
    proof {
        assert(first@[0] == piece_b);
        assert(first@.contains(piece_b));
        assert(draws.others@ =~= others@);
    }
    let q = build_question(difficulty, draws);
    q
}

/// The remark after an answer: "こたえ: " and the name of the real piece B.
pub open spec fn answer_remark(q: Question) -> Seq<char> {
    "こたえ: "@ + SHAPE_NAMES[q.choices@[q.correct_choice_position as int] as int]@
}

/// What a session holds.
pub struct PuzzleConnectView {
    pub difficulty: Difficulty,
    pub score: ScoreView,
    pub current: Question,
    pub feedback: FeedbackView,
}

impl PuzzleConnectView {
    pub open spec fn finished(self) -> bool {
        self.score.total >= self.score.session_length
    }

    /// The session's invariant: ten questions at most, and the question in hand belongs to the
    /// session's difficulty.
    pub open spec fn valid(self) -> bool {
        &&& self.score.session_length == QUESTIONS_PER_SESSION
        &&& self.score.total <= QUESTIONS_PER_SESSION
        &&& self.feedback.correct <= self.score.total
        &&& self.feedback.streak <= self.score.total
        &&& self.current.valid_for(self.difficulty)
    }

    /// `next` is this state after candidate `position` was picked `latency_ms` after the question
    /// appeared: recorded (right when it is piece B's position), the real piece named in the
    /// remark, and unless the session is over a new question of the same difficulty, built from
/// values drawn for it (see `build_question`).
    pub open spec fn answered(self, next: PuzzleConnectView, position: int, latency_ms: u64) -> bool {
        let ok = position == self.current.correct_choice_position;
        &&& next.difficulty == self.difficulty
        &&& next.score == self.score.after(ok, latency_ms)
        &&& next.feedback == recorded(self.feedback, ok, answer_remark(self.current))
        &&& next.finished() ==> next.current == self.current
        &&& !next.finished() ==> exists|dr: PuzzleDraws| draws_ok(self.difficulty, dr) && #[trigger] built_from(next.current, dr)
    }
}

/// One session of puzzle connect.
pub struct PuzzleConnectGame {
    difficulty: Difficulty,
    tracker: ScoreTracker,
    current: Question,
    feedback: AnswerFeedback,
    rng: StdRng,
}

impl View for PuzzleConnectGame {
    type V = PuzzleConnectView;

    closed spec fn view(&self) -> PuzzleConnectView {
        PuzzleConnectView { difficulty: self.difficulty, score: self.tracker@, current: self.current, feedback: self.feedback@ }
    }
}

impl PuzzleConnectGame {
    pub closed spec fn wf(&self) -> bool {
        self.tracker.wf() && self@.valid()
    }

    /// The session's invariant holds of a well-formed game.
    pub proof fn lemma_valid(&self)
        requires
            self.wf(),
        ensures
            self@.valid(),
    {
    }


    /// A new session of `difficulty` drawing its questions from `rng`.
    pub fn with_rng(difficulty: Difficulty, rng: StdRng) -> (r: PuzzleConnectGame)
        ensures
            r.wf(),
            r@.difficulty == difficulty,
            r@.score.total == 0,
            r@.score.correct == 0,
            r@.feedback.shown is None,
    {
        let mut rng = rng;
        let current = generate_question(&mut rng, difficulty);
        PuzzleConnectGame { difficulty, tracker: ScoreTracker::new(), current, feedback: AnswerFeedback::new(), rng }
    }

    pub fn difficulty(&self) -> (r: Difficulty)
        ensures
            r == self@.difficulty,
    {
        self.difficulty
    }

    pub fn tracker(&self) -> (r: &ScoreTracker)
        ensures
            r@ == self@.score,
    {
        &self.tracker
    }

    pub fn feedback(&self) -> (r: &AnswerFeedback)
        ensures
            r@ == self@.feedback,
    {
        &self.feedback
    }

    pub fn current(&self) -> (r: &Question)
        ensures
            *r == self@.current,
    {
        &self.current
    }

    /// All ten questions are answered.
    pub fn is_finished(&self) -> (r: bool)
        ensures
            r == self@.finished(),
    {
        self.tracker.is_session_finished()
    }

    /// Records the pick of candidate `answered_position`, `latency_ms` after the question
    /// appeared, and moves on to a new question unless the session is over.
    fn advance_question(&mut self, answered_position: usize, latency_ms: u64)
        requires
            old(self).wf(),
            !old(self)@.finished(),
        ensures
            final(self).wf(),
            old(self)@.answered(final(self)@, answered_position as int, latency_ms),
    {
        let is_correct = answered_position == self.current.correct_choice_position;
        self.tracker.record(is_correct, latency_ms);
        let answer = SHAPE_NAMES[self.current.choices[self.current.correct_choice_position]];
        let mut detail = String::from_str("こたえ: ");
        detail.append(answer);
        proof {
            reveal_strlit("こたえ: ");
        }
        self.feedback.record(is_correct, detail);
        if !self.tracker.is_session_finished() {
            self.current = generate_question(&mut self.rng, self.difficulty);
            proof {
                let dr = choose|dr: PuzzleDraws| draws_ok(self.difficulty, dr) && #[trigger] built_from(self.current, dr);
                assert(built_from(self@.current, dr));
            }
        }
    }

    /// A key during the session: '1' to '4' pick that candidate (see
    /// `PuzzleConnectView::answered`); other keys, and every key once the session is over, do
    /// nothing.
    pub fn handle_key(&mut self, key: char, latency_ms: u64)
        requires
            old(self).wf(),
        ensures
            final(self).wf(),
            (old(self)@.finished() || !('1' <= key <= '4')) ==> final(self)@ == old(self)@,
            (!old(self)@.finished() && '1' <= key <= '4') ==> old(self)@.answered(final(self)@,
                key as int - '1' as int, latency_ms),
    {
        if self.is_finished() {
            return;
        }
        if key >= '1' && key <= '4' {
            let position = (key as u32 - '1' as u32) as usize;
            self.advance_question(position, latency_ms);
        }
    }

    /// A left click on (column, row), with `choices_area` the area of the four candidates as
    /// drawn: split into four equal columns (the remainder going to the last, see
    /// `column_index`), a click on one picks that candidate. A click outside, or once the
    /// session is over, does nothing.
    pub fn handle_click(&mut self, choices_area: Rect, column: u16, row: u16, latency_ms: u64)
        requires
            old(self).wf(),
            choices_area.wf(),
        ensures
            final(self).wf(),
            (old(self)@.finished() || !choices_area.has_cell(column as int, row as int)
                || band_index(choices_area.x as int, choices_area.width as int, CHOICE_COUNT as int, column as int) is None)
                ==> final(self)@ == old(self)@,
            (!old(self)@.finished() && choices_area.has_cell(column as int, row as int))
                ==> (band_index(choices_area.x as int, choices_area.width as int, CHOICE_COUNT as int, column as int) matches Some(i)
                    ==> old(self)@.answered(final(self)@, i as int, latency_ms)),
    {
        if self.is_finished() {
            return;
        }
        if !contains(choices_area, column, row) {
            return;
        }
        match column_index(choices_area, column, CHOICE_COUNT as u16) {
            Some(index) => self.advance_question(index, latency_ms),
            None => {},
        }
    }

    /// Lets `dt_ms` pass: only the remark ages.
    pub fn update(&mut self, dt_ms: u64)
        requires
            old(self).wf(),
        ensures
            final(self).wf(),
            final(self)@ == (PuzzleConnectView { feedback: aged(old(self)@.feedback, dt_ms), ..old(self)@ }),
    {
        self.feedback.tick(dt_ms);
    }
}

} // verus!
