//! Mental arithmetic: an expression and four choices; the player picks the answer with the keys
//! 1-4 or by clicking its row. Ten questions of one difficulty.
//!
//! The time taken on each question is measured by the caller (a wall clock outside this crate)
//! and handed in with the answer.

pub mod text_image;

use crate::game::feedback::{aged, recorded, AnswerFeedback, FeedbackView};
use crate::game::{band_index, contains, row_index, Difficulty, ScoreTracker, ScoreView, QUESTIONS_PER_SESSION};
use crate::game::choices::{arrange, arranged, draw_order, first_position, is_order, lemma_arranged};
use crate::random::{all_distinct, gen_ratio, gen_range_inclusive, random_index};
use crate::rect::Rect;
use crate::text::{decimal, decimal_string, signed_decimal, signed_decimal_string};
use rand::rngs::StdRng;
use vstd::prelude::*;

verus! {

broadcast use vstd::seq_lib::group_to_multiset_ensures;

pub const GAME_ID: &'static str = "mental_calc";

/// Choices offered per question.
pub const CHOICE_COUNT: usize = 4;

/// The four operations of the expressions.
#[derive(Clone, Copy, Debug, PartialEq, Eq, Structural)]
pub enum Operator {
    Add,
    Sub,
    Mul,
    Div,
}

/// The operator's sign as written in an expression.
pub open spec fn operator_sign(op: Operator) -> Seq<char> {
    match op {
        Operator::Add => " + "@,
        Operator::Sub => " - "@,
        Operator::Mul => " × "@,
        Operator::Div => " ÷ "@,
    }
}

/// The expression "lhs op rhs", as shown to the player.
pub open spec fn expression_spec(op: Operator, lhs: int, rhs: int) -> Seq<char> {
    decimal(lhs as nat) + operator_sign(op) + decimal(rhs as nat)
}

/// The value of `lhs op rhs` (a division here always divides evenly).
pub open spec fn value_spec(op: Operator, lhs: int, rhs: int) -> int {
    match op {
        Operator::Add => lhs + rhs,
        Operator::Sub => lhs - rhs,
        Operator::Mul => lhs * rhs,
        Operator::Div => lhs / rhs,
    }
}

/// The expressions a difficulty asks: beginners add or subtract two numbers 1..=9 (the larger
/// first), intermediates the same with 10..=99; advanced players multiply 11..=20 by 2..=9, or
/// divide a multiple of 2..=9 by it, with a quotient 2..=12.
pub open spec fn expression_allowed(d: Difficulty, op: Operator, lhs: int, rhs: int) -> bool {
    match d {
        Difficulty::Beginner => (op == Operator::Add || op == Operator::Sub) && 1 <= lhs <= 9 && 1 <= rhs <= 9
            && (op == Operator::Sub ==> lhs >= rhs),
        Difficulty::Intermediate => (op == Operator::Add || op == Operator::Sub) && 10 <= lhs <= 99 && 10 <= rhs <= 99
            && (op == Operator::Sub ==> lhs >= rhs),
        Difficulty::Advanced => (op == Operator::Mul && 11 <= lhs <= 20 && 2 <= rhs <= 9)
            || (op == Operator::Div && 2 <= rhs <= 9 && lhs % rhs == 0 && 2 <= lhs / rhs <= 12),
    }
}

/// One question: the expression (its operator and operands, and its text), four choices and
/// the index of the right one.
#[derive(Clone, Debug)]
pub struct Question {
    pub expression: String,
    pub operator: Operator,
    pub lhs: i64,
    pub rhs: i64,
    pub choices: [i64; 4],
    pub correct_index: usize,
}

impl Question {
    /// The answer: the value of the expression.
    pub open spec fn answer(self) -> int {
        value_spec(self.operator, self.lhs as int, self.rhs as int)
    }

    /// A question of difficulty `d`: an allowed expression with its text; four different
    /// choices, the answer at `correct_index` and the others within 5 of it.
    pub open spec fn valid_for(self, d: Difficulty) -> bool {
        &&& expression_allowed(d, self.operator, self.lhs as int, self.rhs as int)
        &&& self.expression@ == expression_spec(self.operator, self.lhs as int, self.rhs as int)
        &&& self.correct_index < CHOICE_COUNT
        &&& self.choices@[self.correct_index as int] == self.answer()
        &&& forall|i: int, j: int| 0 <= i < 4 && 0 <= j < 4 && i != j ==> self.choices@[i] != self.choices@[j]
        &&& forall|i: int| 0 <= i < 4 ==> self.answer() - 5 <= #[trigger] self.choices@[i] <= self.answer() + 5
    }
}

fn operator_text(op: Operator) -> (r: &'static str)
    ensures
        r@ == operator_sign(op),
{
    match op {
        Operator::Add => " + ",
        Operator::Sub => " - ",
        Operator::Mul => " × ",
        Operator::Div => " ÷ ",
    }
}

fn expression_string(op: Operator, lhs: u64, rhs: u64) -> (r: String)
    ensures
        r@ == expression_spec(op, lhs as int, rhs as int),
{
    let mut s = decimal_string(lhs);
    s.append(operator_text(op));
    let right = decimal_string(rhs);
    s.append(right.as_str());
    s
}

/// Draws an expression of difficulty `d`: (operator, lhs, rhs).
fn draw_expression(rng: &mut StdRng, d: Difficulty) -> (r: (Operator, u64, u64))
    ensures
        expression_allowed(d, r.0, r.1 as int, r.2 as int),
        r.1 <= 200,
        r.2 <= 200,
{
    match d {
        Difficulty::Beginner | Difficulty::Intermediate => {
            let (lo, hi): (u64, u64) = if d == Difficulty::Beginner { (1, 9) } else { (10, 99) };
            let a = gen_range_inclusive(rng, lo, hi);
            let b = gen_range_inclusive(rng, lo, hi);
            if gen_ratio(rng, 1, 2) {
                (Operator::Add, a, b)
            } else if a >= b {
                (Operator::Sub, a, b)
            } else {
                (Operator::Sub, b, a)
            }
        },
        Difficulty::Advanced => {
            if gen_ratio(rng, 1, 2) {
                let a = gen_range_inclusive(rng, 11, 20);
                let b = gen_range_inclusive(rng, 2, 9);
                (Operator::Mul, a, b)
            } else {
                let b = gen_range_inclusive(rng, 2, 9);
                let quotient = gen_range_inclusive(rng, 2, 12);
                proof {
                    assert((b * quotient) % (b as int) == 0 && (b * quotient) / (b as int) == quotient
                        && b * quotient <= 108) by (nonlinear_arith)
                        requires
                            2 <= b <= 9,
                            2 <= quotient <= 12,
                    ;
                }
                (Operator::Div, b * quotient, b)
            }
        },
    }
}

/// The values drawn for one question: the expression, the offsets from the answer of the three
/// wrong choices, and the order in which the four choices (the answer first) are shown.
#[derive(Clone, Copy, Debug)]
pub struct CalcDraws {
    pub operator: Operator,
    pub lhs: u64,
    pub rhs: u64,
    pub offsets: [i64; 3],
    pub order: [usize; 4],
}

/// Values that a question of difficulty `d` can draw: an allowed expression, three different
/// offsets in -5..=5 other than 0, and an order of the four choices.
pub open spec fn draws_ok(d: Difficulty, dr: CalcDraws) -> bool {
    &&& expression_allowed(d, dr.operator, dr.lhs as int, dr.rhs as int)
    &&& dr.lhs <= 200
    &&& dr.rhs <= 200
    &&& all_distinct(dr.offsets@)
    &&& forall|k: int| 0 <= k < 3 ==> -5 <= #[trigger] dr.offsets@[k] <= 5 && dr.offsets@[k] != 0
    &&& is_order(dr.order@)
}

/// The choices before they are ordered: the answer, then the answer moved by each offset.
pub open spec fn listed_choices(dr: CalcDraws) -> Seq<i64> {
    let a = value_spec(dr.operator, dr.lhs as int, dr.rhs as int);
    seq![a as i64, (a + dr.offsets@[0]) as i64, (a + dr.offsets@[1]) as i64, (a + dr.offsets@[2]) as i64]
}

/// `q` is the question built from the values `dr`: the expression with its text, and the
/// choices in the drawn order, with the position that the answer took.
pub open spec fn built_from(q: Question, dr: CalcDraws) -> bool {
    &&& q.operator == dr.operator
    &&& q.lhs == dr.lhs
    &&& q.rhs == dr.rhs
    &&& q.expression@ == expression_spec(dr.operator, dr.lhs as int, dr.rhs as int)
    &&& q.choices@ == arranged(listed_choices(dr), dr.order@)
    &&& q.correct_index == first_position(dr.order@)
}

/// The question built from the drawn values `draws`; see `built_from`. It is valid for
/// `difficulty`.
pub fn build_question(difficulty: Difficulty, draws: CalcDraws) -> (r: Question)
    requires
        draws_ok(difficulty, draws),
    ensures
        built_from(r, draws),
        r.valid_for(difficulty),
{
    let (op, lhs, rhs) = (draws.operator, draws.lhs, draws.rhs);
    proof {
        if op == Operator::Mul {
            assert(lhs * rhs <= 180) by (nonlinear_arith)
                requires
                    11 <= lhs <= 20,
                    2 <= rhs <= 9,
            ;
        }
        if op == Operator::Div {
            assert(lhs / rhs <= 108) by (nonlinear_arith)
                requires
                    lhs <= 200,
                    2 <= rhs,
            ;
        }
    }
    let answer: i64 = match op {
        Operator::Add => (lhs + rhs) as i64,
        Operator::Sub => (lhs - rhs) as i64,
        Operator::Mul => (lhs * rhs) as i64,
        Operator::Div => (lhs / rhs) as i64,
    };
    assert(answer == value_spec(op, lhs as int, rhs as int));
    assert(-5 <= answer - 5 && answer + 5 <= 500);
    let listed = [answer, answer + draws.offsets[0], answer + draws.offsets[1], answer + draws.offsets[2]];
    let (choices, correct_index) = arrange(listed, draws.order);
    proof {
        assert(listed@ =~= listed_choices(draws));
        assert(all_distinct(listed@)) by {
            assert forall|i: int, j: int| 0 <= i < 4 && 0 <= j < 4 && i != j implies listed@[i] != listed@[j] by {
                if i > 0 && j > 0 {
                    assert(draws.offsets@[i - 1] != draws.offsets@[j - 1]);
                } else if i == 0 {
                    assert(draws.offsets@[j - 1] != 0);
                } else {
                    assert(draws.offsets@[i - 1] != 0);
                }
            }
        }
        lemma_arranged(listed@, draws.order@);
        assert forall|k: int| 0 <= k < 4 implies answer - 5 <= #[trigger] choices@[k] <= answer + 5 by {
            assert(choices@.contains(choices@[k]));
            assert(listed@.contains(choices@[k]));
            let m = choose|m: int| 0 <= m < 4 && listed@[m] == choices@[k];
            if m > 0 {
                assert(-5 <= draws.offsets@[m - 1] <= 5);
            }
        }
        assert forall|i: int, j: int| 0 <= i < 4 && 0 <= j < 4 && i != j implies choices@[i] != choices@[j] by {
            assert(all_distinct(choices@));
        }
    }
    let expression = expression_string(op, lhs, rhs);
    Question { expression, operator: op, lhs: lhs as i64, rhs: rhs as i64, choices, correct_index }
}

/// A random question of difficulty `difficulty`: an allowed expression is drawn, then three
/// different offsets from the answer (each uniformly among those still free in -5..=5 without
/// 0), then the order of the four choices; the question is built from them (see
/// `build_question`).
pub fn generate_question(rng: &mut StdRng, difficulty: Difficulty) -> (r: Question)
    ensures
        exists|dr: CalcDraws| draws_ok(difficulty, dr) && #[trigger] built_from(r, dr),
        r.valid_for(difficulty),
{
    let (op, lhs, rhs) = draw_expression(rng, difficulty);
    let mut pool: Vec<i64> = vec![-5, -4, -3, -2, -1, 1, 2, 3, 4, 5];
    let mut drawn: Vec<i64> = Vec::new();
    while drawn.len() < 3
        invariant
            drawn@.len() <= 3,
            pool@.len() + drawn@.len() == 10,
            all_distinct(drawn@),
            all_distinct(pool@),
            forall|k: int| 0 <= k < drawn@.len() ==> -5 <= #[trigger] drawn@[k] <= 5 && drawn@[k] != 0,
            forall|k: int| 0 <= k < pool@.len() ==> -5 <= #[trigger] pool@[k] <= 5 && pool@[k] != 0,
            forall|a: int, b: int| 0 <= a < pool@.len() && 0 <= b < drawn@.len() ==> #[trigger] pool@[a] != #[trigger] drawn@[b],
        decreases 3 - drawn@.len(),
    {
        let k = random_index(rng, pool.len());
        let ghost pool_before = pool@;
        let ghost drawn_before = drawn@;
        let offset = pool.remove(k);
        drawn.push(offset);
        proof {
            assert forall|a: int, b: int| 0 <= a < pool@.len() && 0 <= b < drawn@.len() implies #[trigger] pool@[a] != #[trigger] drawn@[b] by {
                let a0 = if a < k { a } else { a + 1 };
                assert(pool@[a] == pool_before[a0]);
                if b < drawn_before.len() {
                    assert(drawn@[b] == drawn_before[b]);
                }
            }
            assert forall|a: int, b: int| 0 <= a < drawn@.len() && 0 <= b < drawn@.len() && a != b implies drawn@[a] != drawn@[b] by {
                if a < drawn_before.len() && b < drawn_before.len() {
                } else if a < drawn_before.len() {
                    assert(pool_before[k as int] != drawn_before[a]);
                } else {
                    assert(pool_before[k as int] != drawn_before[b]);
                }
            }
            assert forall|a: int, b: int| 0 <= a < pool@.len() && 0 <= b < pool@.len() && a != b implies pool@[a] != pool@[b] by {
                let a0 = if a < k { a } else { a + 1 };
                let b0 = if b < k { b } else { b + 1 };
                assert(pool@[a] == pool_before[a0]);
                assert(pool@[b] == pool_before[b0]);
            }
        }
    }
    let order = draw_order(rng);
    let draws = CalcDraws { operator: op, lhs, rhs, offsets: [drawn[0], drawn[1], drawn[2]], order };
    proof {
        assert(draws.offsets@ =~= drawn@);
    }
    build_question(difficulty, draws)
}

/// The remark shown after an answer: the expression and its answer, as "12 + 8 = 20".
pub open spec fn answer_remark(q: Question) -> Seq<char> {
    q.expression@ + " = "@ + signed_decimal(q.choices@[q.correct_index as int] as int)
}

/// What a session holds.
pub struct MentalCalcView {
    pub difficulty: Difficulty,
    pub score: ScoreView,
    pub current: Question,
    pub feedback: FeedbackView,
}

impl MentalCalcView {
    pub open spec fn finished(self) -> bool {
        self.score.total >= self.score.session_length
    }

    /// The session's invariant: ten questions at most, and the question in hand belongs to the
    /// session's difficulty.
    pub open spec fn valid(self) -> bool {
        &&& self.score.session_length == QUESTIONS_PER_SESSION
        &&& self.score.total <= QUESTIONS_PER_SESSION
        &&& self.feedback.correct <= self.score.total
        &&& self.feedback.streak <= self.score.total
        &&& self.current.valid_for(self.difficulty)
    }

    /// `next` is this state after choice `index` was picked `latency_ms` after the question
    /// appeared: recorded as right when it is the right one, the expression and its answer shown
    /// as the remark, and unless the session is over a new question of the same difficulty,
    /// built from values drawn for it (see `build_question`).
    pub open spec fn answered(self, next: MentalCalcView, index: int, latency_ms: u64) -> bool {
        let ok = index == self.current.correct_index;
        &&& next.difficulty == self.difficulty
        &&& next.score == self.score.after(ok, latency_ms)
        &&& next.feedback == recorded(self.feedback, ok, answer_remark(self.current))
        &&& next.finished() ==> next.current == self.current
        &&& !next.finished() ==> exists|dr: CalcDraws| draws_ok(self.difficulty, dr) && #[trigger] built_from(next.current, dr)
    }
}

/// One session of mental arithmetic.
pub struct MentalCalcGame {
    difficulty: Difficulty,
    tracker: ScoreTracker,
    current: Question,
    feedback: AnswerFeedback,
    rng: StdRng,
}

impl View for MentalCalcGame {
    type V = MentalCalcView;

    closed spec fn view(&self) -> MentalCalcView {
        MentalCalcView { difficulty: self.difficulty, score: self.tracker@, current: self.current, feedback: self.feedback@ }
    }
}

impl MentalCalcGame {
    pub closed spec fn wf(&self) -> bool {
        self.tracker.wf() && self@.valid()
    }

    /// The session's invariant holds of a well-formed game.
    pub proof fn lemma_valid(&self)
        requires
            self.wf(),
        ensures
            self@.valid(),
    {
    }


    /// A new session of `difficulty` drawing its questions from `rng`.
    pub fn with_rng(difficulty: Difficulty, rng: StdRng) -> (r: MentalCalcGame)
        ensures
            r.wf(),
            r@.difficulty == difficulty,
            r@.score.total == 0,
            r@.score.correct == 0,
            r@.feedback.shown is None,
    {
        let mut rng = rng;
        let current = generate_question(&mut rng, difficulty);
        MentalCalcGame { difficulty, tracker: ScoreTracker::new(), current, feedback: AnswerFeedback::new(), rng }
    }

    pub fn difficulty(&self) -> (r: Difficulty)
        ensures
            r == self@.difficulty,
    {
        self.difficulty
    }

    pub fn tracker(&self) -> (r: &ScoreTracker)
        ensures
            r@ == self@.score,
    {
        &self.tracker
    }

    pub fn feedback(&self) -> (r: &AnswerFeedback)
        ensures
            r@ == self@.feedback,
    {
        &self.feedback
    }

    pub fn current(&self) -> (r: &Question)
        ensures
            *r == self@.current,
    {
        &self.current
    }

    /// All ten questions are answered.
    pub fn is_finished(&self) -> (r: bool)
        ensures
            r == self@.finished(),
    {
        self.tracker.is_session_finished()
    }

    /// The text of the question: the expression followed by " = ?".
    pub fn expression_text(&self) -> (r: String)
        ensures
            r@ == self@.current.expression@ + " = ?"@,
    {
        let mut s = self.current.expression.clone();
        s.append(" = ?");
        s
    }

    /// Records the pick of choice `answered_index`, `latency_ms` after the question appeared,
    /// and moves on to a new question unless the session is over.
    fn advance_question(&mut self, answered_index: usize, latency_ms: u64)
        requires
            old(self).wf(),
            !old(self)@.finished(),
        ensures
            final(self).wf(),
            old(self)@.answered(final(self)@, answered_index as int, latency_ms),
    {
        let is_correct = answered_index == self.current.correct_index;
        self.tracker.record(is_correct, latency_ms);
        let answer = self.current.choices[self.current.correct_index];
        let mut detail = self.current.expression.clone();
        detail.append(" = ");
        let answer_text = signed_decimal_string(answer);
        detail.append(answer_text.as_str());
        proof {
            reveal_strlit(" = ");
        }
        self.feedback.record(is_correct, detail);
        if !self.tracker.is_session_finished() {
            self.current = generate_question(&mut self.rng, self.difficulty);
            proof {
                let dr = choose|dr: CalcDraws| draws_ok(self.difficulty, dr) && #[trigger] built_from(self.current, dr);
                assert(built_from(self@.current, dr));
            }
        }
    }

    /// A key during the session: '1' to '4' pick that choice (see `MentalCalcView::answered`);
    /// other keys, and every key once the session is over, do nothing.
    pub fn handle_key(&mut self, key: char, latency_ms: u64)
        requires
            old(self).wf(),
        ensures
            final(self).wf(),
            (old(self)@.finished() || !('1' <= key <= '4')) ==> final(self)@ == old(self)@,
            (!old(self)@.finished() && '1' <= key <= '4') ==> old(self)@.answered(final(self)@,
                key as int - '1' as int, latency_ms),
    {
        if self.is_finished() {
            return;
        }
        if key >= '1' && key <= '4' {
            let index = (key as u32 - '1' as u32) as usize;
            self.advance_question(index, latency_ms);
        }
    }

    /// A left click on (column, row), with `choices_inner` the area of the choice rows as drawn.
    /// The area is split into four equal rows (the remainder going to the last, see
    /// `row_index`); a click on one picks that choice. A click outside, or once the session is
    /// over, does nothing.
    pub fn handle_click(&mut self, choices_inner: Rect, column: u16, row: u16, latency_ms: u64)
        requires
            old(self).wf(),
            choices_inner.wf(),
        ensures
            final(self).wf(),
            (old(self)@.finished() || !choices_inner.has_cell(column as int, row as int)
                || band_index(choices_inner.y as int, choices_inner.height as int, CHOICE_COUNT as int, row as int) is None)
                ==> final(self)@ == old(self)@,
            (!old(self)@.finished() && choices_inner.has_cell(column as int, row as int))
                ==> (band_index(choices_inner.y as int, choices_inner.height as int, CHOICE_COUNT as int, row as int) matches Some(i)
                    ==> old(self)@.answered(final(self)@, i as int, latency_ms)),
    {
        if self.is_finished() {
            return;
        }
        if !contains(choices_inner, column, row) {
            return;
        }
        match row_index(choices_inner, row, CHOICE_COUNT as u16) {
            Some(index) => self.advance_question(index, latency_ms),
            None => {},
        }
    }

    /// Lets `dt_ms` pass: only the remark ages.
    pub fn update(&mut self, dt_ms: u64)
        requires
            old(self).wf(),
        ensures
            final(self).wf(),
            final(self)@ == (MentalCalcView { feedback: aged(old(self)@.feedback, dt_ms), ..old(self)@ }),
    {
        self.feedback.tick(dt_ms);
    }
}

} // verus!
