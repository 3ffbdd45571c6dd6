//! Look away ("ヤッホー"): across the counter of a tea-over-rice shop, the owner points to one
//! side and shouts "ヤー!!"; the player must press the arrow key of the other side. When he calls
//! "やっほー" instead, the player answers with Space. A right answer within
//! RESPONSE_SAFE_WINDOW_MS is correct. A late answer, a wrong key, or no answer at all (settled
//! after MAX_RESPONSE_WINDOW_MS) is incorrect and costs hearts, more the later it came (see
//! `penalty_for`). With no hearts left the game is over; after ten rounds with hearts left it is
//! cleared.
//!
//! Time is counted in milliseconds. Keys reach the game as `Input`s; drawing and sound are the
//! caller's.

use crate::game::feedback::AnswerFeedback;
use crate::game::feedback::aged;
use crate::game::feedback::recorded;
use crate::game::feedback::FeedbackView;
use crate::game::Difficulty;
use crate::game::ScoreTracker;
use crate::game::ScoreView;
use crate::random::gen_range_inclusive;
use crate::random::gen_ratio;
use crate::sat_add;
use crate::sat_sub;
use crate::text::decimal;
use crate::text::decimal_string;
use crate::ui::countdown::CountdownState;
use crate::ui::countdown::PHASE_DURATION_MS;
use rand::rngs::StdRng;
use vstd::prelude::*;

verus! {

/// Name shown in the menu, the HUD and the results. Renaming the game only changes this.
pub const DISPLAY_NAME: &'static str = "ヤッホー";

/// Identifier written to the statistics and history; independent of the display name.
pub const GAME_ID: &'static str = "look_away";

/// Difficulty recorded with the result; the game has no difficulty choice.
pub const SESSION_DIFFICULTY: Difficulty = Difficulty::Advanced;

/// Questions in a session, whatever the answers.
pub const ROUNDS_PER_SESSION: u32 = 10;

/// Hearts at the start of a session; at zero the game is over.
pub const MAX_LIVES: u32 = 5;

/// Range (shortest, longest) of the idle wait before an event, in milliseconds.
pub const IDLE_WAIT_MS: (u64, u64) = (700, 2500);

/// A right answer within this many milliseconds is correct and costs no heart.
pub const RESPONSE_SAFE_WINDOW_MS: u64 = 400;

/// Past the safe window, every further step of this many milliseconds costs one more heart.
pub const PENALTY_STEP_MS: u64 = 80;

/// Input is taken for at most this long; with no input by then the answer is settled as
/// incorrect, with this as its elapsed time.
pub const MAX_RESPONSE_WINDOW_MS: u64 = 800;

/// How long the big right/wrong mark stays; no input is taken and no question starts meanwhile.
pub const RESULT_HOLD_MS: u64 = 1000;

/// Chance (numerator, denominator) that the event after the idle wait is a "やっほー" call.
pub const YAHHO_RATE: (u32, u32) = (1, 4);

/// What the owner shouts while pointing.
pub const SHOUT_TEXT: &'static str = "ヤー!!";
/// The owner's call that the player answers with Space.
pub const YAHHO_CALL_TEXT: &'static str = "やっほー!";
/// The owner's face, drawn as text.
pub const FACE_TEXT: &'static str = "( ・ω・ )";
/// An arm pointing left.
pub const POINT_LEFT_TEXT: &'static str = "◀━━━ ";
/// An arm pointing right.
pub const POINT_RIGHT_TEXT: &'static str = " ━━━▶";
/// Remark when no key was pressed in time.
pub const TIMEOUT_TEXT: &'static str = "時間切れ";
/// Remark when a key was pressed before any event.
pub const FALSE_START_TEXT: &'static str = "フライング";
/// Shown when the hearts ran out.
pub const GAME_OVER_TEXT: &'static str = "GAME OVER";
/// Shown when all rounds were answered with hearts left.
pub const CLEAR_TEXT: &'static str = "CLEAR!";

/// Remark for a right key pressed too late.
pub const LATE_TEXT: &'static str = "反応が遅い";
/// Remark for the arrow of the pointed side.
pub const SAME_SIDE_TEXT: &'static str = "逆を向く";
/// Remark for Space during a shout.
pub const ARROW_EXPECTED_TEXT: &'static str = "向きで答える";
/// Remark for an arrow during a call.
pub const SPACE_EXPECTED_TEXT: &'static str = "Spaceで返す";

/// The side that the owner points to.
#[derive(Clone, Copy, Debug, PartialEq, Eq, Structural)]
pub enum Side {
    Left,
    Right,
}

impl Side {
    pub open spec fn opposite_spec(self) -> Side {
        match self {
            Side::Left => Side::Right,
            Side::Right => Side::Left,
        }
    }

    /// The other side.
    pub fn opposite(self) -> (r: Side)
        ensures
            r == self.opposite_spec(),
            r != self,
    {
        match self {
            Side::Left => Side::Right,
            Side::Right => Side::Left,
        }
    }

    /// Left or right, one chance in two each.
    pub fn random(rng: &mut StdRng) -> Side {
        if gen_ratio(rng, 1, 2) {
            Side::Left
        } else {
            Side::Right
        }
    }
}

/// What happens after the idle wait.
#[derive(Clone, Copy, Debug, PartialEq, Eq, Structural)]
pub enum Event {
    /// The owner calls "やっほー".
    Yahho,
    /// The owner points to a side and shouts "ヤー!!".
    Shout(Side),
}

/// A random idle wait within `range` (shortest, longest).
pub fn random_between(rng: &mut StdRng, range: (u64, u64)) -> (r: u64)
    requires
        range.0 <= range.1,
    ensures
        range.0 <= r <= range.1,
{
    gen_range_inclusive(rng, range.0, range.1)
}

/// The event after the idle wait: a call with chance YAHHO_RATE, else a shout to a random side.
pub fn choose_event(rng: &mut StdRng) -> Event {
    if gen_ratio(rng, YAHHO_RATE.0, YAHHO_RATE.1) {
        Event::Yahho
    } else {
        Event::Shout(Side::random(rng))
    }
}

/// The keys that the game reads: an arrow (turning to a side) or Space (answering a call).
/// Every other key is ignored before it reaches the game.
#[derive(Clone, Copy, Debug, PartialEq, Eq, Structural)]
pub enum Input {
    Turn(Side),
    Yahho,
}

/// Hearts lost for an answer settled `elapsed_ms` after the event:
/// one, plus one per full PENALTY_STEP_MS past the safe window.
pub open spec fn penalty_spec(elapsed_ms: int) -> int {
    let overage = if elapsed_ms > RESPONSE_SAFE_WINDOW_MS { elapsed_ms - RESPONSE_SAFE_WINDOW_MS } else { 0 };
    1 + overage / (PENALTY_STEP_MS as int)
}

/// Hearts lost for an incorrect answer settled `elapsed_ms` after the event: 1 up to 79 ms past
/// the safe window, 2 from 80 ms to 159 ms past it, and so on.
pub fn penalty_for(elapsed_ms: u64) -> (r: u32)
    requires
        penalty_spec(elapsed_ms as int) <= u32::MAX,
    ensures
        r == penalty_spec(elapsed_ms as int),
{
    let overage = elapsed_ms.saturating_sub(RESPONSE_SAFE_WINDOW_MS);
    1 + (overage / PENALTY_STEP_MS) as u32
}

/// One or more hearts are lost for every incorrect answer, and never fewer for a later one.
pub proof fn lemma_penalty_grows_with_delay(earlier_ms: int, later_ms: int)
    requires
        0 <= earlier_ms <= later_ms,
    ensures
        1 <= penalty_spec(earlier_ms) <= penalty_spec(later_ms),
{
    let a = if earlier_ms > RESPONSE_SAFE_WINDOW_MS { earlier_ms - RESPONSE_SAFE_WINDOW_MS } else { 0 };
    let b = if later_ms > RESPONSE_SAFE_WINDOW_MS { later_ms - RESPONSE_SAFE_WINDOW_MS } else { 0 };
    assert(0 <= a <= b);
    assert(a / 80 <= b / 80) by (nonlinear_arith)
        requires
            0 <= a <= b,
    ;
}

/// The judgement of one answer: right or not, the remark shown with it, the latency recorded
/// in milliseconds, and the hearts it costs (none for a right answer).
#[derive(Clone, Debug)]
pub struct Verdict {
    pub is_correct: bool,
    pub detail: String,
    pub latency_ms: u64,
    pub penalty: u32,
}

impl Verdict {
    /// A right answer after `elapsed_ms`; the remark is the latency, as in "312ms".
    fn correct(elapsed_ms: u64) -> (r: Verdict)
        ensures
            r.is_correct,
            r.detail@ == decimal(elapsed_ms as nat) + "ms"@,
            r.latency_ms == elapsed_ms,
            r.penalty == 0,
    {
        let mut detail = decimal_string(elapsed_ms);
        detail.append("ms");
        proof {
            reveal_strlit("ms");
        }
        Verdict { is_correct: true, detail, latency_ms: elapsed_ms, penalty: 0 }
    }

    /// A wrong answer, settled `elapsed_ms` after the event (at the key press, or at
    /// MAX_RESPONSE_WINDOW_MS for no answer); the penalty follows from that time.
    fn incorrect(detail: &str, elapsed_ms: u64) -> (r: Verdict)
        requires
            elapsed_ms <= MAX_RESPONSE_WINDOW_MS,
        ensures
            !r.is_correct,
            r.detail@ == detail@,
            r.latency_ms == elapsed_ms,
            r.penalty == penalty_spec(elapsed_ms as int),
    {
        Verdict {
            is_correct: false,
            detail: detail.to_owned(),
            latency_ms: elapsed_ms,
            penalty: penalty_for(elapsed_ms),
        }
    }
}

/// Where the current question stands.
#[derive(Clone, Copy, Debug)]
pub enum Phase {
    /// "3.2.1.GO!!" before the first question; input is ignored.
    Countdown { state: CountdownState },
    /// The owner does nothing; the wait left, in milliseconds.
    Idle { remaining_ms: u64 },
    /// The owner points to `side` and shouts; input time left (from MAX_RESPONSE_WINDOW_MS down).
    Shout { side: Side, remaining_ms: u64 },
    /// The owner calls "やっほー"; input time left.
    Yahho { remaining_ms: u64 },
    /// The big right/wrong mark, shown for RESULT_HOLD_MS; input is ignored.
    Result { is_correct: bool, elapsed_ms: u64 },
}

/// Time since an event started, given the input time left.
pub open spec fn since_event(remaining_ms: u64) -> int {
    if remaining_ms <= MAX_RESPONSE_WINDOW_MS { MAX_RESPONSE_WINDOW_MS - remaining_ms } else { 0 }
}

/// The judgement of `input` in `phase`, as (right or not, elapsed milliseconds, remark).
/// `None` where input is ignored (countdown and result). A key during the idle wait is a false
/// start; the opposite arrow during a shout and Space during a call are right when they come
/// within the safe window; every other key is wrong.
pub open spec fn judgement(phase: Phase, input: Input) -> Option<(bool, int, Seq<char>)> {
    match phase {
        Phase::Countdown { .. } => None,
        Phase::Result { .. } => None,
        Phase::Idle { .. } => Some((false, 0, FALSE_START_TEXT@)),
        Phase::Shout { side, remaining_ms } => {
            let elapsed = since_event(remaining_ms);
            match input {
                Input::Turn(turned) => if turned == side.opposite_spec() {
                    if elapsed <= RESPONSE_SAFE_WINDOW_MS {
                        Some((true, elapsed, decimal(elapsed as nat) + "ms"@))
                    } else {
                        Some((false, elapsed, LATE_TEXT@))
                    }
                } else {
                    Some((false, elapsed, SAME_SIDE_TEXT@))
                },
                Input::Yahho => Some((false, elapsed, ARROW_EXPECTED_TEXT@)),
            }
        },
        Phase::Yahho { remaining_ms } => {
            let elapsed = since_event(remaining_ms);
            match input {
                Input::Yahho => if elapsed <= RESPONSE_SAFE_WINDOW_MS {
                    Some((true, elapsed, decimal(elapsed as nat) + "ms"@))
                } else {
                    Some((false, elapsed, LATE_TEXT@))
                },
                Input::Turn(_) => Some((false, elapsed, SPACE_EXPECTED_TEXT@)),
            }
        },
    }
}

/// The judgement of `input` in `phase`; `None` where input is ignored.
pub fn judge(phase: &Phase, input: Input) -> (r: Option<Verdict>)
    ensures
        match judgement(*phase, input) {
            None => r is None,
            Some((ok, elapsed, detail)) => r matches Some(v) && v.is_correct == ok
                && v.latency_ms == elapsed && v.detail@ == detail
                && v.penalty == (if ok { 0 } else { penalty_spec(elapsed) }),
        },
{
    proof {
        reveal_strlit("フライング");
        reveal_strlit("反応が遅い");
        reveal_strlit("逆を向く");
        reveal_strlit("向きで答える");
        reveal_strlit("Spaceで返す");
    }
    match phase {
        Phase::Countdown { .. } => None,
        Phase::Result { .. } => None,
        Phase::Idle { .. } => Some(Verdict::incorrect(FALSE_START_TEXT, 0)),
        Phase::Shout { side, remaining_ms } => {
            let elapsed = MAX_RESPONSE_WINDOW_MS.saturating_sub(*remaining_ms);
            match input {
                Input::Turn(turned) => {
                    if turned == side.opposite() {
                        if elapsed <= RESPONSE_SAFE_WINDOW_MS {
                            Some(Verdict::correct(elapsed))
                        } else {
                            Some(Verdict::incorrect(LATE_TEXT, elapsed))
                        }
                    } else {
                        Some(Verdict::incorrect(SAME_SIDE_TEXT, elapsed))
                    }
                },
                Input::Yahho => Some(Verdict::incorrect(ARROW_EXPECTED_TEXT, elapsed)),
            }
        },
        Phase::Yahho { remaining_ms } => {
            let elapsed = MAX_RESPONSE_WINDOW_MS.saturating_sub(*remaining_ms);
            match input {
                Input::Yahho => {
                    if elapsed <= RESPONSE_SAFE_WINDOW_MS {
                        Some(Verdict::correct(elapsed))
                    } else {
                        Some(Verdict::incorrect(LATE_TEXT, elapsed))
                    }
                },
                Input::Turn(_) => Some(Verdict::incorrect(SPACE_EXPECTED_TEXT, elapsed)),
            }
        },
    }
}

/// The hearts line: one full heart per heart left and one hollow heart per heart lost.
pub open spec fn hearts_spec(lives: nat) -> Seq<char> {
    let lost: nat = if lives <= MAX_LIVES { (MAX_LIVES - lives) as nat } else { 0 };
    Seq::new(lives, |i: int| '♥') + Seq::new(lost, |i: int| '♡')
}

/// The hearts line: "♥" for each heart left, then "♡" for each heart lost.
pub fn hearts(lives: u32) -> (r: String)
    ensures
        r@ == hearts_spec(lives as nat),
{
    proof {
        reveal_strlit("♥");
        reveal_strlit("♡");
    }
    let lost = MAX_LIVES.saturating_sub(lives);
    let mut s = String::new();
    let mut i: u32 = 0;
    while i < lives
        invariant
            i <= lives,
            s@ == Seq::new(i as nat, |k: int| '♥'),
        decreases lives - i,
    {
        s.append("♥");
        proof {
            reveal_strlit("♥");
        }
        assert(s@ =~= Seq::new((i + 1) as nat, |k: int| '♥'));
        i = i + 1;
    }
    let mut j: u32 = 0;
    while j < lost
        invariant
            j <= lost,
            lost == (if lives <= MAX_LIVES { MAX_LIVES - lives } else { 0 }),
            s@ == Seq::new(lives as nat, |k: int| '♥') + Seq::new(j as nat, |k: int| '♡'),
        decreases lost - j,
    {
        s.append("♡");
        proof {
            reveal_strlit("♡");
        }
        assert(s@ =~= Seq::new(lives as nat, |k: int| '♥') + Seq::new((j + 1) as nat, |k: int| '♡'));
        j = j + 1;
    }
    s
}

/// The owner's line: the face alone, or with an arm pointing to `side`.
pub open spec fn pointing_line_spec(side: Option<Side>) -> Seq<char> {
    match side {
        None => FACE_TEXT@,
        Some(Side::Left) => POINT_LEFT_TEXT@ + FACE_TEXT@,
        Some(Side::Right) => FACE_TEXT@ + POINT_RIGHT_TEXT@,
    }
}

/// The owner's line: the face alone, or with an arm pointing to `side`.
pub fn pointing_line(side: Option<Side>) -> (r: String)
    ensures
        r@ == pointing_line_spec(side),
{
    match side {
        None => String::from_str(FACE_TEXT),
        Some(Side::Left) => {
            let mut s = String::from_str(POINT_LEFT_TEXT);
            s.append(FACE_TEXT);
            s
        },
        Some(Side::Right) => {
            let mut s = String::from_str(FACE_TEXT);
            s.append(POINT_RIGHT_TEXT);
            s
        },
    }
}

/// What a session holds: the phase, the hearts left, whether the last result was shown and the
/// session ended, the answers recorded, the HUD feedback, and whether the opening countdown has
/// been shown.
pub struct LookAwayView {
    pub phase: Phase,
    pub lives: nat,
    pub finished: bool,
    pub score: ScoreView,
    pub feedback: FeedbackView,
    pub shown_countdown_once: bool,
}

/// One session of the game: ten questions, five hearts.
pub struct LookAwayGame {
    tracker: ScoreTracker,
    phase: Phase,
    lives: u32,
    finished: bool,
    feedback: AnswerFeedback,
    shown_countdown_once: bool,
    rng: StdRng,
}

impl View for LookAwayGame {
    type V = LookAwayView;

    closed spec fn view(&self) -> LookAwayView {
        LookAwayView {
            phase: self.phase,
            lives: self.lives as nat,
            finished: self.finished,
            score: self.tracker@,
            feedback: self.feedback@,
            shown_countdown_once: self.shown_countdown_once,
        }
    }
}

/// The phase takes input or runs toward an answer: a question is open.
pub open spec fn is_open_phase(phase: Phase) -> bool {
    !(phase is Result)
}

impl LookAwayView {
    /// The session's invariant: at most ten answers and five hearts; while a question is open
    /// (and before the session ended) fewer than ten answers are in and a heart is left; a
    /// finished session ended on its last result.
    pub open spec fn valid(self) -> bool {
        &&& self.score.session_length == ROUNDS_PER_SESSION
        &&& self.score.total <= ROUNDS_PER_SESSION
        &&& self.lives <= MAX_LIVES
        &&& self.feedback.correct <= self.score.total
        &&& self.feedback.streak <= self.score.total
        &&& (!self.finished && is_open_phase(self.phase)) ==> (self.score.total
            < ROUNDS_PER_SESSION && self.lives > 0)
        &&& self.finished ==> (self.lives == 0 || self.score.total >= ROUNDS_PER_SESSION)
        &&& self.finished ==> self.phase is Result
        &&& self.phase matches Phase::Shout { remaining_ms, .. } ==> remaining_ms <= MAX_RESPONSE_WINDOW_MS
        &&& self.phase matches Phase::Yahho { remaining_ms } ==> remaining_ms <= MAX_RESPONSE_WINDOW_MS
    }

    /// The hearts ran out.
    pub open spec fn game_over(self) -> bool {
        self.lives == 0
    }

    /// All rounds were answered and hearts are left.
    pub open spec fn cleared(self) -> bool {
        self.score.total >= self.score.session_length && self.lives != 0
    }

    /// The state after an answer judged as (`ok`, `elapsed`, `detail`): recorded once, hearts
    /// lost by the penalty of a wrong answer, the result mark shown from its start.
    pub open spec fn answered(self, next: LookAwayView, ok: bool, elapsed: int, detail: Seq<char>) -> bool {
        let penalty = if ok { 0 } else { penalty_spec(elapsed) };
        &&& next.score.total == self.score.total + 1
        &&& next.score.correct == self.score.correct + (if ok { 1int } else { 0int })
        &&& next.score.latencies_ms == self.score.latencies_ms.push(elapsed as u64)
        &&& next.score.session_length == self.score.session_length
        &&& next.lives == (if self.lives >= penalty { self.lives - penalty } else { 0 })
        &&& next.phase == (Phase::Result { is_correct: ok, elapsed_ms: 0 })
        &&& next.feedback == recorded(self.feedback, ok, detail)
        &&& next.finished == self.finished
        &&& next.shown_countdown_once == self.shown_countdown_once
    }
}

impl LookAwayGame {

    /// A new session that draws its waits and events from `rng`. The first question opens with
    /// the countdown.
    pub fn with_rng(rng: StdRng) -> (r: LookAwayGame)
        ensures
            r@.valid(),
            r@.phase matches Phase::Countdown { state } && state.elapsed() == 0,
            r@.lives == MAX_LIVES,
            !r@.finished,
            !r@.shown_countdown_once,
            r@.score.total == 0,
            r@.score.correct == 0,
            r@.score.session_length == ROUNDS_PER_SESSION,
            r@.feedback.shown is None,
    {
        LookAwayGame {
            tracker: ScoreTracker::with_session_length(ROUNDS_PER_SESSION),
            phase: Phase::Countdown { state: CountdownState::new() },
            lives: MAX_LIVES,
            finished: false,
            feedback: AnswerFeedback::new(),
            shown_countdown_once: false,
            rng,
        }
    }

    /// The hearts ran out.
    pub fn is_game_over(&self) -> (r: bool)
        ensures
            r == self@.game_over(),
    {
        self.lives == 0
    }

    /// All rounds were answered with hearts left (a win); true from the last result on.
    pub fn is_cleared(&self) -> (r: bool)
        ensures
            r == self@.cleared(),
    {
        self.tracker.is_session_finished() && !self.is_game_over()
    }

    /// The session ends when the current result is over: hearts are gone or every round is in.
    fn is_last_round(&self) -> (r: bool)
        ensures
            r == (self@.lives == 0 || self@.score.total >= self@.score.session_length),
    {
        self.is_game_over() || self.tracker.is_session_finished()
    }

    /// The session is over: the last result has been shown.
    pub fn is_finished(&self) -> (r: bool)
        ensures
            r == self@.finished,
    {
        self.finished
    }

    pub fn phase(&self) -> (r: &Phase)
        ensures
            *r == self@.phase,
    {
        &self.phase
    }

    pub fn lives(&self) -> (r: u32)
        ensures
            r == self@.lives,
    {
        self.lives
    }

    pub fn tracker(&self) -> (r: &ScoreTracker)
        ensures
            r@ == self@.score,
            self.wf() ==> r.wf(),
    {
        &self.tracker
    }

    pub fn feedback(&self) -> (r: &AnswerFeedback)
        ensures
            r@ == self@.feedback,
    {
        &self.feedback
    }

    /// The session's invariant holds of a well-formed game.
    pub proof fn lemma_valid(&self)
        requires
            self.wf(),
        ensures
            self@.valid(),
    {
    }

    pub closed spec fn wf(&self) -> bool {
        &&& self.tracker.wf()
        &&& self@.valid()
    }

    /// Starts a question: with the countdown the first time, straight into a random idle wait
    /// afterwards.
    fn start_round(&mut self)
        ensures
            final(self).tracker == old(self).tracker,
            final(self).lives == old(self).lives,
            final(self).finished == old(self).finished,
            final(self).feedback == old(self).feedback,
            final(self).shown_countdown_once == old(self).shown_countdown_once,
            old(self).shown_countdown_once ==> (final(self).phase matches Phase::Idle { remaining_ms }
                && IDLE_WAIT_MS.0 <= remaining_ms <= IDLE_WAIT_MS.1),
            !old(self).shown_countdown_once ==> (final(self).phase matches Phase::Countdown { state }
                && state.elapsed() == 0),
    {
        if self.shown_countdown_once {
            self.phase = Phase::Idle { remaining_ms: random_between(&mut self.rng, IDLE_WAIT_MS) };
            return;
        }
        self.phase = Phase::Countdown { state: CountdownState::new() };
    }

    /// Records one answer and shows its result; a wrong answer costs `verdict.penalty` hearts.
    fn finish_question(&mut self, verdict: Verdict)
        requires
            old(self).wf(),
            !old(self)@.finished,
            is_open_phase(old(self)@.phase),
        ensures
            final(self).wf(),
            final(self)@.score.total == old(self)@.score.total + 1,
            final(self)@.score.correct == old(self)@.score.correct + (if verdict.is_correct { 1int } else { 0int }),
            final(self)@.score.latencies_ms == old(self)@.score.latencies_ms.push(verdict.latency_ms),
            final(self)@.score.session_length == old(self)@.score.session_length,
            final(self)@.lives == (if old(self)@.lives >= verdict.penalty { old(self)@.lives - verdict.penalty } else { 0 }),
            final(self)@.phase == (Phase::Result { is_correct: verdict.is_correct, elapsed_ms: 0 }),
            final(self)@.feedback == recorded(old(self)@.feedback, verdict.is_correct, verdict.detail@),
            final(self)@.finished == old(self)@.finished,
            final(self)@.shown_countdown_once == old(self)@.shown_countdown_once,
    {
        self.tracker.record(verdict.is_correct, verdict.latency_ms);
        self.lives = self.lives.saturating_sub(verdict.penalty);
        self.feedback.record(verdict.is_correct, verdict.detail);
        self.phase = Phase::Result { is_correct: verdict.is_correct, elapsed_ms: 0 };
    }

    /// Takes one key. Ignored once the session is over and during the countdown and the result;
    /// otherwise the key is judged (see `judgement`), recorded, and its result shown.
    pub fn handle_input(&mut self, input: Input)
        requires
            old(self).wf(),
        ensures
            final(self).wf(),
            (old(self)@.finished || judgement(old(self)@.phase, input) is None) ==> final(self)@ == old(self)@,
            !old(self)@.finished ==> (judgement(old(self)@.phase, input) matches Some((ok, elapsed, detail))
                ==> old(self)@.answered(final(self)@, ok, elapsed, detail)),
    {
        if self.finished {
            return;
        }
        match judge(&self.phase, input) {
            Some(verdict) => self.finish_question(verdict),
            None => {},
        }
    }

    /// Lets `dt_ms` pass. Nothing changes once the session is over. Otherwise the feedback
    /// ages, and: the countdown runs and ends in an idle wait; an idle wait runs down into a
    /// random event; an event whose input time runs out is judged a wrong answer ("時間切れ",
    /// settled at MAX_RESPONSE_WINDOW_MS); a result held for RESULT_HOLD_MS ends the session if
    /// the hearts are gone or every round is in, and else starts the next question.
    pub fn update(&mut self, dt_ms: u64)
        requires
            old(self).wf(),
        ensures
            final(self).wf(),
            old(self)@.finished ==> final(self)@ == old(self)@,
            !old(self)@.finished ==> self_update(old(self)@, final(self)@, dt_ms),
    {
        if self.finished {
            return;
        }
        self.feedback.tick(dt_ms);
        self.tick_phase(dt_ms);
    }

    fn tick_phase(&mut self, dt_ms: u64)
        requires
            old(self).wf(),
            !old(self)@.finished,
        ensures
            final(self).wf(),
            phase_step(old(self)@, final(self)@, dt_ms),
    {
        proof {
            reveal_strlit("時間切れ");
        }
        match self.phase {
            Phase::Countdown { state } => {
                let mut state = state;
                let _ = state.tick(dt_ms);
                if state.is_finished() {
                    self.shown_countdown_once = true;
                    self.phase = Phase::Idle { remaining_ms: random_between(&mut self.rng, IDLE_WAIT_MS) };
                } else {
                    self.phase = Phase::Countdown { state };
                }
            },
            Phase::Idle { remaining_ms } => {
                let remaining_ms = remaining_ms.saturating_sub(dt_ms);
                if remaining_ms == 0 {
                    let event = choose_event(&mut self.rng);
                    self.phase = match event {
                        Event::Yahho => Phase::Yahho { remaining_ms: MAX_RESPONSE_WINDOW_MS },
                        Event::Shout(side) => Phase::Shout { side, remaining_ms: MAX_RESPONSE_WINDOW_MS },
                    };
                } else {
                    self.phase = Phase::Idle { remaining_ms };
                }
            },
            Phase::Shout { side, remaining_ms } => {
                let remaining_ms = remaining_ms.saturating_sub(dt_ms);
                if remaining_ms == 0 {
                    self.finish_question(Verdict::incorrect(TIMEOUT_TEXT, MAX_RESPONSE_WINDOW_MS));
                } else {
                    self.phase = Phase::Shout { side, remaining_ms };
                }
            },
            Phase::Yahho { remaining_ms } => {
                let remaining_ms = remaining_ms.saturating_sub(dt_ms);
                if remaining_ms == 0 {
                    self.finish_question(Verdict::incorrect(TIMEOUT_TEXT, MAX_RESPONSE_WINDOW_MS));
                } else {
                    self.phase = Phase::Yahho { remaining_ms };
                }
            },
            Phase::Result { is_correct, elapsed_ms } => {
                let elapsed_ms = elapsed_ms.saturating_add(dt_ms);
                self.phase = Phase::Result { is_correct, elapsed_ms };
                if elapsed_ms >= RESULT_HOLD_MS {
                    if self.is_last_round() {
                        self.finished = true;
                    } else {
                        self.start_round();
                    }
                }
            },
        }
    }
}

/// One step of the question's phase over `dt` milliseconds, from `s` to `t`, with everything
/// that the phase does not touch kept. The feedback is not part of this step.
pub open spec fn phase_step(s: LookAwayView, t: LookAwayView, dt: u64) -> bool {
    match s.phase {
        Phase::Countdown { state } => {
            let ticked = sat_add(state.elapsed(), dt);
            &&& t.score == s.score && t.lives == s.lives && t.finished == s.finished
            &&& t.feedback == s.feedback
            &&& if ticked >= 4 * PHASE_DURATION_MS {
                &&& t.shown_countdown_once
                &&& t.phase matches Phase::Idle { remaining_ms } && IDLE_WAIT_MS.0 <= remaining_ms <= IDLE_WAIT_MS.1
            } else {
                &&& t.shown_countdown_once == s.shown_countdown_once
                &&& t.phase matches Phase::Countdown { state: next } && next.elapsed() == ticked
            }
        },
        Phase::Idle { remaining_ms } => {
            let left = sat_sub(remaining_ms, dt);
            &&& t.score == s.score && t.lives == s.lives && t.finished == s.finished
            &&& t.feedback == s.feedback && t.shown_countdown_once == s.shown_countdown_once
            &&& if left == 0 {
                ||| t.phase == (Phase::Yahho { remaining_ms: MAX_RESPONSE_WINDOW_MS })
                ||| t.phase == (Phase::Shout { side: Side::Left, remaining_ms: MAX_RESPONSE_WINDOW_MS })
                ||| t.phase == (Phase::Shout { side: Side::Right, remaining_ms: MAX_RESPONSE_WINDOW_MS })
            } else {
                t.phase == (Phase::Idle { remaining_ms: left })
            }
        },
        Phase::Shout { side, remaining_ms } => {
            let left = sat_sub(remaining_ms, dt);
            if left == 0 {
                s.answered(t, false, MAX_RESPONSE_WINDOW_MS as int, TIMEOUT_TEXT@)
            } else {
                &&& t.score == s.score && t.lives == s.lives && t.finished == s.finished
                &&& t.feedback == s.feedback && t.shown_countdown_once == s.shown_countdown_once
                &&& t.phase == (Phase::Shout { side, remaining_ms: left })
            }
        },
        Phase::Yahho { remaining_ms } => {
            let left = sat_sub(remaining_ms, dt);
            if left == 0 {
                s.answered(t, false, MAX_RESPONSE_WINDOW_MS as int, TIMEOUT_TEXT@)
            } else {
                &&& t.score == s.score && t.lives == s.lives && t.finished == s.finished
                &&& t.feedback == s.feedback && t.shown_countdown_once == s.shown_countdown_once
                &&& t.phase == (Phase::Yahho { remaining_ms: left })
            }
        },
        Phase::Result { is_correct, elapsed_ms } => {
            let held = sat_add(elapsed_ms, dt);
            &&& t.score == s.score && t.lives == s.lives && t.feedback == s.feedback
            &&& t.shown_countdown_once == s.shown_countdown_once
            &&& if held < RESULT_HOLD_MS {
                !t.finished && t.phase == (Phase::Result { is_correct, elapsed_ms: held })
            } else if s.lives == 0 || s.score.total >= s.score.session_length {
                t.finished && t.phase == (Phase::Result { is_correct, elapsed_ms: held })
            } else if s.shown_countdown_once {
                !t.finished && (t.phase matches Phase::Idle { remaining_ms }
                    && IDLE_WAIT_MS.0 <= remaining_ms <= IDLE_WAIT_MS.1)
            } else {
                !t.finished && (t.phase matches Phase::Countdown { state } && state.elapsed() == 0)
            }
        },
    }
}

/// Hearts never come back: neither an answer nor the passing of time raises them.
pub proof fn lemma_lives_never_increase(s: LookAwayView, t: LookAwayView, dt: u64, ok: bool, elapsed: int, detail: Seq<char>)
    ensures
        self_update(s, t, dt) ==> t.lives <= s.lives,
        s.answered(t, ok, elapsed, detail) ==> t.lives <= s.lives,
{
}

/// The countdown opens the first question only: once it has been shown and a question is under
/// way, time never brings it back.
pub proof fn lemma_countdown_only_once(s: LookAwayView, t: LookAwayView, dt: u64)
    requires
        s.shown_countdown_once,
        !(s.phase is Countdown),
        self_update(s, t, dt),
    ensures
        t.shown_countdown_once,
        !(t.phase is Countdown),
{
}

/// One `update` over `dt` milliseconds of a running session: the feedback ages by `dt` and the
/// phase takes one step.
pub open spec fn self_update(s: LookAwayView, t: LookAwayView, dt: u64) -> bool {
    phase_step(LookAwayView { feedback: aged(s.feedback, dt), ..s }, t, dt)
}

} // verus!
