//! Count Mania: numbered circles 1..N lie scattered on the board, and the player clicks them in
//! order with the mouse. A session is five rounds whose difficulty rises (beginner,
//! intermediate, then advanced three times); each round is recorded once, as cleared or failed.
//! Losing every life, or letting the number to click wait too long, ends the session at once.
//! Each round opens with the "3, 2, 1, GO!!" countdown.
//!
//! The moving circles of the last two rounds, the fish, the colours and the drawing use floating
//! point and live outside this crate; they hand this game the positions to test clicks against.

pub mod circle_image;
pub mod layout;
pub mod ripple;
pub mod wrong_mark;

use crate::game::count_mania::layout::{
    circle_contains_spec, hit_test, layout_circles, layout_ok, packing_gap_x, packing_gap_y, placed_well, sized_spec,
    CircleSize, Placement, TIER_COUNT,
};
use crate::game::count_mania::ripple::{max_radius_spec, Ripple};
use crate::game::count_mania::wrong_mark::WrongMark;
use crate::game::feedback::{aged, recorded, AnswerFeedback, FeedbackView};
use crate::game::{contains, Difficulty, ScoreTracker, ScoreView};
use crate::random::{shuffle};
use crate::rect::Rect;
use crate::text::{seconds_tenths, seconds_tenths_string};
use crate::ui::countdown::{CountdownState, PHASE_DURATION_MS};
use crate::sat_add;
use crate::sat_sub;
use rand::rngs::StdRng;
use vstd::prelude::*;

verus! {

broadcast use vstd::seq_lib::group_to_multiset_ensures;

pub const GAME_ID: &'static str = "count_mania";

/// Rounds in a session.
pub const ROUNDS_PER_SESSION: u32 = 5;

/// The difficulty of each round: beginner, intermediate, then advanced. Rounds four and five keep
/// the advanced parameters and move the circles (see ROUND_MOTIONS).
pub const ROUND_DIFFICULTIES: [Difficulty; 5] = [
    Difficulty::Beginner,
    Difficulty::Intermediate,
    Difficulty::Advanced,
    Difficulty::Advanced,
    Difficulty::Advanced,
];

/// How the circles of a round move.
#[derive(Clone, Copy, Debug, PartialEq, Eq, Structural)]
pub enum MotionKind {
    /// The circles stay where they were placed.
    Still,
    /// On each correct click the circles near it move away from it.
    Scatter,
}

/// The motion of each round: rounds four and five scatter.
pub const ROUND_MOTIONS: [MotionKind; 5] = [
    MotionKind::Still,
    MotionKind::Still,
    MotionKind::Still,
    MotionKind::Scatter,
    MotionKind::Scatter,
];

/// The difficulty that the session's result is filed under (that of the last rounds).
pub const SESSION_DIFFICULTY: Difficulty = Difficulty::Advanced;

/// Pause between a cleared round and the next one, in milliseconds; clicks are not taken then.
pub const ROUND_INTERVAL_MS: u64 = 1200;

/// Once the number to click has waited this long (ms), the board's background pulses red.
pub const PRESSURE_THRESHOLD_MS: u64 = 5000;

/// Once the number to click has waited this long (ms), the time is up and the session is over.
pub const TIMEOUT_LIMIT_MS: u64 = 12000;

/// For this long (ms) before the time is up, the circle to click blinks.
pub const TIMEOUT_WARNING_MS: u64 = 3000;

/// One blink of the circle to click (highlighted, then its own colour), in milliseconds.
pub const TIMEOUT_BLINK_PERIOD_MS: u64 = 600;

/// The highlight colour of a blinking circle (white), as RGB.
pub const TIMEOUT_BLINK_COLOR: [u8; 3] = [255, 255, 255];

/// One pulse of the red background (dark, bright, dark), in milliseconds.
pub const PRESSURE_PERIOD_MS: u64 = 800;

/// Whether the circle to click is drawn in the highlight colour, `t` ms after its number became
/// the one to click: from TIMEOUT_WARNING_MS before the time is up, the first half of each blink
/// period.
pub open spec fn blink_on_spec(t: u64) -> bool {
    t >= TIMEOUT_LIMIT_MS - TIMEOUT_WARNING_MS
        && (t - (TIMEOUT_LIMIT_MS - TIMEOUT_WARNING_MS)) % (TIMEOUT_BLINK_PERIOD_MS as int)
        < TIMEOUT_BLINK_PERIOD_MS / 2
}

/// Whether the circle to click is drawn in the highlight colour now; see `blink_on_spec`.
pub fn target_blink_on(time_since_target_ms: u64) -> (r: bool)
    ensures
        r == blink_on_spec(time_since_target_ms),
{
    if time_since_target_ms < TIMEOUT_LIMIT_MS - TIMEOUT_WARNING_MS {
        return false;
    }
    let over = time_since_target_ms - (TIMEOUT_LIMIT_MS - TIMEOUT_WARNING_MS);
    over % TIMEOUT_BLINK_PERIOD_MS < TIMEOUT_BLINK_PERIOD_MS / 2
}

/// The parameters of a difficulty.
#[derive(Clone, Debug, PartialEq, Eq)]
pub struct DifficultyParams {
    /// The highest number; the circles are numbered 1..=max_number.
    pub max_number: u8,
    /// The size levels the circles take.
    pub size_levels: Vec<CircleSize>,
    /// Lives in a round.
    pub lives: u8,
    /// Whether the circles are packed densely.
    pub dense: bool,
    /// The latency recorded for a failed round (ms): the round's expected limit.
    pub fail_latency_ms: u64,
}

/// The highest number of a difficulty: 10, 14 or 20.
pub open spec fn max_number_of(d: Difficulty) -> u8 {
    match d {
        Difficulty::Beginner => 10,
        Difficulty::Intermediate => 14,
        Difficulty::Advanced => 20,
    }
}

/// The size levels of a difficulty: beginners get huge, large and medium circles, the others all
/// four.
pub open spec fn levels_of(d: Difficulty) -> Seq<CircleSize> {
    match d {
        Difficulty::Beginner => seq![CircleSize::Huge, CircleSize::Large, CircleSize::Medium],
        _ => seq![CircleSize::Huge, CircleSize::Large, CircleSize::Medium, CircleSize::Small],
    }
}

/// Lives per round: three for beginners, two otherwise.
pub open spec fn lives_of(d: Difficulty) -> u8 {
    match d {
        Difficulty::Beginner => 3,
        _ => 2,
    }
}

/// Only advanced rounds pack their circles densely.
pub open spec fn dense_of(d: Difficulty) -> bool {
    d == Difficulty::Advanced
}

/// The latency recorded for a failed round: 30, 45 or 60 seconds.
pub open spec fn fail_latency_of(d: Difficulty) -> u64 {
    match d {
        Difficulty::Beginner => 30_000,
        Difficulty::Intermediate => 45_000,
        Difficulty::Advanced => 60_000,
    }
}

/// The parameters of `difficulty`.
pub fn params(difficulty: Difficulty) -> (r: DifficultyParams)
    ensures
        r.max_number == max_number_of(difficulty),
        r.size_levels@ == levels_of(difficulty),
        r.lives == lives_of(difficulty),
        r.dense == dense_of(difficulty),
        r.fail_latency_ms == fail_latency_of(difficulty),
{
    match difficulty {
        Difficulty::Beginner => DifficultyParams {
            max_number: 10,
            size_levels: vec![CircleSize::Huge, CircleSize::Large, CircleSize::Medium],
            lives: 3,
            dense: false,
            fail_latency_ms: 30_000,
        },
        Difficulty::Intermediate => DifficultyParams {
            max_number: 14,
            size_levels: vec![CircleSize::Huge, CircleSize::Large, CircleSize::Medium, CircleSize::Small],
            lives: 2,
            dense: false,
            fail_latency_ms: 45_000,
        },
        Difficulty::Advanced => DifficultyParams {
            max_number: 20,
            size_levels: vec![CircleSize::Huge, CircleSize::Large, CircleSize::Medium, CircleSize::Small],
            lives: 2,
            dense: true,
            fail_latency_ms: 60_000,
        },
    }
}

/// One circle of a round: its number and size level. Its colour and position are kept by the
/// drawing side.
#[derive(Clone, Copy, Debug, PartialEq, Eq, Structural)]
pub struct RoundCircle {
    pub number: u8,
    pub size: CircleSize,
}

/// The sizes before shuffling: the levels taken in turn, so that each level is used when there
/// are at least as many circles as levels.
pub open spec fn dealt_sizes(max_number: nat, levels: Seq<CircleSize>) -> Seq<CircleSize> {
    Seq::new(max_number, |i: int| levels[i % (levels.len() as int)])
}

/// The circles of a new round: numbers 1..=max_number in order, their sizes the dealt sizes in
/// a random order.
pub open spec fn round_circles_ok(circles: Seq<RoundCircle>, max_number: nat, levels: Seq<CircleSize>) -> bool {
    &&& circles.len() == max_number
    &&& forall|i: int| 0 <= i < circles.len() ==> (#[trigger] circles[i]).number == i + 1
    &&& circles.map_values(|c: RoundCircle| c.size).to_multiset() == dealt_sizes(max_number, levels).to_multiset()
}

/// The circles of a new round of `params`: numbered 1..=max_number, the size levels dealt in
/// turn and then shuffled, so that every level is used at least once.
pub fn new_round_circles(rng: &mut StdRng, params: &DifficultyParams) -> (r: Vec<RoundCircle>)
    requires
        params.size_levels@.len() > 0,
    ensures
        round_circles_ok(r@, params.max_number as nat, params.size_levels@),
{
    let levels = &params.size_levels;
    let mut sizes: Vec<CircleSize> = Vec::new();
    let mut i: u8 = 0;
    while i < params.max_number
        invariant
            i <= params.max_number,
            levels@.len() > 0,
            levels@ == params.size_levels@,
            sizes@ == dealt_sizes(i as nat, levels@),
        decreases params.max_number - i,
    {
        sizes.push(levels[i as usize % levels.len()]);
        assert(sizes@ =~= dealt_sizes((i + 1) as nat, levels@));
        i = i + 1;
    }
    let ghost dealt = sizes@;
    shuffle(rng, &mut sizes);
    let mut circles: Vec<RoundCircle> = Vec::new();
    let mut k: usize = 0;
    while k < sizes.len()
        invariant
            k <= sizes@.len(),
            sizes@.len() == params.max_number,
            circles@.len() == k,
            forall|j: int| 0 <= j < k ==> (#[trigger] circles@[j]).number == j + 1 && circles@[j].size == sizes@[j],
        decreases sizes@.len() - k,
    {
        circles.push(RoundCircle { number: (k + 1) as u8, size: sizes[k] });
        k = k + 1;
    }
    assert(circles@.map_values(|c: RoundCircle| c.size) =~= sizes@);
    circles
}

/// With at least as many circles as levels, every level of the difficulty is used by some circle
/// of a new round.
pub proof fn lemma_every_level_used(circles: Seq<RoundCircle>, max_number: nat, levels: Seq<CircleSize>, level: CircleSize)
    requires
        round_circles_ok(circles, max_number, levels),
        levels.contains(level),
        levels.len() <= max_number,
    ensures
        exists|i: int| 0 <= i < circles.len() && (#[trigger] circles[i]).size == level,
{
    let j = choose|j: int| 0 <= j < levels.len() && levels[j] == level;
    let dealt = dealt_sizes(max_number, levels);
    assert(dealt[j] == level) by {
        vstd::arithmetic::div_mod::lemma_small_mod(j as nat, levels.len());
    }
    assert(dealt.contains(level));
    let sizes = circles.map_values(|c: RoundCircle| c.size);
    assert(sizes.to_multiset().count(level) > 0);
    assert(sizes.contains(level));
    let i = choose|i: int| 0 <= i < sizes.len() && sizes[i] == level;
    assert(circles[i].size == level);
}

/// Remark shown when the last life is lost.
pub const LIVES_OUT_TEXT: &'static str = "ライフが尽きた";

/// Remark shown when a life is lost and some are left.
pub const LIFE_LOST_TEXT: &'static str = "ライフ -1";

/// Remark shown when the number to click waited too long.
pub const TIME_UP_TEXT: &'static str = "時間切れ";

/// The difficulty of the round with serial number `serial` (0-based; later rounds keep the last).
pub open spec fn round_difficulty_of(serial: int) -> Difficulty {
    if serial <= 0 {
        Difficulty::Beginner
    } else if serial == 1 {
        Difficulty::Intermediate
    } else {
        Difficulty::Advanced
    }
}

/// The motion of the round with serial number `serial` (0-based): rounds four and five scatter.
pub open spec fn round_motion_of(serial: int) -> MotionKind {
    if serial < 3 { MotionKind::Still } else { MotionKind::Scatter }
}

/// The remark of a cleared round: "CLEAR" and the round's time in seconds, e.g. "CLEAR 12.3秒".
pub open spec fn clear_text(elapsed_ms: nat) -> Seq<char> {
    "CLEAR "@ + seconds_tenths(elapsed_ms) + "秒"@
}

/// A round in play: its circles, the number to click next (the smaller ones are cleared), the
/// lives left, the time since the round began and since the current number became the one to
/// click.
#[derive(Clone, Debug)]
pub struct Round {
    pub circles: Vec<RoundCircle>,
    pub next: u8,
    pub lives: u8,
    pub elapsed_ms: u64,
    pub time_since_target_ms: u64,
}

/// The layout made for a board in a round, kept until the board or the round changes.
#[derive(Clone, Debug)]
pub struct LayoutCache {
    pub board: Rect,
    pub round_serial: u32,
    pub base: Vec<Placement>,
}

/// What a click did.
#[derive(Clone, Copy, Debug, PartialEq, Eq, Structural)]
pub enum ClickOutcome {
    /// Clicks are not taken now (countdown, pause, session over) or the click left the board.
    Ignored,
    /// No circle still on the board was hit; the fish near the click take fright.
    Missed,
    /// The circle to click next was hit.
    Correct { number: u8 },
    /// Another circle still on the board was hit.
    Wrong { number: u8 },
}

/// What a session holds.
pub struct CountManiaView {
    pub score: ScoreView,
    pub round_serial: u32,
    pub circles: Seq<RoundCircle>,
    pub next: u8,
    pub lives: u8,
    pub elapsed_ms: u64,
    pub time_since_target_ms: u64,
    pub interval_ms: Option<u64>,
    pub countdown: Option<CountdownState>,
    pub feedback: FeedbackView,
    pub ripple: Option<Ripple>,
    pub wrong_mark: Option<WrongMark>,
    pub game_over: bool,
}

impl CountManiaView {
    pub open spec fn difficulty(self) -> Difficulty {
        round_difficulty_of(self.round_serial as int)
    }

    pub open spec fn max_number(self) -> u8 {
        max_number_of(self.difficulty())
    }

    /// The round in hand has been recorded: it was cleared, or the session is over.
    pub open spec fn recorded(self) -> bool {
        self.game_over || self.next > self.max_number()
    }

    /// The session is over: after a game over once its remark has gone, else after five rounds.
    pub open spec fn finished(self) -> bool {
        if self.game_over { self.feedback.shown is None } else { self.score.total >= ROUNDS_PER_SESSION }
    }

    /// Clicks count now: no countdown, no pause between rounds, the session goes on.
    pub open spec fn accepts_clicks(self) -> bool {
        !self.finished() && self.interval_ms is None && self.countdown is None && !self.game_over
    }

    /// The circle numbered `n` is still on the board.
    pub open spec fn visible(self, n: int) -> bool {
        self.next <= n <= self.max_number()
    }

    /// The session's invariant: one record per round played, at most five rounds; the circles
    /// are numbered 1..=N; a round in play has a life left and its next number in 1..=N; the
    /// pause comes only after a cleared round that is not the last, and always then.
    pub open spec fn valid(self) -> bool {
        &&& self.round_serial < ROUNDS_PER_SESSION
        &&& self.score.total == self.round_serial + (if self.recorded() { 1int } else { 0int })
        &&& self.score.correct <= self.score.total
        &&& self.feedback.correct <= self.score.total
        &&& self.feedback.streak <= self.score.total
        &&& self.circles.len() == self.max_number()
        &&& forall|i: int| 0 <= i < self.circles.len() ==> (#[trigger] self.circles[i]).number == i + 1
        &&& 1 <= self.next <= self.max_number() + 1
        &&& self.lives <= lives_of(self.difficulty())
        &&& !self.game_over ==> self.lives >= 1
        &&& self.interval_ms is Some ==> (self.recorded() && !self.game_over && self.score.total < ROUNDS_PER_SESSION)
        &&& (self.recorded() && !self.game_over && self.score.total < ROUNDS_PER_SESSION) ==> self.interval_ms is Some
        &&& self.countdown is Some ==> !self.recorded()
    }

    /// The same round with the same circles and progress (what a click that changes nothing keeps).
    pub open spec fn same_round(self, other: CountManiaView) -> bool {
        &&& other.round_serial == self.round_serial
        &&& other.circles == self.circles
        &&& other.elapsed_ms == self.elapsed_ms
        &&& other.countdown == self.countdown
    }

    /// `next` is the state after a correct click on (column, row): the next number moves on, its
    /// wait starts over, a ripple as wide as the clicked circle's size starts at the click and
    /// the cross goes away. Clicking the last number records the round as cleared with its time
    /// and starts the pause unless it was the fifth round.
    pub open spec fn correct_clicked(self, next: CountManiaView, column: u16, row: u16) -> bool {
        let cleared = self.next == self.max_number();
        &&& self.same_round(next)
        &&& next.next == self.next + 1
        &&& next.lives == self.lives
        &&& next.time_since_target_ms == 0
        &&& next.game_over == self.game_over
        &&& next.wrong_mark is None
        &&& next.ripple matches Some(p) && p.center_spec() == (column, row) && p.elapsed_spec() == 0
            && p.max_radius_spec() == max_radius_spec(self.circles[self.next - 1].size)
        &&& if cleared {
            &&& next.score == self.score.after(true, self.elapsed_ms)
            &&& next.feedback == recorded(self.feedback, true, clear_text(self.elapsed_ms as nat))
            &&& next.interval_ms == (if self.score.total + 1 < ROUNDS_PER_SESSION { Some(ROUND_INTERVAL_MS) } else { None })
        } else {
            &&& next.score == self.score
            &&& next.feedback == self.feedback
            &&& next.interval_ms == self.interval_ms
        }
    }

    /// `next` is the state after a wrong click on (column, row): a life is lost and a cross shows
    /// at the click. Losing the last life records the round as failed (with the round's limit as
    /// its latency) and ends the session; otherwise the remark says a life was lost.
    pub open spec fn wrong_clicked(self, next: CountManiaView, column: u16, row: u16) -> bool {
        &&& self.same_round(next)
        &&& next.next == self.next
        &&& next.lives == self.lives - 1
        &&& next.ripple == self.ripple
        &&& next.interval_ms == self.interval_ms
        &&& next.wrong_mark matches Some(m) && m.center_spec() == (column, row) && m.elapsed_spec() == 0
        &&& if next.lives == 0 {
            &&& next.game_over
            &&& next.time_since_target_ms == 0
            &&& next.score == self.score.after(false, fail_latency_of(self.difficulty()))
            &&& next.feedback == recorded(self.feedback, false, LIVES_OUT_TEXT@)
        } else {
            &&& next.game_over == self.game_over
            &&& next.time_since_target_ms == self.time_since_target_ms
            &&& next.score == self.score
            &&& next.feedback == recorded(self.feedback, false, LIFE_LOST_TEXT@)
        }
    }
}

/// The ripple `dt` ms later: gone once its duration has passed, else the same ripple, older.
pub open spec fn ripple_after(before: Option<Ripple>, after: Option<Ripple>, dt: u64) -> bool {
    match before {
        None => after is None,
        Some(p) => if p.elapsed_spec() + dt < crate::game::count_mania::ripple::RIPPLE_DURATION_MS {
            after matches Some(q) && q.center_spec() == p.center_spec() && q.max_radius_spec() == p.max_radius_spec()
                && q.elapsed_spec() == p.elapsed_spec() + dt
        } else {
            after is None
        },
    }
}

/// The cross `dt` ms later: gone once its duration has passed, else the same cross, older.
pub open spec fn mark_after(before: Option<WrongMark>, after: Option<WrongMark>, dt: u64) -> bool {
    match before {
        None => after is None,
        Some(m) => if m.elapsed_spec() + dt < crate::game::count_mania::wrong_mark::WRONG_MARK_DURATION_MS {
            after matches Some(q) && q.center_spec() == m.center_spec() && q.elapsed_spec() == m.elapsed_spec() + dt
        } else {
            after is None
        },
    }
}

impl CountManiaView {
    /// The same round in the same stage: nothing of the game moved but the display timers.
    pub open spec fn still(self, next: CountManiaView) -> bool {
        &&& self.same_round(next)
        &&& next.score == self.score
        &&& next.next == self.next
        &&& next.lives == self.lives
        &&& next.time_since_target_ms == self.time_since_target_ms
        &&& next.interval_ms == self.interval_ms
        &&& next.game_over == self.game_over
    }

    /// `next` is the state `dt` ms after this one. The remark, ripple and cross age. While the
    /// countdown runs, only it advances, and it goes away once over. During the pause between
    /// rounds only the pause runs down; when it is over the next round starts: new circles for
    /// its difficulty, number 1 to click, full lives, and its countdown. Otherwise, unless the
    /// session is over, the round's clocks run; when the number to click has waited
    /// TIMEOUT_LIMIT_MS (and the session is not over yet) the round is recorded as failed and the
    /// session ends.
    pub open spec fn updated(self, next: CountManiaView, dt: u64) -> bool {
        let fb = aged(self.feedback, dt);
        &&& ripple_after(self.ripple, next.ripple, dt)
        &&& mark_after(self.wrong_mark, next.wrong_mark, dt)
        &&& match self.countdown {
            Some(c) => {
                let e = sat_add(c.elapsed(), dt);
                &&& next.feedback == fb
                &&& next.score == self.score && next.round_serial == self.round_serial && next.circles == self.circles
                &&& next.next == self.next && next.lives == self.lives && next.elapsed_ms == self.elapsed_ms
                &&& next.time_since_target_ms == self.time_since_target_ms && next.interval_ms == self.interval_ms
                &&& next.game_over == self.game_over
                &&& if e >= 4 * PHASE_DURATION_MS { next.countdown is None } else {
                    next.countdown matches Some(d) && d.elapsed() == e
                }
            },
            None => match self.interval_ms {
                Some(rem) => {
                    &&& next.feedback == fb
                    &&& next.score == self.score
                    &&& next.game_over == self.game_over
                    &&& if sat_sub(rem, dt) == 0 {
                        let d = round_difficulty_of(self.round_serial + 1);
                        &&& next.round_serial == self.round_serial + 1
                        &&& round_circles_ok(next.circles, max_number_of(d) as nat, levels_of(d))
                        &&& next.next == 1
                        &&& next.lives == lives_of(d)
                        &&& next.elapsed_ms == 0
                        &&& next.time_since_target_ms == 0
                        &&& next.interval_ms is None
                        &&& next.countdown matches Some(cd) && cd.elapsed() == 0
                    } else {
                        &&& next.interval_ms == Some(sat_sub(rem, dt))
                        &&& next.round_serial == self.round_serial && next.circles == self.circles
                        &&& next.next == self.next && next.lives == self.lives
                        &&& next.elapsed_ms == self.elapsed_ms
                        &&& next.time_since_target_ms == self.time_since_target_ms
                        &&& next.countdown == self.countdown
                    }
                },
                None => {
                    let fin = if self.game_over { fb.shown is None } else { self.score.total >= ROUNDS_PER_SESSION };
                    let t = sat_add(self.time_since_target_ms, dt);
                    &&& next.round_serial == self.round_serial && next.circles == self.circles
                    &&& next.next == self.next && next.lives == self.lives
                    &&& next.interval_ms == self.interval_ms && next.countdown == self.countdown
                    &&& if fin {
                        &&& next.feedback == fb
                        &&& next.score == self.score
                        &&& next.elapsed_ms == self.elapsed_ms
                        &&& next.time_since_target_ms == self.time_since_target_ms
                        &&& next.game_over == self.game_over
                    } else if !self.game_over && t >= TIMEOUT_LIMIT_MS {
                        &&& next.elapsed_ms == sat_add(self.elapsed_ms, dt)
                        &&& next.time_since_target_ms == 0
                        &&& next.game_over
                        &&& next.score == self.score.after(false, fail_latency_of(self.difficulty()))
                        &&& next.feedback == recorded(fb, false, TIME_UP_TEXT@)
                    } else {
                        &&& next.elapsed_ms == sat_add(self.elapsed_ms, dt)
                        &&& next.time_since_target_ms == t
                        &&& next.game_over == self.game_over
                        &&& next.score == self.score
                        &&& next.feedback == fb
                    }
                },
            },
        }
    }
}

/// Once the session is over by a game over, time records nothing more and keeps it over: the
/// score stays and the game stays over.
pub proof fn lemma_game_over_is_final(s: CountManiaView, t: CountManiaView, dt: u64)
    requires
        s.valid(),
        s.game_over,
        s.updated(t, dt),
    ensures
        t.score == s.score,
        t.game_over,
        t.round_serial == s.round_serial,
{
}

/// Every round started has been recorded once, or is in play: the rounds recorded are the
/// rounds before the current one, plus the current one once it is cleared or lost, and never
/// more than ROUNDS_PER_SESSION.
pub proof fn lemma_one_record_per_round(s: CountManiaView)
    requires
        s.valid(),
    ensures
        s.round_serial <= s.score.total <= s.round_serial + 1,
        s.score.total <= ROUNDS_PER_SESSION,
        s.score.total == s.round_serial + 1 <==> s.recorded(),
{
}

/// In `placements`, the circle hit by a click on (column, row) among those numbered `lo..=hi`:
/// the first placement, in order, whose circle holds the cell and whose number is in range;
/// `None` when there is none.
pub open spec fn first_hit(placements: Seq<Placement>, lo: int, hi: int, column: int, row: int, hit: Option<u8>) -> bool {
    match hit {
        Some(n) => exists|i: int| 0 <= i < placements.len() && #[trigger] placements[i].number == n
            && circle_contains_spec(placements[i].rect, column, row) && lo <= n <= hi
            && forall|j: int| 0 <= j < i && circle_contains_spec(placements[j].rect, column, row)
                ==> !(lo <= #[trigger] placements[j].number <= hi),
        None => forall|i: int| 0 <= i < placements.len() && circle_contains_spec(placements[i].rect, column, row)
            ==> !(lo <= #[trigger] placements[i].number <= hi),
    }
}

/// The (number, size) pairs of a round's circles, as the layout takes them.
pub open spec fn circle_pairs(circles: Seq<RoundCircle>) -> Seq<(u8, CircleSize)> {
    circles.map_values(|c: RoundCircle| (c.number, c.size))
}

/// What a click accepted on a board tells of the circles under it, tested against `placements`:
/// a miss hit no circle still on the board, and a correct or wrong click hit the circle it
/// names, the first one in order still on the board under the clicked cell.
pub open spec fn click_hits(s: CountManiaView, placements: Seq<Placement>, column: int, row: int, r: ClickOutcome) -> bool {
    &&& r == ClickOutcome::Missed ==> first_hit(placements, s.next as int, s.max_number() as int, column, row, None)
    &&& r matches ClickOutcome::Correct { number } ==> first_hit(placements, s.next as int, s.max_number() as int, column,
        row, Some(number))
    &&& r matches ClickOutcome::Wrong { number } ==> first_hit(placements, s.next as int, s.max_number() as int, column,
        row, Some(number))
}

/// The circles drawn on the board, in the order of `placements`: none during the countdown or
/// the pause; otherwise each placement whose circle is still on the board, flagged when it is the
/// circle to click and the warning blink is on (it is then drawn in TIMEOUT_BLINK_COLOR).
pub open spec fn drawn_circles(s: CountManiaView, placements: Seq<Placement>) -> Seq<(Placement, bool)>
    decreases placements.len(),
{
    if placements.len() == 0 || s.countdown is Some || s.interval_ms is Some {
        Seq::empty()
    } else {
        let rest = drawn_circles(s, placements.drop_last());
        let p = placements.last();
        if s.visible(p.number as int) {
            rest.push((p, blink_on_spec(s.time_since_target_ms) && p.number == s.next))
        } else {
            rest
        }
    }
}

/// The lives line: a full heart per life left, then a hollow heart per life lost this round.
pub open spec fn lives_line_spec(lives: nat, round_lives: nat) -> Seq<char> {
    let lost: nat = if lives <= round_lives { (round_lives - lives) as nat } else { 0 };
    Seq::new(lives, |i: int| '♥') + Seq::new(lost, |i: int| '♡')
}

/// One session of Count Mania.
pub struct CountManiaGame {
    tracker: ScoreTracker,
    round: Round,
    round_serial: u32,
    interval_ms: Option<u64>,
    countdown: Option<CountdownState>,
    feedback: AnswerFeedback,
    ripple: Option<Ripple>,
    wrong_mark: Option<WrongMark>,
    layout: Option<LayoutCache>,
    game_over: bool,
    rng: StdRng,
}

impl View for CountManiaGame {
    type V = CountManiaView;

    closed spec fn view(&self) -> CountManiaView {
        CountManiaView {
            score: self.tracker@,
            round_serial: self.round_serial,
            circles: self.round.circles@,
            next: self.round.next,
            lives: self.round.lives,
            elapsed_ms: self.round.elapsed_ms,
            time_since_target_ms: self.round.time_since_target_ms,
            interval_ms: self.interval_ms,
            countdown: self.countdown,
            feedback: self.feedback@,
            ripple: self.ripple,
            wrong_mark: self.wrong_mark,
            game_over: self.game_over,
        }
    }
}

impl CountManiaGame {
    /// The tracker is consistent, the session's invariant holds, and a kept layout for the round
    /// in hand places that round's circles well on its board.
    pub closed spec fn wf(&self) -> bool {
        &&& self.tracker.wf()
        &&& self@.valid()
        &&& self.layout matches Some(c) ==> c.board.wf() && c.round_serial <= self.round_serial && (c.round_serial
            == self.round_serial ==> layout_ok(c.base@, c.board, circle_pairs(self.round.circles@),
            dense_of(self@.difficulty())))
    }

    /// The session's invariant holds of a well-formed game.
    pub proof fn lemma_valid(&self)
        requires
            self.wf(),
        ensures
            self@.valid(),
    {
    }

    /// The layout kept for a board and a round, as (board, round serial, placements), if any.
    pub closed spec fn kept_layout(&self) -> Option<(Rect, u32, Seq<Placement>)> {
        match self.layout {
            Some(c) => Some((c.board, c.round_serial, c.base@)),
            None => None,
        }
    }

    /// The layout kept for `board` in the round in hand, if one is.
    pub open spec fn kept_for(&self, board: Rect) -> Option<Seq<Placement>> {
        match self.kept_layout() {
            Some((b, serial, placements)) => if b == board && serial == self@.round_serial {
                Some(placements)
            } else {
                None
            },
            None => None,
        }
    }

    /// Within a round, the layout kept for a board is what `placements` gives for it from then
    /// on: `update`, `click_at` and `handle_mouse` leave the kept layout as it is (`handle_mouse`
    /// keeps one for its board when it had none), and `placements` returns the kept layout and
    /// keeps what it returns. So two states of one round with the same kept layout give the same
    /// layout for every board.
    pub proof fn lemma_layout_kept_within_round(a: &CountManiaGame, b: &CountManiaGame, board: Rect)
        requires
            a.kept_layout() == b.kept_layout(),
            a@.round_serial == b@.round_serial,
        ensures
            a.kept_for(board) == b.kept_for(board),
    {
    }

    /// The layout kept last, with the board and the round it was made for.
    pub fn layout(&self) -> (r: Option<&LayoutCache>)
        ensures
            match r {
                Some(c) => self.kept_layout() == Some((c.board, c.round_serial, c.base@)),
                None => self.kept_layout() is None,
            },
    {
        self.layout.as_ref()
    }


    /// A new session drawing its sizes and layouts from `rng`. Round one opens with the countdown.
    pub fn with_rng(rng: StdRng) -> (r: CountManiaGame)
        ensures
            r.wf(),
            r@.round_serial == 0,
            r@.score.total == 0,
            r@.score.correct == 0,
            r@.next == 1,
            r@.lives == lives_of(Difficulty::Beginner),
            r@.elapsed_ms == 0,
            r@.time_since_target_ms == 0,
            r@.countdown matches Some(c) && c.elapsed() == 0,
            r@.interval_ms is None,
            !r@.game_over,
            r@.feedback.shown is None,
            r@.ripple is None,
            r@.wrong_mark is None,
            round_circles_ok(r@.circles, max_number_of(Difficulty::Beginner) as nat, levels_of(Difficulty::Beginner)),
    {
        let mut rng = rng;
        let p = params(Difficulty::Beginner);
        let circles = new_round_circles(&mut rng, &p);
        CountManiaGame {
            tracker: ScoreTracker::new(),
            round: Round { circles, next: 1, lives: p.lives, elapsed_ms: 0, time_since_target_ms: 0 },
            round_serial: 0,
            interval_ms: None,
            countdown: Some(CountdownState::new()),
            feedback: AnswerFeedback::new(),
            ripple: None,
            wrong_mark: None,
            layout: None,
            game_over: false,
            rng,
        }
    }

    /// The difficulty of the round in hand, from ROUND_DIFFICULTIES (the last for later rounds).
    pub fn round_difficulty(&self) -> (r: Difficulty)
        ensures
            r == self@.difficulty(),
    {
        let last = ROUND_DIFFICULTIES.len() - 1;
        let index = if (self.round_serial as usize) < last { self.round_serial as usize } else { last };
        ROUND_DIFFICULTIES[index]
    }

    /// The parameters of the round in hand.
    pub fn round_params(&self) -> (r: DifficultyParams)
        ensures
            r.max_number == self@.max_number(),
            r.size_levels@ == levels_of(self@.difficulty()),
            r.lives == lives_of(self@.difficulty()),
            r.dense == dense_of(self@.difficulty()),
            r.fail_latency_ms == fail_latency_of(self@.difficulty()),
    {
        params(self.round_difficulty())
    }

    /// How the circles of the round in hand move, from ROUND_MOTIONS.
    pub fn round_motion(&self) -> (r: MotionKind)
        ensures
            r == round_motion_of(self@.round_serial as int),
    {
        let last = ROUND_MOTIONS.len() - 1;
        let index = if (self.round_serial as usize) < last { self.round_serial as usize } else { last };
        ROUND_MOTIONS[index]
    }

    /// The circle numbered `number` is still on the board (not yet clicked).
    pub fn is_visible(&self, number: u8) -> (r: bool)
        ensures
            r == self@.visible(number as int),
    {
        number >= self.round.next && number <= self.round_params().max_number
    }

    /// The session is over: after a game over once its remark has gone, else after five rounds.
    pub fn is_finished(&self) -> (r: bool)
        ensures
            r == self@.finished(),
    {
        if self.game_over {
            return self.feedback.current().is_none();
        }
        self.tracker.total() >= ROUNDS_PER_SESSION
    }

    /// Clicks count now.
    pub fn accepts_clicks(&self) -> (r: bool)
        ensures
            r == self@.accepts_clicks(),
    {
        !self.is_finished() && self.interval_ms.is_none() && self.countdown.is_none() && !self.game_over
    }

    /// The round shown in the HUD (1-based): the rounds recorded, plus the round in play if any,
    /// kept between 1 and ROUNDS_PER_SESSION.
    pub fn current_round_number(&self) -> (r: u32)
        requires
            self.wf(),
        ensures
            ({
                let n = self@.score.total + (if !self@.finished() && self@.interval_ms is None { 1int } else { 0int });
                r == (if n < 1 { 1 } else if n > ROUNDS_PER_SESSION { ROUNDS_PER_SESSION as int } else { n })
            }),
    {
        let playing: u32 = if !self.is_finished() && self.interval_ms.is_none() { 1 } else { 0 };
        let n = self.tracker.total() + playing;
        if n < 1 { 1 } else if n > ROUNDS_PER_SESSION { ROUNDS_PER_SESSION } else { n }
    }

    pub fn tracker(&self) -> (r: &ScoreTracker)
        ensures
            r@ == self@.score,
    {
        &self.tracker
    }

    pub fn feedback(&self) -> (r: &AnswerFeedback)
        ensures
            r@ == self@.feedback,
    {
        &self.feedback
    }

    pub fn round(&self) -> (r: &Round)
        ensures
            r.circles@ == self@.circles,
            r.next == self@.next,
            r.lives == self@.lives,
            r.elapsed_ms == self@.elapsed_ms,
            r.time_since_target_ms == self@.time_since_target_ms,
    {
        &self.round
    }

    /// The round's serial number (0-based).
    pub fn round_serial(&self) -> (r: u32)
        ensures
            r == self@.round_serial,
    {
        self.round_serial
    }

    /// Time left of the pause between rounds, if one is running.
    pub fn interval_ms(&self) -> (r: Option<u64>)
        ensures
            r == self@.interval_ms,
    {
        self.interval_ms
    }

    /// The countdown that opens the round, while it runs.
    pub fn countdown(&self) -> (r: Option<CountdownState>)
        ensures
            r == self@.countdown,
    {
        self.countdown
    }

    pub fn ripple(&self) -> (r: Option<Ripple>)
        ensures
            r == self@.ripple,
    {
        self.ripple
    }

    pub fn wrong_mark(&self) -> (r: Option<WrongMark>)
        ensures
            r == self@.wrong_mark,
    {
        self.wrong_mark
    }

    /// Every life was lost or the time ran out.
    pub fn is_game_over(&self) -> (r: bool)
        ensures
            r == self@.game_over,
    {
        self.game_over
    }

    /// The layout of the round's circles on `board`: the one kept for this board and round, or
    /// a new random one (kept for later) when the board or the round changed. Either way it is a
    /// layout of the round's circles on the board at the packing of the round's difficulty (see
    /// `layout_ok`): one tier, placed well, and a circle is left out only when no room is left
    /// for it. Nothing of the session changes.
    pub fn placements(&mut self, board: Rect) -> (r: Vec<Placement>)
        requires
            old(self).wf(),
            board.wf(),
        ensures
            final(self).wf(),
            final(self)@ == old(self)@,
            old(self).kept_for(board) matches Some(kept) ==> r@ == kept,
            final(self).kept_layout() == Some((board, old(self)@.round_serial, r@)),
            layout_ok(r@, board, circle_pairs(old(self)@.circles), dense_of(old(self)@.difficulty())),
    {
        let serial = self.round_serial;
        match &self.layout {
            Some(cached) => {
                if cached.board == board && cached.round_serial == serial {
                    return cached.base.clone();
                }
            },
            None => {},
        }
        let mut pairs: Vec<(u8, CircleSize)> = Vec::new();
        let mut i: usize = 0;
        while i < self.round.circles.len()
            invariant
                i <= self.round.circles@.len(),
                pairs@ == circle_pairs(self.round.circles@).take(i as int),
            decreases self.round.circles@.len() - i,
        {
            let c = self.round.circles[i];
            pairs.push((c.number, c.size));
            assert(pairs@ =~= circle_pairs(self.round.circles@).take(i + 1));
            i = i + 1;
        }
        assert(pairs@ =~= circle_pairs(self.round.circles@));
        let dense = self.round_params().dense;
        let base = layout_circles(&mut self.rng, board, pairs.as_slice(), dense);
        let kept = base.clone();
        assert(kept@ =~= base@);
        self.layout = Some(LayoutCache { board, round_serial: serial, base: kept });
        assert(layout_ok(self.layout->0.base@, self.layout->0.board, circle_pairs(self.round.circles@),
            dense_of(self@.difficulty())));
        base
    }

    /// Ends the round just recorded: the pause before the next round starts unless the session
    /// is over.
    fn finish_round(&mut self)
        requires
            !old(self).game_over,
        ensures
            final(self).interval_ms == (if old(self).tracker@.total < ROUNDS_PER_SESSION { Some(ROUND_INTERVAL_MS) } else {
                old(self).interval_ms
            }),
            final(self).tracker == old(self).tracker,
            final(self).round == old(self).round,
            final(self).round_serial == old(self).round_serial,
            final(self).countdown == old(self).countdown,
            final(self).feedback == old(self).feedback,
            final(self).ripple == old(self).ripple,
            final(self).wrong_mark == old(self).wrong_mark,
            final(self).layout == old(self).layout,
            final(self).game_over == old(self).game_over,
    {
        if !self.is_finished() {
            self.interval_ms = Some(ROUND_INTERVAL_MS);
        }
    }

    /// The circle to click was clicked at (column, row).
    fn click_correct(&mut self, column: u16, row: u16)
        requires
            old(self).wf(),
            old(self)@.accepts_clicks(),
        ensures
            final(self).wf(),
            old(self)@.correct_clicked(final(self)@, column, row),
            final(self).layout == old(self).layout,
    {
        let size = self.round.circles[(self.round.next - 1) as usize].size;
        self.ripple = Some(Ripple::new(column, row, size));
        self.wrong_mark = None;
        self.round.next = self.round.next + 1;
        self.round.time_since_target_ms = 0;
        let max = self.round_params().max_number;
        if self.round.next > max {
            let latency = self.round.elapsed_ms;
            self.tracker.record(true, latency);
            let mut detail = String::from_str("CLEAR ");
            let seconds = seconds_tenths_string(latency);
            detail.append(seconds.as_str());
            detail.append("秒");
            proof {
                reveal_strlit("CLEAR ");
                reveal_strlit("秒");
            }
            self.feedback.record(true, detail);
            self.finish_round();
        }
    }

    /// Another circle still on the board was clicked at (column, row).
    fn click_wrong(&mut self, column: u16, row: u16)
        requires
            old(self).wf(),
            old(self)@.accepts_clicks(),
        ensures
            final(self).wf(),
            old(self)@.wrong_clicked(final(self)@, column, row),
            final(self).layout == old(self).layout,
    {
        self.wrong_mark = Some(WrongMark::new(column, row));
        self.round.lives = self.round.lives - 1;
        if self.round.lives == 0 {
            self.round.time_since_target_ms = 0;
            let fail = self.round_params().fail_latency_ms;
            self.tracker.record(false, fail);
            self.feedback.record(false, String::from_str(LIVES_OUT_TEXT));
            self.game_over = true;
        } else {
            self.feedback.record(false, String::from_str(LIFE_LOST_TEXT));
        }
    }

    /// The number to click waited TIMEOUT_LIMIT_MS: the round is recorded as failed and the
    /// session ends.
    fn time_out(&mut self)
        requires
            old(self).wf(),
            !old(self)@.recorded(),
            old(self)@.interval_ms is None,
            old(self)@.countdown is None,
        ensures
            final(self).wf(),
            final(self)@ == (CountManiaView {
                time_since_target_ms: 0,
                score: old(self)@.score.after(false, fail_latency_of(old(self)@.difficulty())),
                feedback: recorded(old(self)@.feedback, false, TIME_UP_TEXT@),
                game_over: true,
                ..old(self)@
            }),
            final(self).layout == old(self).layout,
    {
        self.round.time_since_target_ms = 0;
        let fail = self.round_params().fail_latency_ms;
        self.tracker.record(false, fail);
        self.feedback.record(false, String::from_str(TIME_UP_TEXT));
        self.game_over = true;
    }

    /// Starts the next round: its serial number moves on, its circles are dealt for its
    /// difficulty, and its countdown begins.
    fn start_next_round(&mut self)
        requires
            old(self).wf(),
            old(self)@.interval_ms is Some,
        ensures
            final(self).wf(),
            ({
                let d = round_difficulty_of(old(self)@.round_serial + 1);
                &&& final(self)@.round_serial == old(self)@.round_serial + 1
                &&& round_circles_ok(final(self)@.circles, max_number_of(d) as nat, levels_of(d))
                &&& final(self)@.next == 1
                &&& final(self)@.lives == lives_of(d)
                &&& final(self)@.elapsed_ms == 0
                &&& final(self)@.time_since_target_ms == 0
                &&& final(self)@.interval_ms is None
                &&& final(self)@.countdown matches Some(cd) && cd.elapsed() == 0
                &&& final(self)@.score == old(self)@.score
                &&& final(self)@.feedback == old(self)@.feedback
                &&& final(self)@.ripple == old(self)@.ripple
                &&& final(self)@.wrong_mark == old(self)@.wrong_mark
                &&& final(self)@.game_over == old(self)@.game_over
            }),
            final(self).layout == old(self).layout,
    {
        self.round_serial = self.round_serial + 1;
        let p = self.round_params();
        let circles = new_round_circles(&mut self.rng, &p);
        self.round = Round { circles, next: 1, lives: p.lives, elapsed_ms: 0, time_since_target_ms: 0 };
        self.interval_ms = None;
        self.countdown = Some(CountdownState::new());
    }

    /// A left click on (column, row) of `board`, tested against `placements` (the circles as
    /// they are drawn now). Clicks during the countdown or the pause, after the session or
    /// outside the board are ignored. The first placement, in order, that holds the clicked cell
    /// and whose circle is still on the board is the one hit: the circle to click next counts as
    /// correct, another as wrong; a click that hits none changes nothing.
    pub fn click_at(&mut self, board: Rect, column: u16, row: u16, placements: &Vec<Placement>) -> (r: ClickOutcome)
        requires
            old(self).wf(),
            board.wf(),
            forall|i: int| 0 <= i < placements@.len() ==> (#[trigger] placements@[i]).rect.wf(),
        ensures
            final(self).wf(),
            final(self).kept_layout() == old(self).kept_layout(),
            (r == ClickOutcome::Ignored) <==> !(old(self)@.accepts_clicks() && board.has_cell(column as int, row as int)),
            (r == ClickOutcome::Ignored || r == ClickOutcome::Missed) ==> final(self)@ == old(self)@,
            r == ClickOutcome::Missed ==> first_hit(placements@, old(self)@.next as int, old(self)@.max_number() as int,
                column as int, row as int, None),
            r matches ClickOutcome::Correct { number } ==> number == old(self)@.next
                && first_hit(placements@, old(self)@.next as int, old(self)@.max_number() as int, column as int, row as int, Some(number))
                && old(self)@.correct_clicked(final(self)@, column, row),
            r matches ClickOutcome::Wrong { number } ==> number != old(self)@.next
                && first_hit(placements@, old(self)@.next as int, old(self)@.max_number() as int, column as int, row as int, Some(number))
                && old(self)@.wrong_clicked(final(self)@, column, row),
    {
        if !self.accepts_clicks() {
            return ClickOutcome::Ignored;
        }
        if !contains(board, column, row) {
            return ClickOutcome::Ignored;
        }
        let next = self.round.next;
        let max = self.round_params().max_number;
        let visible = |n: u8| -> (b: bool)
            ensures
                b == (next <= n && n <= max),
            { next <= n && n <= max };
        let hit = hit_test(placements, visible, column, row);
        match hit {
            None => ClickOutcome::Missed,
            Some(number) => {
                if number == next {
                    self.click_correct(column, row);
                    ClickOutcome::Correct { number }
                } else {
                    self.click_wrong(column, row);
                    ClickOutcome::Wrong { number }
                }
            },
        }
    }

    /// A left click on (column, row) of `board`, tested against the round's layout for the board
    /// (see `placements`); see `click_at` for what it does. This library never moves circles;
    /// a caller that draws them elsewhere (the scattering rounds) tests clicks against the
    /// positions it draws with `click_at`.
    pub fn handle_mouse(&mut self, board: Rect, column: u16, row: u16) -> (r: ClickOutcome)
        requires
            old(self).wf(),
            board.wf(),
        ensures
            final(self).wf(),
            (r == ClickOutcome::Ignored) <==> !(old(self)@.accepts_clicks() && board.has_cell(column as int, row as int)),
            (r == ClickOutcome::Ignored || r == ClickOutcome::Missed) ==> final(self)@ == old(self)@,
            r matches ClickOutcome::Correct { number } ==> number == old(self)@.next
                && old(self)@.correct_clicked(final(self)@, column, row),
            r matches ClickOutcome::Wrong { number } ==> number != old(self)@.next && old(self)@.visible(number as int)
                && old(self)@.wrong_clicked(final(self)@, column, row),
            r == ClickOutcome::Ignored ==> final(self).kept_layout() == old(self).kept_layout(),
            r != ClickOutcome::Ignored ==> (final(self).kept_for(board) matches Some(used)
                && click_hits(old(self)@, used, column as int, row as int, r)
                && (old(self).kept_for(board) matches Some(kept) ==> used == kept)),
    {
        if !self.accepts_clicks() || !contains(board, column, row) {
            return ClickOutcome::Ignored;
        }
        let placements = self.placements(board);
        proof {
            let tier = choose|tier: int| 0 <= tier < TIER_COUNT && #[trigger] placed_well(placements@, board,
                sized_spec(tier, circle_pairs(self@.circles)),
                packing_gap_x(dense_of(self@.difficulty())), packing_gap_y(dense_of(self@.difficulty())));
            assert forall|i: int| 0 <= i < placements@.len() implies (#[trigger] placements@[i]).rect.wf() by {
                assert(crate::game::count_mania::layout::inside(placements@[i].rect, board));
            }
        }
        self.click_at(board, column, row, &placements)
    }

    /// The circles to draw over `placements` (the layout as it is drawn now); see
    /// `drawn_circles`.
    pub fn circles_to_draw(&self, placements: &Vec<Placement>) -> (r: Vec<(Placement, bool)>)
        requires
            self.wf(),
        ensures
            r@ == drawn_circles(self@, placements@),
    {
        let mut out: Vec<(Placement, bool)> = Vec::new();
        if self.countdown.is_some() || self.interval_ms.is_some() {
            proof {
                reveal_with_fuel(drawn_circles, 1);
            }
            assert(out@ =~= drawn_circles(self@, placements@));
            return out;
        }
        let blink = target_blink_on(self.round.time_since_target_ms);
        let next = self.round.next;
        let max = self.round_params().max_number;
        let mut i: usize = 0;
        while i < placements.len()
            invariant
                i <= placements@.len(),
                self@.countdown is None && self@.interval_ms is None,
                blink == blink_on_spec(self@.time_since_target_ms),
                next == self@.next,
                max == self@.max_number(),
                out@ == drawn_circles(self@, placements@.take(i as int)),
            decreases placements@.len() - i,
        {
            let p = placements[i];
            proof {
                assert(placements@.take(i + 1).drop_last() =~= placements@.take(i as int));
                assert(placements@.take(i + 1).last() == p);
            }
            if next <= p.number && p.number <= max {
                out.push((p, blink && p.number == next));
            }
            i = i + 1;
        }
        assert(placements@.take(placements@.len() as int) =~= placements@);
        out
    }

    /// The lives line of the HUD: "♥" for each life left, then "♡" for each life lost this round.
    pub fn lives_line(&self) -> (r: String)
        requires
            self.wf(),
        ensures
            r@ == lives_line_spec(self@.lives as nat, lives_of(self@.difficulty()) as nat),
    {
        let lives = self.round.lives;
        let round_lives = self.round_params().lives;
        let lost: u8 = if lives <= round_lives { round_lives - lives } else { 0 };
        let mut s = String::new();
        let mut i: u8 = 0;
        while i < lives
            invariant
                i <= lives,
                s@ == Seq::new(i as nat, |k: int| '♥'),
            decreases lives - i,
        {
            s.append("♥");
            proof {
                reveal_strlit("♥");
            }
            assert(s@ =~= Seq::new((i + 1) as nat, |k: int| '♥'));
            i = i + 1;
        }
        let mut j: u8 = 0;
        while j < lost
            invariant
                j <= lost,
                s@ == Seq::new(lives as nat, |k: int| '♥') + Seq::new(j as nat, |k: int| '♡'),
            decreases lost - j,
        {
            s.append("♡");
            proof {
                reveal_strlit("♡");
            }
            assert(s@ =~= Seq::new(lives as nat, |k: int| '♥') + Seq::new((j + 1) as nat, |k: int| '♡'));
            j = j + 1;
        }
        assert(s@ =~= Seq::new(lives as nat, |k: int| '♥') + Seq::new(lost as nat, |k: int| '♡'));
        s
    }

    /// Lets `dt_ms` pass; see `CountManiaView::updated`. A finished session stays finished, at
    /// most one round is recorded, and the layout kept for a board stays as it is (a new round
    /// makes a new one when its circles are first placed).
    pub fn update(&mut self, dt_ms: u64)
        requires
            old(self).wf(),
        ensures
            final(self).wf(),
            final(self).kept_layout() == old(self).kept_layout(),
            old(self)@.updated(final(self)@, dt_ms),
            old(self)@.finished() ==> final(self)@.finished(),
            old(self)@.score.total <= final(self)@.score.total <= old(self)@.score.total + 1,
    {
        self.feedback.tick(dt_ms);
        self.ripple = match self.ripple {
            Some(p) => p.advanced(dt_ms),
            None => None,
        };
        self.wrong_mark = match self.wrong_mark {
            Some(m) => m.advanced(dt_ms),
            None => None,
        };
        match self.countdown {
            Some(state) => {
                let mut state = state;
                let _entered = state.tick(dt_ms);
                if state.is_finished() {
                    self.countdown = None;
                } else {
                    self.countdown = Some(state);
                }
                return;
            },
            None => {},
        }
        match self.interval_ms {
            Some(remaining) => {
                let remaining = remaining.saturating_sub(dt_ms);
                if remaining == 0 {
                    self.start_next_round();
                } else {
                    self.interval_ms = Some(remaining);
                }
                return;
            },
            None => {},
        }
        if !self.is_finished() {
            self.round.elapsed_ms = self.round.elapsed_ms.saturating_add(dt_ms);
            self.round.time_since_target_ms = self.round.time_since_target_ms.saturating_add(dt_ms);
            if !self.game_over && self.round.time_since_target_ms >= TIMEOUT_LIMIT_MS {
                self.time_out();
            }
        }
    }
}

} // verus!