//! Shared pieces of every game: the difficulty, click hit tests over cell areas, and the
//! score tracker that counts the answers of a session.

pub mod choices;
pub mod count_mania;
pub mod feedback;
pub mod look_away;
pub mod mark_display;
pub mod memory;
pub mod mental_calc;
pub mod pattern_fill;
pub mod puzzle_connect;

use crate::rect::Rect;
use vstd::prelude::*;

verus! {

/// Number of questions in a session of most games.
pub const QUESTIONS_PER_SESSION: u32 = 10;

/// Number of base shapes the shape games draw from (triangle, arrow, L, T, lightning bolt, flag,
/// stairs, hook); the games name a shape by its index.
pub const BASE_SHAPE_COUNT: usize = 8;

#[derive(Clone, Copy, Debug, PartialEq, Eq, Structural)]
pub enum Difficulty {
    Beginner,
    Intermediate,
    Advanced,
}

/// The click at (column, row) lands inside `area`. Used before `column_index`/`row_index`,
/// which each look at one axis only.
pub fn contains(area: Rect, column: u16, row: u16) -> (r: bool)
    requires
        area.wf(),
    ensures
        r == area.has_cell(column as int, row as int),
{
    column >= area.x && column < area.x + area.width && row >= area.y && row < area.y
        + area.height
}

/// Which of `count` equal bands along an axis the coordinate `pos` falls into, for an area that
/// starts at `start` and spans `size` cells. The remainder of the division is added to the last
/// band. `None` when there are no bands, the area is empty, `pos` is outside, or the bands are
/// narrower than one cell.
pub open spec fn band_index(start: int, size: int, count: int, pos: int) -> Option<usize> {
    if count == 0 || size == 0 || pos < start || pos >= start + size || size / count == 0 {
        None
    } else {
        let index = (pos - start) / (size / count);
        Some((if index < count - 1 { index } else { count - 1 }) as usize)
    }
}

fn band(start: u16, size: u16, count: u16, pos: u16) -> (r: Option<usize>)
    requires
        start + size <= u16::MAX,
    ensures
        r == band_index(start as int, size as int, count as int, pos as int),
{
    if count == 0 || size == 0 {
        return None;
    }
    if pos < start || pos >= start + size {
        return None;
    }
    let relative = pos - start;
    let band_size = size / count;
    if band_size == 0 {
        return None;
    }
    let index = (relative / band_size) as usize;
    let last = count as usize - 1;
    Some(if index < last { index } else { last })
}

/// Splits `area` into `column_count` equal columns and returns the column (0-based) that the
/// click column `column` falls into; the remainder of the division belongs to the last column.
pub fn column_index(area: Rect, column: u16, column_count: u16) -> (r: Option<usize>)
    requires
        area.wf(),
    ensures
        r == band_index(area.x as int, area.width as int, column_count as int, column as int),
{
    band(area.x, area.width, column_count, column)
}

/// Splits `area` into `row_count` equal rows and returns the row (0-based) that the click row
/// `row` falls into; the remainder of the division belongs to the last row.
pub fn row_index(area: Rect, row: u16, row_count: u16) -> (r: Option<usize>)
    requires
        area.wf(),
    ensures
        r == band_index(area.y as int, area.height as int, row_count as int, row as int),
{
    band(area.y, area.height, row_count, row)
}

/// Every index that a band lookup gives names one of the bands.
pub proof fn lemma_band_index_in_range(start: int, size: int, count: int, pos: int)
    requires
        0 <= start,
        0 <= size,
        0 <= count,
    ensures
        band_index(start, size, count, pos) matches Some(i) ==> (i as int) < count,
        band_index(start, size, count, pos) is Some ==> start <= pos < start + size,
{
}

/// What a score tracker has counted: answers, correct answers, the latency of each answer in
/// milliseconds (in answer order) and the number of questions in the session.
pub struct ScoreView {
    pub correct: nat,
    pub total: nat,
    pub latencies_ms: Seq<u64>,
    pub session_length: nat,
}

impl ScoreView {
    /// The counts after one more answer, right or not, with its latency.
    pub open spec fn after(self, is_correct: bool, latency_ms: u64) -> ScoreView {
        ScoreView {
            correct: if is_correct { self.correct + 1 } else { self.correct },
            total: self.total + 1,
            latencies_ms: self.latencies_ms.push(latency_ms),
            session_length: self.session_length,
        }
    }
}

/// Counts right and wrong answers and their latencies over a session.
#[derive(Debug)]
pub struct ScoreTracker {
    correct: u32,
    total: u32,
    latencies_ms: Vec<u64>,
    session_length: u32,
}

impl View for ScoreTracker {
    type V = ScoreView;

    closed spec fn view(&self) -> ScoreView {
        ScoreView {
            correct: self.correct as nat,
            total: self.total as nat,
            latencies_ms: self.latencies_ms@,
            session_length: self.session_length as nat,
        }
    }
}

impl ScoreTracker {
    /// The counts agree with each other: one latency per answer, no more right answers than answers.
    pub closed spec fn wf(&self) -> bool {
        &&& self.correct <= self.total
        &&& self.latencies_ms@.len() == self.total
    }

    /// A session of QUESTIONS_PER_SESSION questions.
    pub fn new() -> (r: ScoreTracker)
        ensures
            r.wf(),
            r@.correct == 0,
            r@.total == 0,
            r@.latencies_ms == Seq::<u64>::empty(),
            r@.session_length == QUESTIONS_PER_SESSION,
    {
        Self::with_session_length(QUESTIONS_PER_SESSION)
    }

    /// A session of `len` questions, for games whose sessions differ from the common length.
    pub fn with_session_length(len: u32) -> (r: ScoreTracker)
        ensures
            r.wf(),
            r@.correct == 0,
            r@.total == 0,
            r@.latencies_ms == Seq::<u64>::empty(),
            r@.session_length == len,
    {
        ScoreTracker { correct: 0, total: 0, latencies_ms: Vec::new(), session_length: len }
    }

    pub fn session_length(&self) -> (r: u32)
        ensures
            r == self@.session_length,
    {
        self.session_length
    }

    /// Records one answer and its latency.
    pub fn record(&mut self, is_correct: bool, latency_ms: u64)
        requires
            old(self).wf(),
            old(self)@.total < u32::MAX,
        ensures
            final(self).wf(),
            final(self)@.total == old(self)@.total + 1,
            final(self)@.correct == old(self)@.correct + (if is_correct { 1int } else { 0int }),
            final(self)@.latencies_ms == old(self)@.latencies_ms.push(latency_ms),
            final(self)@.session_length == old(self)@.session_length,
    {
        self.total = self.total + 1;
        if is_correct {
            self.correct = self.correct + 1;
        }
        self.latencies_ms.push(latency_ms);
    }

    pub fn total(&self) -> (r: u32)
        ensures
            r == self@.total,
    {
        self.total
    }

    pub fn correct(&self) -> (r: u32)
        ensures
            r == self@.correct,
    {
        self.correct
    }

    /// The latencies of the answers so far, in milliseconds, in answer order.
    pub fn latencies_ms(&self) -> (r: &Vec<u64>)
        ensures
            r@ == self@.latencies_ms,
    {
        &self.latencies_ms
    }

    /// As many answers as the session has questions have been recorded.
    pub fn is_session_finished(&self) -> (r: bool)
        ensures
            r == (self@.total >= self@.session_length),
    {
        self.total >= self.session_length
    }
}

} // verus!
