//! Pattern fill: a 3×3 grid of shapes follows a rule, one cell is hidden, and the player picks
//! the shape that belongs there among four choices with the keys 1-4. Beginners see one shape
//! repeated, intermediates one shape per row, advanced players one shape turning by a constant
//! step from cell to cell. Ten questions of one difficulty.
//!
//! Shapes are named by their index in the drawing side's list of BASE_SHAPE_COUNT shapes;
//! angles are whole degrees. The time taken on each question is measured by the
//! caller and handed in with the answer.

use crate::game::{Difficulty, ScoreTracker, ScoreView, BASE_SHAPE_COUNT, QUESTIONS_PER_SESSION};
use crate::game::choices::{arrange, arranged, draw_order, first_position, is_order, lemma_arranged};
use crate::random::{all_distinct, lemma_reordered, random_index, shuffle};
use rand::rngs::StdRng;
use vstd::prelude::*;

verus! {

pub const GAME_ID: &'static str = "pattern_fill";

/// Choices offered per question.
pub const CHOICE_COUNT: usize = 4;

/// Cells in the grid (3×3, row by row).
pub const GRID_SIZE: usize = 9;

/// The rotation steps an advanced grid may turn by, in degrees: eight steps stay below a full
/// turn's repeats, so no two cells share an angle.
pub const STEP_POOL_DEG: [u32; 3] = [30, 40, 50];

/// What one grid cell shows: a shape, turned by an angle in degrees.
#[derive(Clone, Copy, Debug, PartialEq, Eq, Structural)]
pub struct Cell {
    pub shape_index: usize,
    pub angle_deg: u32,
}

/// `angle_deg` brought into 0..360.
pub open spec fn normalize_spec(angle_deg: int) -> int {
    angle_deg % 360
}

/// `angle_deg` brought into 0..360 (a full turn added to negative angles).
pub fn normalize_angle(angle_deg: i64) -> (r: u32)
    ensures
        r == normalize_spec(angle_deg as int),
        r < 360,
{
    let a = angle_deg % 360;
    if a < 0 {
        (a + 360) as u32
    } else {
        a as u32
    }
}

/// One question: the full grid (the hidden cell keeps the shape that belongs there), which cell
/// is hidden, four choices and the index of the right one.
#[derive(Clone, Copy, Debug)]
pub struct Question {
    pub cells: [Cell; 9],
    pub blank_index: usize,
    pub choices: [Cell; 4],
    pub correct_index: usize,
}

impl Question {
    /// The grid follows the rule of difficulty `d`, over shapes `0..shape_count`: one shape
    /// unturned everywhere (beginner); one unturned shape per row, three different ones
    /// (intermediate); one shape turned by `i` times a step of 30, 40 or 50 degrees in cell `i`
    /// (advanced).
    pub open spec fn grid_follows_rule(self, d: Difficulty, shape_count: int) -> bool {
        &&& forall|i: int| 0 <= i < 9 ==> (#[trigger] self.cells@[i]).shape_index < shape_count
        &&& match d {
            Difficulty::Beginner => forall|i: int| 0 <= i < 9 ==> #[trigger] self.cells@[i] == self.cells@[0]
                && self.cells@[i].angle_deg == 0,
            Difficulty::Intermediate => {
                &&& forall|i: int| 0 <= i < 9 ==> #[trigger] self.cells@[i] == self.cells@[row_start(i)]
                    && self.cells@[i].angle_deg == 0
                &&& self.cells@[0].shape_index != self.cells@[3].shape_index
                &&& self.cells@[0].shape_index != self.cells@[6].shape_index
                &&& self.cells@[3].shape_index != self.cells@[6].shape_index
            },
            Difficulty::Advanced => {
                let step = self.cells@[1].angle_deg as int;
                &&& step == 30 || step == 40 || step == 50
                &&& forall|i: int| 0 <= i < 9 ==> (#[trigger] self.cells@[i]).shape_index == self.cells@[0].shape_index
                    && self.cells@[i].angle_deg == normalize_spec(i * step)
            },
        }
    }

    /// A question of difficulty `d` over shapes `0..shape_count`: the grid follows the rule, the
    /// right choice is the hidden cell, and the four choices are all different: other unturned
    /// shapes for beginners; for intermediates the other rows' shapes and one shape from no row;
    /// for advanced players the same shape at angles that other cells of the grid show.
    pub open spec fn valid_for(self, d: Difficulty, shape_count: int) -> bool {
        &&& self.grid_follows_rule(d, shape_count)
        &&& self.blank_index < GRID_SIZE
        &&& self.correct_index < CHOICE_COUNT
        &&& self.choices@[self.correct_index as int] == self.cells@[self.blank_index as int]
        &&& all_distinct(self.choices@)
        &&& forall|k: int| 0 <= k < 4 ==> (#[trigger] self.choices@[k]).shape_index < shape_count
        &&& match d {
            Difficulty::Beginner => forall|k: int| 0 <= k < 4 ==> (#[trigger] self.choices@[k]).angle_deg == 0,
            Difficulty::Intermediate => {
                &&& forall|k: int| 0 <= k < 4 ==> (#[trigger] self.choices@[k]).angle_deg == 0
                &&& forall|r: int| 0 <= r < 3 ==> self.choices@.contains(#[trigger] self.cells@[r * 3])
                &&& exists|k: int| 0 <= k < 4 && #[trigger] self.choices@[k] != self.cells@[0] && self.choices@[k] != self.cells@[3]
                    && self.choices@[k] != self.cells@[6]
            },
            Difficulty::Advanced => forall|k: int| 0 <= k < 4 ==> self.cells@.contains(#[trigger] self.choices@[k]),
        }
    }
}

/// `count` different shapes from `0..n` that are not in `taken`, drawn at random one by one
/// (each uniformly among the shapes still free).
pub(crate) fn draw_distinct(rng: &mut StdRng, n: usize, taken: &Vec<usize>, count: usize) -> (r: Vec<usize>)
    requires
        all_distinct(taken@),
        forall|k: int| 0 <= k < taken@.len() ==> #[trigger] taken@[k] < n,
        taken@.len() + count <= n,
    ensures
        r@.len() == count,
        all_distinct(r@),
        forall|k: int| 0 <= k < r@.len() ==> #[trigger] r@[k] < n && !taken@.contains(r@[k]),
{
    let mut pool: Vec<usize> = Vec::new();
    let mut v: usize = 0;
    while v < n
        invariant
            v <= n,
            all_distinct(pool@),
            forall|k: int| 0 <= k < pool@.len() ==> #[trigger] pool@[k] < v && !taken@.contains(pool@[k]),
            forall|x: usize| x < v && !taken@.contains(x) ==> pool@.contains(x),
        decreases n - v,
    {
        let mut free = true;
        let mut t: usize = 0;
        while t < taken.len()
            invariant
                t <= taken@.len(),
                free <==> forall|q: int| 0 <= q < t ==> taken@[q] != v,
            decreases taken@.len() - t,
        {
            if taken[t] == v {
                free = false;
            }
            t = t + 1;
        }
        if free {
            let ghost before = pool@;
            pool.push(v);
            proof {
                assert forall|x: usize| x < v + 1 && !taken@.contains(x) implies pool@.contains(x) by {
                    if x < v {
                        assert(before.contains(x));
                        let w = choose|w: int| 0 <= w < before.len() && before[w] == x;
                        assert(pool@[w] == x);
                    } else {
                        assert(pool@[before.len() as int] == x);
                    }
                }
            }
        } else {
            proof {
                assert(taken@.contains(v));
            }
        }
        v = v + 1;
    }
    proof {
        // every value below n is either taken or in the pool, and the taken ones are distinct
        lemma_free_count(taken@, pool@, n as int);
    }
    let mut out: Vec<usize> = Vec::new();
    while out.len() < count
        invariant
            out@.len() <= count,
            pool@.len() + out@.len() >= count,
            all_distinct(pool@),
            all_distinct(out@),
            forall|k: int| 0 <= k < pool@.len() ==> #[trigger] pool@[k] < n && !taken@.contains(pool@[k]),
            forall|k: int| 0 <= k < out@.len() ==> #[trigger] out@[k] < n && !taken@.contains(out@[k]),
            forall|a: int, b: int| 0 <= a < pool@.len() && 0 <= b < out@.len() ==> #[trigger] pool@[a] != #[trigger] out@[b],
        decreases count - out@.len(),
    {
        let k = random_index(rng, pool.len());
        let ghost pool_before = pool@;
        let ghost out_before = out@;
        let item = pool.remove(k);
        out.push(item);
        proof {
            assert forall|a: int, b: int| 0 <= a < pool@.len() && 0 <= b < out@.len() implies #[trigger] pool@[a] != #[trigger] out@[b] by {
                let a0 = if a < k { a } else { a + 1 };
                assert(pool@[a] == pool_before[a0]);
                if b < out_before.len() {
                    assert(out@[b] == out_before[b]);
                }
            }
            assert forall|a: int, b: int| 0 <= a < out@.len() && 0 <= b < out@.len() && a != b implies out@[a] != out@[b] by {
                if a < out_before.len() && b < out_before.len() {
                } else if a < out_before.len() {
                    assert(pool_before[k as int] != out_before[a]);
                } else {
                    assert(pool_before[k as int] != out_before[b]);
                }
            }
            assert forall|a: int, b: int| 0 <= a < pool@.len() && 0 <= b < pool@.len() && a != b implies pool@[a] != pool@[b] by {
                let a0 = if a < k { a } else { a + 1 };
                let b0 = if b < k { b } else { b + 1 };
                assert(pool@[a] == pool_before[a0]);
                assert(pool@[b] == pool_before[b0]);
            }
        }
    }
    out
}

/// With every value below `n` either in `taken` or in `pool`, and no value twice in either,
/// the two together hold at least `n` values.
proof fn lemma_free_count(taken: Seq<usize>, pool: Seq<usize>, n: int)
    requires
        0 <= n <= usize::MAX,
        all_distinct(taken),
        all_distinct(pool),
        forall|k: int| 0 <= k < taken.len() ==> #[trigger] taken[k] < n,
        forall|x: usize| x < n && !taken.contains(x) ==> pool.contains(x),
    ensures
        taken.len() + pool.len() >= n,
{
    let ti = taken.map_values(|x: usize| x as int);
    let pi = pool.map_values(|x: usize| x as int);
    let all = vstd::set_lib::set_int_range(0, n);
    vstd::set_lib::lemma_int_range(0, n);
    let ts = ti.to_set();
    let ps = pi.to_set();
    assert forall|x: int| all.contains(x) implies ts.union(ps).contains(x) by {
        assert(0 <= x < n);
        let u = x as usize;
        assert(u as int == x);
        if taken.contains(u) {
            let w = choose|w: int| 0 <= w < taken.len() && taken[w] == u;
            assert(ti[w] == x);
            assert(ti.contains(x));
        } else {
            assert(pool.contains(u));
            let w = choose|w: int| 0 <= w < pool.len() && pool[w] == u;
            assert(pi[w] == x);
            assert(pi.contains(x));
        }
    }
    vstd::seq_lib::seq_to_set_is_finite(ti);
    vstd::seq_lib::seq_to_set_is_finite(pi);
    vstd::set_lib::lemma_len_subset(all, ts.union(ps));
    vstd::set_lib::lemma_len_union(ts, ps);
    assert(ti.no_duplicates());
    assert(pi.no_duplicates());
    ti.unique_seq_to_set();
    pi.unique_seq_to_set();
}

/// The angle of cell `i` of an advanced grid turning by `step` degrees per cell.
pub open spec fn advanced_angle(i: int, step: int) -> int {
    normalize_spec(i * step)
}

/// With a step of 30, 40 or 50 degrees, the nine cells of an advanced grid show nine different
/// angles.
pub proof fn lemma_advanced_angles_distinct(i: int, j: int, step: int)
    requires
        0 <= i < 9,
        0 <= j < 9,
        i != j,
        step == 30 || step == 40 || step == 50,
    ensures
        advanced_angle(i, step) != advanced_angle(j, step),
{
    if step == 30 {
        assert(0 <= i * 30 < 360 && 0 <= j * 30 < 360);
    } else if step == 40 {
        assert(0 <= i * 40 < 360 && 0 <= j * 40 < 360);
    } else {
        if i < 8 && j < 8 {
            assert(0 <= i * 50 < 360 && 0 <= j * 50 < 360);
        } else if i == 8 {
            assert((8 * 50) % 360 == 40);
            assert(0 <= j * 50 < 360);
        } else {
            assert((8 * 50) % 360 == 40);
            assert(0 <= i * 50 < 360);
        }
    }
}

/// The first cell of the row that cell `i` is in.
pub open spec fn row_start(i: int) -> int {
    if i < 3 { 0 } else if i < 6 { 3 } else { 6 }
}

/// The values drawn for one question: the hidden cell, the grid's shapes (beginners and advanced
/// players use the first; intermediates one per row) and, for advanced players, the step; the
/// wrong choices' shapes (beginners: three; intermediates: the first, a shape from no row) or,
/// for advanced players, their angles; and the order in which the four choices (the right one
/// first) are shown. Fields a difficulty does not use are ignored.
#[derive(Clone, Copy, Debug)]
pub struct PatternDraws {
    pub blank_index: usize,
    pub shapes: [usize; 3],
    pub step: u32,
    pub extras: [usize; 3],
    pub angles: [u32; 3],
    pub order: [usize; 4],
}

/// Values that a question of difficulty `d` can draw (see `PatternDraws`).
pub open spec fn draws_ok(d: Difficulty, dr: PatternDraws) -> bool {
    &&& dr.blank_index < GRID_SIZE
    &&& is_order(dr.order@)
    &&& match d {
        Difficulty::Beginner => {
            &&& dr.shapes@[0] < BASE_SHAPE_COUNT
            &&& all_distinct(dr.extras@)
            &&& forall|k: int| 0 <= k < 3 ==> #[trigger] dr.extras@[k] < BASE_SHAPE_COUNT && dr.extras@[k] != dr.shapes@[0]
        },
        Difficulty::Intermediate => {
            &&& all_distinct(dr.shapes@)
            &&& forall|k: int| 0 <= k < 3 ==> #[trigger] dr.shapes@[k] < BASE_SHAPE_COUNT
            &&& dr.extras@[0] < BASE_SHAPE_COUNT
            &&& !dr.shapes@.contains(dr.extras@[0])
        },
        Difficulty::Advanced => {
            &&& (dr.step == 30 || dr.step == 40 || dr.step == 50)
            &&& dr.shapes@[0] < BASE_SHAPE_COUNT
            &&& all_distinct(dr.angles@)
            &&& forall|k: int| 0 <= k < 3 ==> #[trigger] dr.angles@[k] != advanced_angle(dr.blank_index as int, dr.step as int)
                && exists|c: int| 0 <= c < 9 && advanced_angle(c, dr.step as int) == dr.angles@[k]
        },
    }
}

/// Cell `i` of the grid drawn as `dr` for difficulty `d`: the shape unturned (beginner), the
/// row's shape unturned (intermediate), or the shape turned by `i` steps (advanced).
pub open spec fn grid_cell(d: Difficulty, dr: PatternDraws, i: int) -> Cell {
    match d {
        Difficulty::Beginner => Cell { shape_index: dr.shapes@[0], angle_deg: 0 },
        Difficulty::Intermediate => Cell { shape_index: dr.shapes@[i / 3], angle_deg: 0 },
        Difficulty::Advanced => Cell { shape_index: dr.shapes@[0], angle_deg: advanced_angle(i, dr.step as int) as u32 },
    }
}

/// The grid drawn as `dr` for difficulty `d`.
pub open spec fn grid_of(d: Difficulty, dr: PatternDraws) -> Seq<Cell> {
    Seq::new(9, |i: int| grid_cell(d, dr, i))
}

/// The two rows other than row `r`, in order.
pub open spec fn other_rows(r: int) -> (int, int) {
    if r == 0 { (1, 2) } else if r == 1 { (0, 2) } else { (0, 1) }
}

/// The choices before they are ordered: the hidden cell first, then the wrong ones (beginner:
/// the three other shapes; intermediate: the other rows' shapes in row order, then the shape
/// from no row; advanced: the shape at the three other angles).
pub open spec fn listed_choices(d: Difficulty, dr: PatternDraws) -> Seq<Cell> {
    let right = grid_cell(d, dr, dr.blank_index as int);
    match d {
        Difficulty::Beginner => seq![right, Cell { shape_index: dr.extras@[0], angle_deg: 0 },
            Cell { shape_index: dr.extras@[1], angle_deg: 0 }, Cell { shape_index: dr.extras@[2], angle_deg: 0 }],
        Difficulty::Intermediate => {
            let (o0, o1) = other_rows(dr.blank_index as int / 3);
            seq![right, Cell { shape_index: dr.shapes@[o0], angle_deg: 0 }, Cell { shape_index: dr.shapes@[o1], angle_deg: 0 },
                Cell { shape_index: dr.extras@[0], angle_deg: 0 }]
        },
        Difficulty::Advanced => seq![right, Cell { shape_index: dr.shapes@[0], angle_deg: dr.angles@[0] },
            Cell { shape_index: dr.shapes@[0], angle_deg: dr.angles@[1] }, Cell { shape_index: dr.shapes@[0], angle_deg: dr.angles@[2] }],
    }
}

/// `q` is the question of difficulty `d` built from the values `dr`: the grid, the hidden cell,
/// and the choices in the drawn order, with the position that the right one took.
pub open spec fn built_from(q: Question, d: Difficulty, dr: PatternDraws) -> bool {
    &&& q.cells@ == grid_of(d, dr)
    &&& q.blank_index == dr.blank_index
    &&& q.choices@ == arranged(listed_choices(d, dr), dr.order@)
    &&& q.correct_index == first_position(dr.order@)
}

/// The grid drawn as `draws` for `difficulty`; see `grid_of`.
fn grid_cells(difficulty: Difficulty, draws: &PatternDraws) -> (r: [Cell; 9])
    requires
        difficulty == Difficulty::Advanced ==> draws.step <= 50,
    ensures
        r@ == grid_of(difficulty, *draws),
{
    let mut cells = [Cell { shape_index: 0, angle_deg: 0 }; 9];
    let mut i: usize = 0;
    while i < 9
        invariant
            i <= 9,
            difficulty == Difficulty::Advanced ==> draws.step <= 50,
            forall|k: int| 0 <= k < i ==> #[trigger] cells@[k] == grid_cell(difficulty, *draws, k),
        decreases 9 - i,
    {
        let cell = match difficulty {
            Difficulty::Beginner => Cell { shape_index: draws.shapes[0], angle_deg: 0 },
            Difficulty::Intermediate => Cell { shape_index: draws.shapes[i / 3], angle_deg: 0 },
            Difficulty::Advanced => {
                assert(0 <= (i as int) * (draws.step as int) <= 450) by (nonlinear_arith)
                    requires
                        i < 9,
                        draws.step <= 50,
                ;
                Cell { shape_index: draws.shapes[0], angle_deg: normalize_angle(i as i64 * draws.step as i64) }
            },
        };
        cells[i] = cell;
        i = i + 1;
    }
    assert(cells@ =~= grid_of(difficulty, *draws));
    cells
}

/// The question of `difficulty` built from the drawn values `draws`; see `built_from`. It is
/// valid for `difficulty` over the base shapes.
pub fn build_question(difficulty: Difficulty, draws: PatternDraws) -> (r: Question)
    requires
        draws_ok(difficulty, draws),
    ensures
        built_from(r, difficulty, draws),
        r.valid_for(difficulty, BASE_SHAPE_COUNT as int),
{
    let cells = grid_cells(difficulty, &draws);
    let blank_index = draws.blank_index;
    let right = cells[blank_index];
    let listed: [Cell; 4] = match difficulty {
        Difficulty::Beginner => [
            right,
            Cell { shape_index: draws.extras[0], angle_deg: 0 },
            Cell { shape_index: draws.extras[1], angle_deg: 0 },
            Cell { shape_index: draws.extras[2], angle_deg: 0 },
        ],
        Difficulty::Intermediate => {
            let row = blank_index / 3;
            let (o0, o1): (usize, usize) = if row == 0 { (1, 2) } else if row == 1 { (0, 2) } else { (0, 1) };
            [
                right,
                Cell { shape_index: draws.shapes[o0], angle_deg: 0 },
                Cell { shape_index: draws.shapes[o1], angle_deg: 0 },
                Cell { shape_index: draws.extras[0], angle_deg: 0 },
            ]
        },
        Difficulty::Advanced => [
            right,
            Cell { shape_index: draws.shapes[0], angle_deg: draws.angles[0] },
            Cell { shape_index: draws.shapes[0], angle_deg: draws.angles[1] },
            Cell { shape_index: draws.shapes[0], angle_deg: draws.angles[2] },
        ],
    };
    assert(listed@ =~= listed_choices(difficulty, draws));
    proof {
        lemma_listed_valid(difficulty, draws);
        lemma_arranged(listed@, draws.order@);
    }
    let (choices, correct_index) = arrange(listed, draws.order);
    let q = Question { cells, blank_index, choices, correct_index };
    proof {
        lemma_built_valid(q, difficulty, draws);
    }
    q
}

/// The listed choices of good draws are different and belong to the difficulty.
proof fn lemma_listed_valid(d: Difficulty, dr: PatternDraws)
    requires
        draws_ok(d, dr),
    ensures
        all_distinct(listed_choices(d, dr)),
        forall|k: int| 0 <= k < 4 ==> (#[trigger] listed_choices(d, dr)[k]).shape_index < BASE_SHAPE_COUNT,
        d != Difficulty::Advanced ==> forall|k: int| 0 <= k < 4 ==> (#[trigger] listed_choices(d, dr)[k]).angle_deg == 0,
        d == Difficulty::Advanced ==> forall|k: int| 0 <= k < 4 ==> grid_of(d, dr).contains(#[trigger] listed_choices(d, dr)[k]),
        d == Difficulty::Intermediate ==> forall|r: int| 0 <= r < 3 ==> listed_choices(d, dr).contains(#[trigger] grid_of(d, dr)[r * 3]),
        d == Difficulty::Intermediate ==> listed_choices(d, dr)[3] != grid_of(d, dr)[0] && listed_choices(d, dr)[3]
            != grid_of(d, dr)[3] && listed_choices(d, dr)[3] != grid_of(d, dr)[6],
{
    let l = listed_choices(d, dr);
    let g = grid_of(d, dr);
    let b = dr.blank_index as int;
    match d {
        Difficulty::Beginner => {
            assert forall|i: int, j: int| 0 <= i < 4 && 0 <= j < 4 && i != j implies l[i] != l[j] by {
                if i > 0 && j > 0 {
                    assert(dr.extras@[i - 1] != dr.extras@[j - 1]);
                } else if i == 0 {
                    assert(dr.extras@[j - 1] != dr.shapes@[0]);
                } else {
                    assert(dr.extras@[i - 1] != dr.shapes@[0]);
                }
            }
            assert forall|k: int| 0 <= k < 4 implies (#[trigger] l[k]).shape_index < BASE_SHAPE_COUNT by {
                if k > 0 {
                    assert(dr.extras@[k - 1] < BASE_SHAPE_COUNT);
                }
            }
        },
        Difficulty::Intermediate => {
            let r = b / 3;
            let (o0, o1) = other_rows(r);
            assert(0 <= r < 3);
            assert(dr.shapes@[0] != dr.shapes@[1] && dr.shapes@[0] != dr.shapes@[2] && dr.shapes@[1] != dr.shapes@[2]);
            assert(dr.shapes@.contains(dr.shapes@[0]) && dr.shapes@.contains(dr.shapes@[1]) && dr.shapes@.contains(dr.shapes@[2]));
            assert(dr.extras@[0] != dr.shapes@[0] && dr.extras@[0] != dr.shapes@[1] && dr.extras@[0] != dr.shapes@[2]);
            assert(l[0] == Cell { shape_index: dr.shapes@[r], angle_deg: 0 });
            assert forall|i: int, j: int| 0 <= i < 4 && 0 <= j < 4 && i != j implies l[i] != l[j] by {
            }
            assert forall|k: int| 0 <= k < 4 implies (#[trigger] l[k]).shape_index < BASE_SHAPE_COUNT by {
                assert(dr.shapes@[0] < BASE_SHAPE_COUNT && dr.shapes@[1] < BASE_SHAPE_COUNT && dr.shapes@[2] < BASE_SHAPE_COUNT);
            }
            assert forall|q: int| 0 <= q < 3 implies l.contains(#[trigger] g[q * 3]) by {
                assert(g[q * 3] == Cell { shape_index: dr.shapes@[q], angle_deg: 0 });
                if q == r {
                    assert(l[0] == g[q * 3]);
                } else if q == o0 {
                    assert(l[1] == g[q * 3]);
                } else {
                    assert(l[2] == g[q * 3]);
                }
            }
            assert(g[0] == Cell { shape_index: dr.shapes@[0], angle_deg: 0 });
            assert(g[3] == Cell { shape_index: dr.shapes@[1], angle_deg: 0 });
            assert(g[6] == Cell { shape_index: dr.shapes@[2], angle_deg: 0 });
        },
        Difficulty::Advanced => {
            let right_angle = advanced_angle(b, dr.step as int);
            assert(0 <= right_angle < 360);
            assert(l[0] == g[b]);
            assert forall|i: int, j: int| 0 <= i < 4 && 0 <= j < 4 && i != j implies l[i] != l[j] by {
                if i > 0 && j > 0 {
                    assert(dr.angles@[i - 1] != dr.angles@[j - 1]);
                } else if i == 0 {
                    assert(dr.angles@[j - 1] != right_angle);
                } else {
                    assert(dr.angles@[i - 1] != right_angle);
                }
            }
            assert forall|k: int| 0 <= k < 4 implies g.contains(#[trigger] l[k]) by {
                if k == 0 {
                    assert(g[b] == l[0]);
                } else {
                    let c = choose|c: int| 0 <= c < 9 && advanced_angle(c, dr.step as int) == dr.angles@[k - 1];
                    assert(0 <= advanced_angle(c, dr.step as int) < 360);
                    assert(g[c] == l[k]);
                }
            }
        },
    }
}

/// A question built from good draws is valid for its difficulty.
proof fn lemma_built_valid(q: Question, d: Difficulty, dr: PatternDraws)
    requires
        draws_ok(d, dr),
        q.cells@ == grid_of(d, dr),
        q.blank_index == dr.blank_index,
        q.choices@ == arranged(listed_choices(d, dr), dr.order@),
        q.correct_index == first_position(dr.order@),
    ensures
        q.valid_for(d, BASE_SHAPE_COUNT as int),
{
    let l = listed_choices(d, dr);
    let g = grid_of(d, dr);
    lemma_listed_valid(d, dr);
    lemma_arranged(l, dr.order@);
    assert(l[0] == g[dr.blank_index as int]);
    assert forall|k: int| 0 <= k < 4 implies l.contains(#[trigger] q.choices@[k]) by {
        assert(q.choices@.contains(q.choices@[k]));
    }
    match d {
        Difficulty::Beginner => {
            assert forall|i: int| 0 <= i < 9 implies #[trigger] q.cells@[i] == q.cells@[0] && q.cells@[i].angle_deg == 0 by {}
            assert(q.grid_follows_rule(d, BASE_SHAPE_COUNT as int));
        },
        Difficulty::Intermediate => {
            assert forall|i: int| 0 <= i < 9 implies #[trigger] q.cells@[i] == q.cells@[row_start(i)] && q.cells@[i].angle_deg == 0 by {
                assert(i / 3 == row_start(i) / 3);
            }
            assert(dr.shapes@[0] != dr.shapes@[1] && dr.shapes@[0] != dr.shapes@[2] && dr.shapes@[1] != dr.shapes@[2]);
            assert forall|i: int| 0 <= i < 9 implies (#[trigger] q.cells@[i]).shape_index < BASE_SHAPE_COUNT by {
                assert(dr.shapes@[i / 3] < BASE_SHAPE_COUNT);
            }
            assert(q.grid_follows_rule(d, BASE_SHAPE_COUNT as int));
            assert(l.contains(l[3])) by {
                assert(l[3] == l[3]);
            }
            assert(q.choices@.contains(l[3]));
            let k = choose|k: int| 0 <= k < 4 && q.choices@[k] == l[3];
            assert(q.choices@[k] != q.cells@[0] && q.choices@[k] != q.cells@[3] && q.choices@[k] != q.cells@[6]);
            assert forall|r: int| 0 <= r < 3 implies q.choices@.contains(#[trigger] q.cells@[r * 3]) by {
                assert(l.contains(g[r * 3]));
            }
        },
        Difficulty::Advanced => {
            assert(g[1].angle_deg == dr.step);
            assert forall|i: int| 0 <= i < 9 implies (#[trigger] q.cells@[i]).shape_index == q.cells@[0].shape_index
                && q.cells@[i].angle_deg == normalize_spec(i * (q.cells@[1].angle_deg as int)) by {
                assert(0 <= advanced_angle(i, dr.step as int) < 360);
            }
            assert(q.grid_follows_rule(d, BASE_SHAPE_COUNT as int));
            assert forall|k: int| 0 <= k < 4 implies q.cells@.contains(#[trigger] q.choices@[k]) by {
                assert(l.contains(q.choices@[k]));
                let m = choose|m: int| 0 <= m < 4 && l[m] == q.choices@[k];
                assert(g.contains(l[m]));
            }
        },
    }
}

/// Three other angles of an advanced grid for the wrong choices: the grid's angles other than
/// the hidden cell's, in cell order, shuffled, and the first three taken.
fn pick_other_angles(rng: &mut StdRng, cells: &[Cell; 9], blank_index: usize) -> (r: [u32; 3])
    requires
        blank_index < 9,
        cells@[1].angle_deg == 30 || cells@[1].angle_deg == 40 || cells@[1].angle_deg == 50,
        forall|k: int| 0 <= k < 9 ==> (#[trigger] cells@[k]).shape_index == cells@[0].shape_index
            && cells@[k].angle_deg == advanced_angle(k, cells@[1].angle_deg as int),
    ensures
        all_distinct(r@),
        forall|m: int| 0 <= m < 3 ==> #[trigger] r@[m] != cells@[blank_index as int].angle_deg
            && exists|c: int| 0 <= c < 9 && cells@[c].angle_deg == r@[m],
{
    let correct_cell = cells[blank_index];
    let mut angles: Vec<u32> = Vec::new();
    let mut i: usize = 0;
    while i < GRID_SIZE
        invariant
            i <= 9,
            angles@.len() == (if i <= blank_index { i as int } else { i - 1 }),
            blank_index < 9,
            all_distinct(angles@),
            cells@[1].angle_deg == 30 || cells@[1].angle_deg == 40 || cells@[1].angle_deg == 50,
            forall|k: int| 0 <= k < 9 ==> (#[trigger] cells@[k]).shape_index == cells@[0].shape_index
                && cells@[k].angle_deg == advanced_angle(k, cells@[1].angle_deg as int),
            correct_cell == cells@[blank_index as int],
            forall|k: int| 0 <= k < angles@.len() ==> #[trigger] angles@[k] != correct_cell.angle_deg
                && exists|c: int| 0 <= c < 9 && cells@[c].angle_deg == angles@[k],
            forall|k: int, c: int| 0 <= k < angles@.len() && i <= c < 9 ==> #[trigger] angles@[k] != #[trigger] cells@[c].angle_deg,
        decreases 9 - i,
    {
        if cells[i].angle_deg != correct_cell.angle_deg {
            let ghost before = angles@;
            angles.push(cells[i].angle_deg);
            proof {
                assert forall|k: int, c: int| 0 <= k < angles@.len() && i + 1 <= c < 9 implies #[trigger] angles@[k] != #[trigger] cells@[c].angle_deg by {
                    if k == before.len() {
                        lemma_advanced_angles_distinct(i as int, c, cells@[1].angle_deg as int);
                    }
                }
                assert forall|a: int, b: int| 0 <= a < angles@.len() && 0 <= b < angles@.len() && a != b implies angles@[a] != angles@[b] by {
                    if a == before.len() {
                        assert(before[b] != cells@[i as int].angle_deg);
                    } else if b == before.len() {
                        assert(before[a] != cells@[i as int].angle_deg);
                    }
                }
            }
        } else {
            proof {
                if i != blank_index {
                    lemma_advanced_angles_distinct(i as int, blank_index as int, cells@[1].angle_deg as int);
                }
            }
        }
        i = i + 1;
    }
    let ghost listed = angles@;
    shuffle(rng, &mut angles);
    proof {
        lemma_reordered(listed, angles@);
    }
    proof {
        assert forall|m: int| 0 <= m < 8 implies #[trigger] angles@[m] != correct_cell.angle_deg
            && exists|c: int| 0 <= c < 9 && cells@[c].angle_deg == angles@[m] by {
            assert(angles@.contains(angles@[m]));
            assert(listed.contains(angles@[m]));
        }
    }
    let picked = [angles[0], angles[1], angles[2]];
    proof {
        assert(picked@[0] == angles@[0] && picked@[1] == angles@[1] && picked@[2] == angles@[2]);
        assert forall|x: int, y: int| 0 <= x < 3 && 0 <= y < 3 && x != y implies picked@[x] != picked@[y] by {
            assert(angles@[x] != angles@[y]);
        }
    }
    picked
}

/// A random question of difficulty `difficulty` over the base shapes. The hidden cell is drawn
/// first, then the grid (beginners: a shape; intermediates: three different shapes; advanced: a
/// step, then a shape), then the wrong choices (beginners: three other shapes; intermediates: a
/// shape from no row; advanced: three other angles of the grid), each shape uniformly among those
/// still free, and last the order of the choices; the question is built from them (see
/// `build_question`).
pub fn generate_question(rng: &mut StdRng, difficulty: Difficulty) -> (r: Question)
    ensures
        exists|dr: PatternDraws| draws_ok(difficulty, dr) && #[trigger] built_from(r, difficulty, dr),
        r.valid_for(difficulty, BASE_SHAPE_COUNT as int),
{
    let n = BASE_SHAPE_COUNT;
    let blank_index = random_index(rng, GRID_SIZE);
    let mut draws = PatternDraws { blank_index, shapes: [0, 0, 0], step: 0, extras: [0, 0, 0], angles: [0, 0, 0], order: [0, 1, 2, 3] };
    match difficulty {
        Difficulty::Beginner => {
            let shape = random_index(rng, n);
            let taken = vec![shape];
            let extras = draw_distinct(rng, n, &taken, 3);
            proof {
                assert(taken@[0] == shape);
                assert(taken@.contains(shape));
            }
            draws.shapes = [shape, 0, 0];
            draws.extras = [extras[0], extras[1], extras[2]];
            proof {
                assert(draws.extras@ =~= extras@);
                assert(draws.shapes@[0] == shape);
                assert forall|k: int| 0 <= k < 3 implies #[trigger] draws.extras@[k] < BASE_SHAPE_COUNT && draws.extras@[k] != draws.shapes@[0] by {
                    assert(!taken@.contains(extras@[k]));
                }
            }
        },
        Difficulty::Intermediate => {
            let none: Vec<usize> = Vec::new();
            let rows = draw_distinct(rng, n, &none, 3);
            let extra = draw_distinct(rng, n, &rows, 1);
            draws.shapes = [rows[0], rows[1], rows[2]];
            draws.extras = [extra[0], 0, 0];
            proof {
                assert(draws.shapes@ =~= rows@);
                assert(draws.extras@[0] == extra@[0]);
                assert(!rows@.contains(extra@[0]));
            }
        },
        Difficulty::Advanced => {
            let step = STEP_POOL_DEG[random_index(rng, 3)];
            let shape = random_index(rng, n);
            draws.step = step;
            draws.shapes = [shape, 0, 0];
            let cells = grid_cells(difficulty, &draws);
            proof {
                assert(step == 30 || step == 40 || step == 50);
                assert(cells@[1] == grid_cell(difficulty, draws, 1));
                assert(advanced_angle(1, step as int) == step as int);
                assert(cells@[1].angle_deg == step);
                assert forall|k: int| 0 <= k < 9 implies (#[trigger] cells@[k]).shape_index == cells@[0].shape_index
                    && cells@[k].angle_deg == advanced_angle(k, cells@[1].angle_deg as int) by {
                    assert(0 <= advanced_angle(k, step as int) < 360);
                }
            }
            let angles = pick_other_angles(rng, &cells, blank_index);
            draws.angles = angles;
            proof {
                assert(0 <= advanced_angle(blank_index as int, step as int) < 360);
                assert forall|m: int| 0 <= m < 3 implies #[trigger] draws.angles@[m] != advanced_angle(draws.blank_index as int, draws.step as int)
                    && exists|c: int| 0 <= c < 9 && advanced_angle(c, draws.step as int) == draws.angles@[m] by {
                    let c = choose|c: int| 0 <= c < 9 && cells@[c].angle_deg == angles@[m];
                    assert(0 <= advanced_angle(c, step as int) < 360);
                    assert(cells@[c] == grid_cell(difficulty, draws, c));
                    assert(draws.angles@[m] == angles@[m]);
                    assert(advanced_angle(c, draws.step as int) == draws.angles@[m]);
                    assert(cells@[blank_index as int] == grid_cell(difficulty, draws, blank_index as int));
                }
            }
        },
    }
    let ghost before_order = draws;
    draws.order = draw_order(rng);
    assert(draws.shapes == before_order.shapes && draws.extras == before_order.extras && draws.angles == before_order.angles);
    assert(draws.blank_index < GRID_SIZE);
    assert(is_order(draws.order@));
    assert(difficulty == Difficulty::Advanced ==> (draws.step == 30 || draws.step == 40 || draws.step == 50));
    assert(difficulty == Difficulty::Advanced ==> all_distinct(draws.angles@));
    assert(difficulty == Difficulty::Intermediate ==> all_distinct(draws.shapes@));
    build_question(difficulty, draws)
}

/// What a session holds.
pub struct PatternFillView {
    pub difficulty: Difficulty,
    pub score: ScoreView,
    pub current: Question,
}

impl PatternFillView {
    pub open spec fn finished(self) -> bool {
        self.score.total >= self.score.session_length
    }

    /// The session's invariant: ten questions at most, and the question in hand belongs to the
    /// session's difficulty.
    pub open spec fn valid(self) -> bool {
        &&& self.score.session_length == QUESTIONS_PER_SESSION
        &&& self.score.total <= QUESTIONS_PER_SESSION
        &&& self.current.valid_for(self.difficulty, BASE_SHAPE_COUNT as int)
    }

    /// `next` is this state after choice `index` was picked `latency_ms` after the question
    /// appeared: recorded (right when it is the right choice), and unless the session is over a
    /// new question of the same difficulty, built from values drawn for it (see
    /// `build_question`).
    pub open spec fn answered(self, next: PatternFillView, index: int, latency_ms: u64) -> bool {
        &&& next.difficulty == self.difficulty
        &&& next.score == self.score.after(index == self.current.correct_index, latency_ms)
        &&& next.finished() ==> next.current == self.current
        &&& !next.finished() ==> exists|dr: PatternDraws| draws_ok(self.difficulty, dr) && #[trigger] built_from(next.current,
            self.difficulty, dr)
    }
}

/// One session of pattern fill.
pub struct PatternFillGame {
    difficulty: Difficulty,
    tracker: ScoreTracker,
    current: Question,
    rng: StdRng,
}

impl View for PatternFillGame {
    type V = PatternFillView;

    closed spec fn view(&self) -> PatternFillView {
        PatternFillView {
            difficulty: self.difficulty,
            score: self.tracker@,
            current: self.current,
        }
    }
}

impl PatternFillGame {
    pub closed spec fn wf(&self) -> bool {
        self.tracker.wf() && self@.valid()
    }

    /// The session's invariant holds of a well-formed game.
    pub proof fn lemma_valid(&self)
        requires
            self.wf(),
        ensures
            self@.valid(),
    {
    }


    /// A new session of `difficulty` drawing its questions from `rng`.
    pub fn with_rng(difficulty: Difficulty, rng: StdRng) -> (r: PatternFillGame)
        ensures
            r.wf(),
            r@.difficulty == difficulty,
            r@.score.total == 0,
            r@.score.correct == 0,
    {
        let mut rng = rng;
        let current = generate_question(&mut rng, difficulty);
        PatternFillGame { difficulty, tracker: ScoreTracker::new(), current, rng }
    }

    pub fn difficulty(&self) -> (r: Difficulty)
        ensures
            r == self@.difficulty,
    {
        self.difficulty
    }

    pub fn tracker(&self) -> (r: &ScoreTracker)
        ensures
            r@ == self@.score,
    {
        &self.tracker
    }

    pub fn current(&self) -> (r: &Question)
        ensures
            *r == self@.current,
    {
        &self.current
    }

    /// All ten questions are answered.
    pub fn is_finished(&self) -> (r: bool)
        ensures
            r == self@.finished(),
    {
        self.tracker.is_session_finished()
    }

    /// Records the pick of choice `answered_index`, `latency_ms` after the question appeared,
    /// and moves on to a new question unless the session is over.
    fn advance_question(&mut self, answered_index: usize, latency_ms: u64)
        requires
            old(self).wf(),
            !old(self)@.finished(),
        ensures
            final(self).wf(),
            old(self)@.answered(final(self)@, answered_index as int, latency_ms),
    {
        let is_correct = answered_index == self.current.correct_index;
        self.tracker.record(is_correct, latency_ms);
        if !self.tracker.is_session_finished() {
            self.current = generate_question(&mut self.rng, self.difficulty);
            proof {
                let dr = choose|dr: PatternDraws| draws_ok(self.difficulty, dr) && #[trigger] built_from(self.current,
                    self.difficulty, dr);
                assert(built_from(self@.current, self.difficulty, dr));
            }
        }
    }

    /// A key during the session: '1' to '4' pick that choice (see `PatternFillView::answered`);
    /// other keys, and every key once the session is over, do nothing.
    pub fn handle_key(&mut self, key: char, latency_ms: u64)
        requires
            old(self).wf(),
        ensures
            final(self).wf(),
            (old(self)@.finished() || !('1' <= key <= '4')) ==> final(self)@ == old(self)@,
            (!old(self)@.finished() && '1' <= key <= '4') ==> old(self)@.answered(final(self)@,
                key as int - '1' as int, latency_ms),
    {
        if self.is_finished() {
            return;
        }
        if key >= '1' && key <= '4' {
            let index = (key as u32 - '1' as u32) as usize;
            self.advance_question(index, latency_ms);
        }
    }
}

} // verus!
