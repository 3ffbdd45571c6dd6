//! Placement of the numbered circles of Count Mania, and the click hit test.
//!
//! A circle's size is the number of terminal cells it covers. Cells are about twice as tall as
//! wide, so a circle twice as wide as it is tall looks round. The play area is a grid of cells;
//! each circle gets a rectangle, and the rectangles are placed at random without coming closer
//! than the packing's gap.

use crate::game::contains;
use crate::random::choose_item;
use crate::random::shuffle;
use crate::rect::Rect;
use rand::rngs::StdRng;
use vstd::multiset::Multiset;
use vstd::prelude::*;

verus! {

broadcast use vstd::seq_lib::group_to_multiset_ensures;

/// The size levels of the circles.
#[derive(Clone, Copy, Debug, PartialEq, Eq, Hash, Structural)]
pub enum CircleSize {
    Huge,
    Large,
    Medium,
    Small,
}

/// One placed circle: its number and its cell rectangle.
#[derive(Clone, Copy, Debug, PartialEq, Eq, Structural)]
pub struct Placement {
    pub number: u8,
    pub rect: Rect,
}

/// Height in cells of (huge, large, medium, small) circles in each tier. Layout tries the
/// biggest tier first and falls back to smaller ones when the circles do not fit; every tier
/// keeps huge > large > medium > small. The width is twice the height. The huge heights
/// (9, 8, 7, 6, 5) are this crate's own choice: two rows more than the large ones.
pub const SIZE_TIERS: [[u16; 4]; 5] = [[9, 7, 5, 3], [8, 6, 4, 3], [7, 5, 4, 2], [6, 4, 3, 2], [5, 3, 2, 1]];

/// Number of tiers in SIZE_TIERS.
pub const TIER_COUNT: usize = 5;

/// Random placements tried per tier (a placement can fail by bad luck).
pub const ATTEMPTS_PER_TIER: usize = 3;

/// How tightly circles are packed: the least gap between two circles in columns and rows, and
/// the largest share (in percent) of the region that the circles with their gaps may cover.
#[derive(Clone, Copy, Debug)]
pub struct Packing {
    pub gap_x: u16,
    pub gap_y: u16,
    pub max_fill_percent: u64,
}

/// The loose packing: two columns and one row between circles, at most 45% covered.
pub open spec fn loose_spec() -> Packing {
    Packing { gap_x: 2, gap_y: 1, max_fill_percent: 45 }
}

/// The dense packing: circles may touch, at most 75% covered.
pub open spec fn dense_spec() -> Packing {
    Packing { gap_x: 0, gap_y: 0, max_fill_percent: 75 }
}

/// The packing of a dense or a loose layout.
pub fn packing_for(dense: bool) -> (r: Packing)
    ensures
        r == (if dense { dense_spec() } else { loose_spec() }),
{
    if dense {
        Packing { gap_x: 0, gap_y: 0, max_fill_percent: 75 }
    } else {
        Packing { gap_x: 2, gap_y: 1, max_fill_percent: 45 }
    }
}

/// Share (numerator, denominator) of the play area's width and height that a dense layout tries
/// first, centred.
pub const DENSE_REGION_RATIO: (u16, u16) = (7, 10);

/// Height of a circle of `size` in tier `tier` (the last tier for larger indices).
pub open spec fn tier_height(tier: int, size: CircleSize) -> u16 {
    let t = if 0 <= tier < 5 { tier } else { 4 };
    let row = if t == 0 { [9u16, 7, 5, 3] } else if t == 1 { [8u16, 6, 4, 3] } else if t == 2 {
        [7u16, 5, 4, 2]
    } else if t == 3 { [6u16, 4, 3, 2] } else { [5u16, 3, 2, 1] };
    match size {
        CircleSize::Huge => row[0],
        CircleSize::Large => row[1],
        CircleSize::Medium => row[2],
        CircleSize::Small => row[3],
    }
}

/// Cells (width, height) of a circle of `size` in tier `tier`; tiers past the last use the last.
pub fn size_dims(tier: usize, size: CircleSize) -> (r: (u16, u16))
    ensures
        r.1 == tier_height(tier as int, size),
        r.0 == 2 * r.1,
{
    let heights = SIZE_TIERS[if tier < TIER_COUNT - 1 { tier } else { TIER_COUNT - 1 }];
    let height = match size {
        CircleSize::Huge => heights[0],
        CircleSize::Large => heights[1],
        CircleSize::Medium => heights[2],
        CircleSize::Small => heights[3],
    };
    (height * 2, height)
}

/// In every tier a huge circle is taller than a large one, a large one than a medium one, and a
/// medium one than a small one.
pub proof fn lemma_tiers_keep_size_order(tier: int)
    ensures
        tier_height(tier, CircleSize::Huge) > tier_height(tier, CircleSize::Large),
        tier_height(tier, CircleSize::Large) > tier_height(tier, CircleSize::Medium),
        tier_height(tier, CircleSize::Medium) > tier_height(tier, CircleSize::Small),
        tier_height(tier, CircleSize::Small) >= 1,
{
}

/// The two rectangles overlap or come closer than the gap (`gap_x` columns, `gap_y` rows).
pub open spec fn too_close_spec(a: Rect, b: Rect, gap_x: int, gap_y: int) -> bool {
    &&& a.x < b.right_spec() + gap_x
    &&& b.x < a.right_spec() + gap_x
    &&& a.y < b.bottom_spec() + gap_y
    &&& b.y < a.bottom_spec() + gap_y
}

/// The two rectangles overlap or come closer than the packing's gap.
pub fn too_close(a: Rect, b: Rect, packing: &Packing) -> (r: bool)
    ensures
        r == too_close_spec(a, b, packing.gap_x as int, packing.gap_y as int),
{
    let (ar, ab) = (a.x as u32 + a.width as u32, a.y as u32 + a.height as u32);
    let (br, bb) = (b.x as u32 + b.width as u32, b.y as u32 + b.height as u32);
    (a.x as u32) < br + packing.gap_x as u32 && (b.x as u32) < ar + packing.gap_x as u32
        && (a.y as u32) < bb + packing.gap_y as u32 && (b.y as u32) < ab + packing.gap_y as u32
}

/// Rectangles that are not too close for any gap do not overlap.
pub proof fn lemma_apart_means_disjoint(a: Rect, b: Rect, gap_x: int, gap_y: int)
    requires
        gap_x >= 0,
        gap_y >= 0,
        !too_close_spec(a, b, gap_x, gap_y),
    ensures
        !a.overlaps(b),
{
}

/// The centre of cell (column, row) lies inside or on the ellipse inscribed in `rect` (the
/// drawn circle). In cell units the centre is (column + 1/2, row + 1/2); scaled by 2·w·h the
/// test needs no fractions.
pub open spec fn ellipse_has_cell(rect: Rect, column: int, row: int) -> bool {
    let w = rect.width as int;
    let h = rect.height as int;
    let dx = 2 * column + 1 - 2 * rect.x - w;
    let dy = 2 * row + 1 - 2 * rect.y - h;
    dx * dx * (h * h) + dy * dy * (w * w) <= w * w * (h * h)
}

/// Every cell of the middle row of a circle with an odd number of rows counts as inside it.
pub proof fn lemma_middle_row_inside(rect: Rect, column: int)
    requires
        rect.wf(),
        rect.width >= 1,
        rect.height % 2 == 1,
        rect.x <= column < rect.x + rect.width,
    ensures
        circle_contains_spec(rect, column, rect.y + rect.height / 2),
{
    let w = rect.width as int;
    let h = rect.height as int;
    let dx = 2 * column + 1 - 2 * rect.x - w;
    let dy = 2 * (rect.y + h / 2) + 1 - 2 * rect.y - h;
    assert(dy == 0);
    assert(-w < dx < w);
    assert(dx * dx * (h * h) + dy * dy * (w * w) <= w * w * (h * h)) by (nonlinear_arith)
        requires
            -w < dx < w,
            dy == 0,
            h >= 1,
    ;
}

/// In a round circle (twice as wide as tall) with an even number of rows, at least two, every
/// cell of the two middle rows counts as inside it.
pub proof fn lemma_middle_rows_inside_round(rect: Rect, column: int, row: int)
    requires
        rect.wf(),
        rect.height >= 2,
        rect.height % 2 == 0,
        rect.width == 2 * rect.height,
        rect.x <= column < rect.x + rect.width,
        row == rect.y + rect.height / 2 - 1 || row == rect.y + rect.height / 2,
    ensures
        circle_contains_spec(rect, column, row),
{
    let w = rect.width as int;
    let h = rect.height as int;
    let dx = 2 * column + 1 - 2 * rect.x - w;
    let dy = 2 * row + 1 - 2 * rect.y - h;
    assert(dy == 1 || dy == -1);
    assert(-w < dx < w);
    assert(dx * dx <= (w - 1) * (w - 1)) by (nonlinear_arith)
        requires
            -w < dx < w,
    ;
    assert((w - 1) * (w - 1) * (h * h) + w * w <= w * w * (h * h)) by (nonlinear_arith)
        requires
            w == 2 * h,
            h >= 2,
    ;
    assert(dx * dx * (h * h) <= (w - 1) * (w - 1) * (h * h)) by (nonlinear_arith)
        requires
            dx * dx <= (w - 1) * (w - 1),
    ;
    assert(dy * dy == 1);
}

/// The corner cells of a round circle (twice as wide as tall) of at least three rows lie outside
/// it: a click there hits nothing.
pub proof fn lemma_corners_outside_round(rect: Rect, column: int, row: int)
    requires
        rect.wf(),
        rect.height >= 3,
        rect.width == 2 * rect.height,
        column == rect.x || column == rect.x + rect.width - 1,
        row == rect.y || row == rect.y + rect.height - 1,
    ensures
        !circle_contains_spec(rect, column, row),
{
    let w = rect.width as int;
    let h = rect.height as int;
    let dx = 2 * column + 1 - 2 * rect.x - w;
    let dy = 2 * row + 1 - 2 * rect.y - h;
    assert(dx * dx == (w - 1) * (w - 1)) by (nonlinear_arith)
        requires
            dx == 1 - w || dx == w - 1,
    ;
    assert(dy * dy == (h - 1) * (h - 1)) by (nonlinear_arith)
        requires
            dy == 1 - h || dy == h - 1,
    ;
    assert((w - 1) * (w - 1) * (h * h) + (h - 1) * (h - 1) * (w * w) > w * w * (h * h)) by (nonlinear_arith)
        requires
            w == 2 * h,
            h >= 3,
    ;
}

/// The cell (column, row) counts as inside the circle drawn in `rect`: the rectangle has cells,
/// holds the cell, and the cell's centre lies inside or on the inscribed ellipse.
pub open spec fn circle_contains_spec(rect: Rect, column: int, row: int) -> bool {
    &&& rect.width != 0 && rect.height != 0
    &&& rect.has_cell(column, row)
    &&& ellipse_has_cell(rect, column, row)
}

proof fn lemma_ellipse_terms_fit(a: int, b: int, w: int, h: int)
    requires
        0 <= a <= 131072,
        0 <= b <= 131072,
        0 <= w <= 65535,
        0 <= h <= 65535,
    ensures
        a * a * (h * h) + b * b * (w * w) <= 0x1000_0000_0000_0000_0000,
        w * w * (h * h) <= 0x1000_0000_0000_0000_0000,
        a * a <= 0x4_0000_0000,
        b * b <= 0x4_0000_0000,
        h * h <= 0x1_0000_0000,
        w * w <= 0x1_0000_0000,
        a * a * (h * h) <= 0x4_0000_0000 * 0x1_0000_0000,
        b * b * (w * w) <= 0x4_0000_0000 * 0x1_0000_0000,
{
    assert(a * a <= 131072 * 131072) by (nonlinear_arith)
        requires
            0 <= a <= 131072,
    ;
    assert(b * b <= 131072 * 131072) by (nonlinear_arith)
        requires
            0 <= b <= 131072,
    ;
    assert(h * h <= 65535 * 65535) by (nonlinear_arith)
        requires
            0 <= h <= 65535,
    ;
    assert(w * w <= 65535 * 65535) by (nonlinear_arith)
        requires
            0 <= w <= 65535,
    ;
    assert(a * a * (h * h) <= 0x4_0000_0000 * 0x1_0000_0000) by (nonlinear_arith)
        requires
            0 <= a * a <= 0x4_0000_0000,
            0 <= h * h <= 0x1_0000_0000,
    ;
    assert(b * b * (w * w) <= 0x4_0000_0000 * 0x1_0000_0000) by (nonlinear_arith)
        requires
            0 <= b * b <= 0x4_0000_0000,
            0 <= w * w <= 0x1_0000_0000,
    ;
    assert(w * w * (h * h) <= 0x1_0000_0000 * 0x1_0000_0000) by (nonlinear_arith)
        requires
            0 <= w * w <= 0x1_0000_0000,
            0 <= h * h <= 0x1_0000_0000,
    ;
}

/// The cell (column, row) is inside the circle drawn in `rect`: inside the rectangle, with the
/// cell's centre inside or on the inscribed ellipse.
pub fn circle_contains(rect: Rect, column: u16, row: u16) -> (r: bool)
    requires
        rect.wf(),
    ensures
        r == circle_contains_spec(rect, column as int, row as int),
{
    if rect.is_empty() || !contains(rect, column, row) {
        return false;
    }
    let w = rect.width as i64;
    let h = rect.height as i64;
    let dx = 2 * (column as i64) + 1 - 2 * (rect.x as i64) - w;
    let dy = 2 * (row as i64) + 1 - 2 * (rect.y as i64) - h;
    let ax: u128 = if dx < 0 { (-dx) as u128 } else { dx as u128 };
    let ay: u128 = if dy < 0 { (-dy) as u128 } else { dy as u128 };
    let (w2, h2) = (w as u128, h as u128);
    proof {
        lemma_ellipse_terms_fit(ax as int, ay as int, w as int, h as int);
        assert(ax * ax == dx * dx) by (nonlinear_arith)
            requires
                ax == (if dx < 0 { -dx } else { dx as int }),
        ;
        assert(ay * ay == dy * dy) by (nonlinear_arith)
            requires
                ay == (if dy < 0 { -dy } else { dy as int }),
        ;
    }
    ax * ax * (h2 * h2) + ay * ay * (w2 * w2) <= w2 * w2 * (h2 * h2)
}

/// The number of the circle under the click (column, row): the first placement, in order, whose
/// circle holds the cell and for which `is_visible` is true (removed circles are not visible).
/// `None` when the click hits no visible circle.
pub fn hit_test(placements: &Vec<Placement>, is_visible: impl Fn(u8) -> bool, column: u16, row: u16) -> (r: Option<u8>)
    requires
        forall|i: int| 0 <= i < placements@.len() ==> #[trigger] placements@[i].rect.wf(),
        forall|n: u8| call_requires(is_visible, (n,)),
    ensures
        match r {
            Some(n) => exists|i: int| 0 <= i < placements@.len() && placements@[i].number == n
                && circle_contains_spec(placements@[i].rect, column as int, row as int)
                && call_ensures(is_visible, (n,), true)
                && forall|j: int| 0 <= j < i && circle_contains_spec(placements@[j].rect, column as int, row as int)
                    ==> call_ensures(is_visible, (#[trigger] placements@[j].number,), false),
            None => forall|i: int| 0 <= i < placements@.len()
                && circle_contains_spec(placements@[i].rect, column as int, row as int)
                ==> call_ensures(is_visible, (#[trigger] placements@[i].number,), false),
        },
{
    let mut i: usize = 0;
    while i < placements.len()
        invariant
            i <= placements@.len(),
            forall|k: int| 0 <= k < placements@.len() ==> #[trigger] placements@[k].rect.wf(),
            forall|n: u8| call_requires(is_visible, (n,)),
            forall|j: int| 0 <= j < i && circle_contains_spec(placements@[j].rect, column as int, row as int)
                ==> call_ensures(is_visible, (#[trigger] placements@[j].number,), false),
        decreases placements@.len() - i,
    {
        let p = placements[i];
        if circle_contains(p.rect, column, row) {
            let shown = is_visible(p.number);
            if shown {
                return Some(p.number);
            }
        }
        i = i + 1;
    }
    None
}

/// Each circle (number, size) with its cells (number, width, height) in tier `tier`.
pub open spec fn sized_spec(tier: int, circles: Seq<(u8, CircleSize)>) -> Seq<(u8, u16, u16)> {
    Seq::new(circles.len(), |i: int| (circles[i].0, (2 * tier_height(tier, circles[i].1)) as u16, tier_height(tier, circles[i].1)))
}

/// Gives each circle its cells (width, height) in tier `tier`.
pub fn sized_circles(tier: usize, circles: &[(u8, CircleSize)]) -> (r: Vec<(u8, u16, u16)>)
    ensures
        r@ == sized_spec(tier as int, circles@),
{
    let mut r: Vec<(u8, u16, u16)> = Vec::new();
    let mut i: usize = 0;
    while i < circles.len()
        invariant
            i <= circles@.len(),
            r@ == sized_spec(tier as int, circles@).take(i as int),
        decreases circles@.len() - i,
    {
        let (number, size) = circles[i];
        let (width, height) = size_dims(tier, size);
        r.push((number, width, height));
        assert(r@ =~= sized_spec(tier as int, circles@).take(i + 1));
        i = i + 1;
    }
    assert(r@ =~= sized_spec(tier as int, circles@));
    r
}

/// Cells that the circles cover with their gaps (each circle counted with gap_x columns and gap_y
/// rows added).
pub open spec fn occupied(sized: Seq<(u8, u16, u16)>, gap_x: int, gap_y: int) -> int
    decreases sized.len(),
{
    if sized.len() == 0 {
        0
    } else {
        occupied(sized.drop_last(), gap_x, gap_y) + (sized.last().1 + gap_x) * (sized.last().2 + gap_y)
    }
}

/// Every circle fits in the region, and the circles with their gaps cover at most the packing's
/// share of the region (widened by one gap, as the right and bottom edges need none).
pub open spec fn fits_by_area_spec(region: Rect, sized: Seq<(u8, u16, u16)>, packing: Packing) -> bool {
    &&& forall|i: int| 0 <= i < sized.len() ==> #[trigger] sized[i].1 <= region.width && sized[i].2 <= region.height
    &&& occupied(sized, packing.gap_x as int, packing.gap_y as int) * 100
        <= (region.width + packing.gap_x) * (region.height + packing.gap_y) * packing.max_fill_percent
}

proof fn lemma_cell_product_bound(a: int, b: int)
    requires
        0 <= a <= 0x2_0000,
        0 <= b <= 0x2_0000,
    ensures
        0 <= a * b <= 0x4_0000_0000,
{
    assert(a * b <= 0x2_0000 * 0x2_0000) by (nonlinear_arith)
        requires
            0 <= a <= 0x2_0000,
            0 <= b <= 0x2_0000,
    ;
    assert(0 <= a * b) by (nonlinear_arith)
        requires
            0 <= a,
            0 <= b,
    ;
}

proof fn lemma_occupied_bound(sized: Seq<(u8, u16, u16)>, gap_x: int, gap_y: int)
    requires
        0 <= gap_x <= 0xffff,
        0 <= gap_y <= 0xffff,
    ensures
        0 <= occupied(sized, gap_x, gap_y) <= sized.len() * 0x4_0000_0000,
    decreases sized.len(),
{
    if sized.len() > 0 {
        lemma_occupied_bound(sized.drop_last(), gap_x, gap_y);
        lemma_cell_product_bound(sized.last().1 + gap_x, sized.last().2 + gap_y);
    }
}

/// Whether the circles fit the region at the packing's density: every circle fits, and the
/// circles with their gaps cover at most `max_fill_percent` of the region.
pub fn fits_by_area(region: &Rect, sized: &Vec<(u8, u16, u16)>, packing: &Packing) -> (r: bool)
    requires
        packing.max_fill_percent <= 100,
    ensures
        r == fits_by_area_spec(*region, sized@, *packing),
{
    let mut i: usize = 0;
    while i < sized.len()
        invariant
            i <= sized@.len(),
            forall|k: int| 0 <= k < i ==> #[trigger] sized@[k].1 <= region.width && sized@[k].2 <= region.height,
        decreases sized@.len() - i,
    {
        let (_, w, h) = sized[i];
        if w > region.width || h > region.height {
            return false;
        }
        i = i + 1;
    }
    let mut total: u128 = 0;
    let mut k: usize = 0;
    while k < sized.len()
        invariant
            k <= sized@.len(),
            total == occupied(sized@.take(k as int), packing.gap_x as int, packing.gap_y as int),
        decreases sized@.len() - k,
    {
        let (_, w, h) = sized[k];
        proof {
            assert(sized@.take(k + 1).drop_last() =~= sized@.take(k as int));
            lemma_occupied_bound(sized@.take(k as int), packing.gap_x as int, packing.gap_y as int);
            lemma_cell_product_bound(w + packing.gap_x, h + packing.gap_y);
            assert(k * 0x4_0000_0000 <= 0x1_0000_0000_0000_0000 * 0x4_0000_0000) by (nonlinear_arith)
                requires
                    0 <= k <= 0x1_0000_0000_0000_0000,
            ;
        }
        total = total + (w as u128 + packing.gap_x as u128) * (h as u128 + packing.gap_y as u128);
        k = k + 1;
    }
    assert(sized@.take(sized@.len() as int) =~= sized@);
    proof {
        lemma_cell_product_bound(region.width + packing.gap_x, region.height + packing.gap_y);
        lemma_occupied_bound(sized@, packing.gap_x as int, packing.gap_y as int);
        assert(sized@.len() * 0x4_0000_0000 <= 0x1_0000_0000_0000_0000 * 0x4_0000_0000) by (nonlinear_arith)
            requires
                0 <= sized@.len() <= 0x1_0000_0000_0000_0000,
        ;
    }
    let capacity = (region.width as u128 + packing.gap_x as u128) * (region.height as u128
        + packing.gap_y as u128);
    proof {
        assert(capacity * packing.max_fill_percent <= 0x4_0000_0000 * 100) by (nonlinear_arith)
            requires
                0 <= capacity <= 0x4_0000_0000,
                0 <= packing.max_fill_percent <= 100,
        ;
    }
    total * 100 <= capacity * (packing.max_fill_percent as u128)
}

/// `value` scaled by `ratio`, rounded to the nearest integer (halves away from zero).
pub open spec fn scaled_round(value: int, ratio: (u16, u16)) -> int {
    (2 * value * ratio.0 + ratio.1) / (2 * ratio.1)
}

/// The centred region of `area` whose width and height are `ratio` of the area's, rounded and
/// kept between 1 and the area's own.
pub open spec fn central_region_spec(area: Rect, ratio: (u16, u16)) -> Rect {
    let w = scaled_round(area.width as int, ratio);
    let h = scaled_round(area.height as int, ratio);
    let width = if w < 1 { 1 } else if w > area.width { area.width as int } else { w };
    let height = if h < 1 { 1 } else if h > area.height { area.height as int } else { h };
    Rect {
        x: (area.x + (area.width - width) / 2) as u16,
        y: (area.y + (area.height - height) / 2) as u16,
        width: width as u16,
        height: height as u16,
    }
}

/// The centred region of `area` whose width and height are `ratio` (numerator, denominator) of
/// the area's, rounded to whole cells, at least one cell and at most the area.
pub fn central_region(area: Rect, ratio: (u16, u16)) -> (r: Rect)
    requires
        area.wf(),
        area.width >= 1,
        area.height >= 1,
        0 < ratio.1,
        ratio.0 <= ratio.1,
    ensures
        r == central_region_spec(area, ratio),
        r.wf(),
        r.x >= area.x && r.right_spec() <= area.right_spec(),
        r.y >= area.y && r.bottom_spec() <= area.bottom_spec(),
{
    let num = ratio.0 as u64;
    let den = ratio.1 as u64;
    proof {
        assert(2 * (area.width as int) * num <= 2 * 65535 * 65535) by (nonlinear_arith)
            requires
                0 <= area.width <= 65535,
                0 <= num <= 65535,
        ;
        assert(2 * (area.height as int) * num <= 2 * 65535 * 65535) by (nonlinear_arith)
            requires
                0 <= area.height <= 65535,
                0 <= num <= 65535,
        ;
    }
    let w = (2 * (area.width as u64) * num + den) / (2 * den);
    let h = (2 * (area.height as u64) * num + den) / (2 * den);
    let width: u16 = if w < 1 { 1 } else if w > area.width as u64 { area.width } else { w as u16 };
    let height: u16 = if h < 1 { 1 } else if h > area.height as u64 { area.height } else { h as u16 };
    Rect {
        x: area.x + (area.width - width) / 2,
        y: area.y + (area.height - height) / 2,
        width,
        height,
    }
}

/// The rectangle lies inside `region`.
pub open spec fn inside(rect: Rect, region: Rect) -> bool {
    &&& region.x <= rect.x
    &&& rect.right_spec() <= region.right_spec()
    &&& region.y <= rect.y
    &&& rect.bottom_spec() <= region.bottom_spec()
}

/// The placements are ordered by number.
pub open spec fn sorted_by_number(s: Seq<Placement>) -> bool {
    forall|i: int, j: int| 0 <= i < j < s.len() ==> s[i].number <= s[j].number
}

/// No two placements come closer than the gap.
pub open spec fn spaced(s: Seq<Placement>, gap_x: int, gap_y: int) -> bool {
    forall|i: int, j: int| 0 <= i < s.len() && 0 <= j < s.len() && i != j
        ==> !too_close_spec(s[i].rect, s[j].rect, gap_x, gap_y)
}

/// The circle (number, width, height) that a placement stands for.
pub open spec fn placed_circle(p: Placement) -> (u8, u16, u16) {
    (p.number, p.rect.width, p.rect.height)
}

/// The circles that the placements stand for.
pub open spec fn placed_circles(s: Seq<Placement>) -> Seq<(u8, u16, u16)> {
    s.map_values(|p: Placement| placed_circle(p))
}

/// Orders the placements by number (equal numbers keep their order). The ghost map gives, for
/// each position of the result, the distinct position of `v` that its placement came from.
fn sort_by_number(v: Vec<Placement>) -> (r: (Vec<Placement>, Ghost<Seq<int>>))
    ensures
        r.0@.to_multiset() == v@.to_multiset(),
        r.0@.len() == v@.len(),
        sorted_by_number(r.0@),
        r.1@.len() == r.0@.len(),
        forall|k: int| 0 <= k < r.0@.len() ==> 0 <= #[trigger] r.1@[k] < v@.len() && r.0@[k] == v@[r.1@[k]],
        forall|a: int, b: int| 0 <= a < r.0@.len() && 0 <= b < r.0@.len() && a != b ==> r.1@[a] != r.1@[b],
{
    let mut out: Vec<Placement> = Vec::new();
    let ghost mut from: Seq<int> = Seq::empty();
    let mut i: usize = 0;
    while i < v.len()
        invariant
            i <= v@.len(),
            out@.to_multiset() == v@.take(i as int).to_multiset(),
            out@.len() == i,
            sorted_by_number(out@),
            from.len() == out@.len(),
            forall|k: int| 0 <= k < out@.len() ==> 0 <= #[trigger] from[k] < i && out@[k] == v@[from[k]],
            forall|a: int, b: int| 0 <= a < out@.len() && 0 <= b < out@.len() && a != b ==> from[a] != from[b],
        decreases v@.len() - i,
    {
        let item = v[i];
        let mut pos: usize = 0;
        while pos < out.len() && out[pos].number <= item.number
            invariant
                pos <= out@.len(),
                forall|k: int| 0 <= k < pos ==> #[trigger] out@[k].number <= item.number,
            decreases out@.len() - pos,
        {
            pos = pos + 1;
        }
        proof {
            assert(pos < out@.len() ==> out@[pos as int].number > item.number);
            assert(v@.take(i + 1) =~= v@.take(i as int).push(item));
        }
        let ghost before = out@;
        let ghost from_before = from;
        out.insert(pos, item);
        proof {
            from = from.insert(pos as int, i as int);
            assert(out@ =~= before.insert(pos as int, item));
            vstd::seq_lib::to_multiset_insert(before, pos as int, item);
            assert forall|a: int, b: int| 0 <= a < b < out@.len() implies out@[a].number <= out@[b].number by {
                if b < pos {
                } else if b == pos {
                } else if a < pos {
                    assert(out@[b] == before[b - 1]);
                } else if a == pos {
                    assert(out@[b] == before[b - 1]);
                    if pos < before.len() {
                        assert(before[pos as int].number > item.number);
                    }
                } else {
                    assert(out@[a] == before[a - 1]);
                    assert(out@[b] == before[b - 1]);
                }
            }
            assert forall|k: int| 0 <= k < out@.len() implies 0 <= #[trigger] from[k] < i + 1 && out@[k] == v@[from[k]] by {
                if k < pos {
                    assert(from[k] == from_before[k]);
                } else if k > pos {
                    assert(from[k] == from_before[k - 1]);
                    assert(out@[k] == before[k - 1]);
                }
            }
            assert forall|a: int, b: int| 0 <= a < out@.len() && 0 <= b < out@.len() && a != b implies from[a] != from[b] by {
                if a != pos && b != pos {
                    let a0 = if a < pos { a } else { a - 1 };
                    let b0 = if b < pos { b } else { b - 1 };
                    assert(from[a] == from_before[a0]);
                    assert(from[b] == from_before[b0]);
                } else if a == pos {
                    let b0 = if b < pos { b } else { b - 1 };
                    assert(from[b] == from_before[b0]);
                } else {
                    let a0 = if a < pos { a } else { a - 1 };
                    assert(from[a] == from_before[a0]);
                }
            }
        }
        i = i + 1;
    }
    assert(v@.take(v@.len() as int) =~= v@);
    (out, Ghost(from))
}

/// The circle's area in cells.
pub open spec fn circle_area(c: (u8, u16, u16)) -> int {
    c.1 * c.2
}

/// The circle's area in cells.
fn area_of(c: (u8, u16, u16)) -> (r: u64)
    ensures
        r == circle_area(c),
{
    proof {
        lemma_cell_product_bound(c.1 as int, c.2 as int);
    }
    c.1 as u64 * c.2 as u64
}

/// Orders the circles from the largest area to the smallest (equal areas keep their order).
fn sort_by_area_descending(v: Vec<(u8, u16, u16)>) -> (r: Vec<(u8, u16, u16)>)
    ensures
        r@.to_multiset() == v@.to_multiset(),
        forall|i: int, j: int| 0 <= i < j < r@.len() ==> circle_area(r@[i]) >= circle_area(r@[j]),
{
    let mut out: Vec<(u8, u16, u16)> = Vec::new();
    let mut i: usize = 0;
    while i < v.len()
        invariant
            i <= v@.len(),
            out@.to_multiset() == v@.take(i as int).to_multiset(),
            forall|a: int, b: int| 0 <= a < b < out@.len() ==> circle_area(out@[a]) >= circle_area(out@[b]),
        decreases v@.len() - i,
    {
        let item = v[i];
        let area = area_of(item);
        let mut pos: usize = 0;
        while pos < out.len() && area_of(out[pos]) >= area
            invariant
                pos <= out@.len(),
                area == circle_area(item),
                forall|k: int| 0 <= k < pos ==> circle_area(#[trigger] out@[k]) >= circle_area(item),
            decreases out@.len() - pos,
        {
            pos = pos + 1;
        }
        proof {
            assert(pos < out@.len() ==> circle_area(out@[pos as int]) < circle_area(item));
            assert(v@.take(i + 1) =~= v@.take(i as int).push(item));
        }
        let ghost before = out@;
        out.insert(pos, item);
        proof {
            assert(out@ =~= before.insert(pos as int, item));
            vstd::seq_lib::to_multiset_insert(before, pos as int, item);
            assert forall|a: int, b: int| 0 <= a < b < out@.len() implies circle_area(out@[a]) >= circle_area(out@[b]) by {
                if b < pos {
                } else if b == pos {
                } else if a < pos {
                    assert(out@[b] == before[b - 1]);
                } else if a == pos {
                    assert(out@[b] == before[b - 1]);
                    if pos < before.len() {
                        assert(circle_area(before[pos as int]) < circle_area(item));
                    }
                } else {
                    assert(out@[a] == before[a - 1]);
                    assert(out@[b] == before[b - 1]);
                }
            }
        }
        i = i + 1;
    }
    assert(v@.take(v@.len() as int) =~= v@);
    out
}

/// A `width`×`height` rectangle at (x, y) lies inside `region` and keeps the gap to every one of
/// `placed`.
pub open spec fn free_at(region: Rect, width: u16, height: u16, placed: Seq<Placement>, gap_x: int, gap_y: int, x: u16, y: u16) -> bool {
    let rect = Rect { x, y, width, height };
    &&& inside(rect, region)
    &&& forall|m: int| 0 <= m < placed.len() ==> !too_close_spec(rect, #[trigger] placed[m].rect, gap_x, gap_y)
}

/// Some position of `region` has room for circle `c` next to `placed`.
pub open spec fn room_for(region: Rect, c: (u8, u16, u16), placed: Seq<Placement>, gap_x: int, gap_y: int) -> bool {
    exists|x: u16, y: u16| #[trigger] free_at(region, c.1, c.2, placed, gap_x, gap_y, x, y)
}

/// Every position (x, y) in `region` where a `width`×`height` rectangle fits inside the region
/// without coming too close to any of `placed` (see `free_at`), in row-major order; no other.
fn free_positions(region: Rect, width: u16, height: u16, placed: &Vec<Placement>, packing: &Packing) -> (r: Vec<(u16, u16)>)
    requires
        region.wf(),
        1 <= width <= region.width,
        1 <= height <= region.height,
    ensures
        forall|k: int| 0 <= k < r@.len() ==> free_at(region, width, height, placed@, packing.gap_x as int,
            packing.gap_y as int, (#[trigger] r@[k]).0, r@[k].1),
        forall|x: u16, y: u16| #[trigger] free_at(region, width, height, placed@, packing.gap_x as int, packing.gap_y as int, x, y)
            ==> r@.contains((x, y)),
{
    let ghost gx = packing.gap_x as int;
    let ghost gy = packing.gap_y as int;
    let mut out: Vec<(u16, u16)> = Vec::new();
    let last_y = region.y + (region.height - height);
    let last_x = region.x + (region.width - width);
    let mut y = region.y;
    loop
        invariant
            region.wf(),
            1 <= width <= region.width,
            1 <= height <= region.height,
            gx == packing.gap_x as int,
            gy == packing.gap_y as int,
            last_y == region.y + (region.height - height),
            last_x == region.x + (region.width - width),
            region.y <= y <= last_y,
            forall|k: int| 0 <= k < out@.len() ==> free_at(region, width, height, placed@, gx, gy, (#[trigger] out@[k]).0, out@[k].1),
            forall|px: u16, py: u16| py < y && #[trigger] free_at(region, width, height, placed@, gx, gy, px, py)
                ==> out@.contains((px, py)),
        ensures
            forall|k: int| 0 <= k < out@.len() ==> free_at(region, width, height, placed@, gx, gy, (#[trigger] out@[k]).0, out@[k].1),
            forall|px: u16, py: u16| #[trigger] free_at(region, width, height, placed@, gx, gy, px, py)
                ==> out@.contains((px, py)),
        decreases last_y - y,
    {
        let mut x = region.x;
        loop
            invariant
                region.wf(),
                1 <= width <= region.width,
                1 <= height <= region.height,
                gx == packing.gap_x as int,
                gy == packing.gap_y as int,
                last_y == region.y + (region.height - height),
                last_x == region.x + (region.width - width),
                region.y <= y <= last_y,
                region.x <= x <= last_x,
                forall|k: int| 0 <= k < out@.len() ==> free_at(region, width, height, placed@, gx, gy, (#[trigger] out@[k]).0, out@[k].1),
                forall|px: u16, py: u16| (py < y || (py == y && px < x)) && #[trigger] free_at(region, width, height, placed@, gx, gy, px, py)
                    ==> out@.contains((px, py)),
            ensures
                forall|k: int| 0 <= k < out@.len() ==> free_at(region, width, height, placed@, gx, gy, (#[trigger] out@[k]).0, out@[k].1),
                forall|px: u16, py: u16| py <= y && #[trigger] free_at(region, width, height, placed@, gx, gy, px, py)
                    ==> out@.contains((px, py)),
            decreases last_x - x,
        {
            let rect = Rect { x, y, width, height };
            let mut clear = true;
            let mut m: usize = 0;
            while m < placed.len()
                invariant
                    m <= placed@.len(),
                    gx == packing.gap_x as int,
                    gy == packing.gap_y as int,
                    clear == forall|q: int| 0 <= q < m ==> !too_close_spec(rect, #[trigger] placed@[q].rect, gx, gy),
                decreases placed@.len() - m,
            {
                if too_close(rect, placed[m].rect, packing) {
                    clear = false;
                }
                m = m + 1;
            }
            let ghost before = out@;
            if clear {
                out.push((x, y));
            }
            proof {
                assert(inside(rect, region));
                assert(clear == free_at(region, width, height, placed@, gx, gy, x, y));
                assert forall|k: int| 0 <= k < out@.len() implies free_at(region, width, height, placed@, gx, gy, (#[trigger] out@[k]).0, out@[k].1) by {
                    if k < before.len() {
                        assert(out@[k] == before[k]);
                    }
                }
                assert forall|px: u16, py: u16| (py < y || (py == y && px <= x)) && #[trigger] free_at(region, width, height, placed@, gx, gy, px, py)
                    implies out@.contains((px, py)) by {
                    if py == y && px == x {
                        assert(out@[out@.len() - 1] == (x, y));
                    } else {
                        assert(before.contains((px, py)));
                        let w = choose|w: int| 0 <= w < before.len() && before[w] == (px, py);
                        assert(out@[w] == (px, py));
                    }
                }
            }
            if x == last_x {
                proof {
                    assert forall|px: u16, py: u16| py <= y && #[trigger] free_at(region, width, height, placed@, gx, gy, px, py)
                        implies out@.contains((px, py)) by {
                        if py == y {
                            assert(px <= last_x);
                        }
                    }
                }
                break;
            }
            x = x + 1;
        }
        if y == last_y {
            proof {
                assert forall|px: u16, py: u16| #[trigger] free_at(region, width, height, placed@, gx, gy, px, py)
                    implies out@.contains((px, py)) by {
                    assert(py <= last_y);
                }
            }
            break;
        }
        y = y + 1;
    }
    out
}

/// Every circle that `sized` holds more often than `r` places it has no room left next to the
/// placed circles: a circle is left out only when no position of `region` keeps the gap.
pub open spec fn leftovers_have_no_room(r: Seq<Placement>, region: Rect, sized: Seq<(u8, u16, u16)>, gap_x: int, gap_y: int) -> bool {
    forall|c: (u8, u16, u16)| #[trigger] sized.to_multiset().count(c) > placed_circles(r).to_multiset().count(c)
        ==> !room_for(region, c, r, gap_x, gap_y)
}

/// A circle with no room next to `placed` has none once one more circle is placed.
proof fn lemma_no_room_after_push(region: Rect, c: (u8, u16, u16), placed: Seq<Placement>, p: Placement, gap_x: int, gap_y: int)
    requires
        !room_for(region, c, placed, gap_x, gap_y),
    ensures
        !room_for(region, c, placed.push(p), gap_x, gap_y),
{
    assert forall|x: u16, y: u16| !#[trigger] free_at(region, c.1, c.2, placed.push(p), gap_x, gap_y, x, y) by {
        if free_at(region, c.1, c.2, placed.push(p), gap_x, gap_y, x, y) {
            let rect = Rect { x, y, width: c.1, height: c.2 };
            assert forall|m: int| 0 <= m < placed.len() implies !too_close_spec(rect, #[trigger] placed[m].rect, gap_x, gap_y) by {
                assert(placed.push(p)[m] == placed[m]);
            }
            assert(free_at(region, c.1, c.2, placed, gap_x, gap_y, x, y));
        }
    }
}

/// Leaving out a circle that has no room keeps every left-out circle without room.
proof fn lemma_leftovers_skip(placed: Seq<Placement>, region: Rect, seen: Seq<(u8, u16, u16)>, c0: (u8, u16, u16), gap_x: int, gap_y: int)
    requires
        leftovers_have_no_room(placed, region, seen, gap_x, gap_y),
        !room_for(region, c0, placed, gap_x, gap_y),
    ensures
        leftovers_have_no_room(placed, region, seen.push(c0), gap_x, gap_y),
{
    broadcast use vstd::multiset::group_multiset_axioms;
    assert forall|c: (u8, u16, u16)| #[trigger] seen.push(c0).to_multiset().count(c) > placed_circles(placed).to_multiset().count(c)
        implies !room_for(region, c, placed, gap_x, gap_y) by {
        assert(seen.push(c0).to_multiset() =~= seen.to_multiset().insert(c0));
        if c != c0 {
            assert(seen.to_multiset().count(c) > placed_circles(placed).to_multiset().count(c));
        }
    }
}

/// Placing a circle keeps every left-out circle without room.
proof fn lemma_leftovers_place(placed: Seq<Placement>, region: Rect, seen: Seq<(u8, u16, u16)>, p: Placement, gap_x: int, gap_y: int)
    requires
        leftovers_have_no_room(placed, region, seen, gap_x, gap_y),
    ensures
        leftovers_have_no_room(placed.push(p), region, seen.push(placed_circle(p)), gap_x, gap_y),
{
    broadcast use vstd::multiset::group_multiset_axioms;
    let c0 = placed_circle(p);
    assert(placed_circles(placed.push(p)) =~= placed_circles(placed).push(c0));
    assert(placed_circles(placed.push(p)).to_multiset() =~= placed_circles(placed).to_multiset().insert(c0));
    assert(seen.push(c0).to_multiset() =~= seen.to_multiset().insert(c0));
    assert forall|c: (u8, u16, u16)| #[trigger] seen.push(c0).to_multiset().count(c) > placed_circles(placed.push(p)).to_multiset().count(c)
        implies !room_for(region, c, placed.push(p), gap_x, gap_y) by {
        assert(seen.to_multiset().count(c) > placed_circles(placed).to_multiset().count(c));
        lemma_no_room_after_push(region, c, placed, p, gap_x, gap_y);
    }
}

/// Placements that hold the same items (as a multiset) stand for the same circles.
proof fn lemma_same_items_same_circles(s: Seq<Placement>, t: Seq<Placement>)
    requires
        s.to_multiset() == t.to_multiset(),
    ensures
        placed_circles(s).to_multiset() == placed_circles(t).to_multiset(),
    decreases s.len(),
{
    broadcast use vstd::multiset::group_multiset_axioms;
    if s.len() == 0 {
        assert(t.len() == t.to_multiset().len());
        assert(placed_circles(s) =~= Seq::<(u8, u16, u16)>::empty());
        assert(placed_circles(t) =~= Seq::<(u8, u16, u16)>::empty());
    } else {
        let x = s.last();
        let s2 = s.drop_last();
        assert(s =~= s2.push(x));
        assert(s.contains(x)) by {
            assert(s[s.len() - 1] == x);
        }
        assert(t.to_multiset().count(x) > 0);
        assert(t.contains(x));
        let j = choose|j: int| 0 <= j < t.len() && t[j] == x;
        let t2 = t.remove(j);
        assert(t2.to_multiset() == t.to_multiset().remove(x));
        assert(s2.to_multiset() =~= s.to_multiset().remove(x));
        lemma_same_items_same_circles(s2, t2);
        assert(placed_circles(s) =~= placed_circles(s2).push(placed_circle(x)));
        assert(t =~= t2.insert(j, x));
        assert(placed_circles(t) =~= placed_circles(t2).insert(j, placed_circle(x)));
        vstd::seq_lib::to_multiset_insert(placed_circles(t2), j, placed_circle(x));
    }
}

/// What every placement result satisfies: each rectangle lies in `region`, no two come closer
/// than the gap, they are ordered by number, and each stands for a distinct circle of `sized`.
pub open spec fn placed_well(r: Seq<Placement>, region: Rect, sized: Seq<(u8, u16, u16)>, gap_x: int, gap_y: int) -> bool {
    &&& forall|k: int| 0 <= k < r.len() ==> inside(#[trigger] r[k].rect, region)
    &&& spaced(r, gap_x, gap_y)
    &&& sorted_by_number(r)
    &&& placed_circles(r).to_multiset().subset_of(sized.to_multiset())
}

/// Places the circles in `region`, largest first (circles of equal size in random order): for
/// each circle, every position that keeps the gap to the circles placed so far is collected and
/// one is picked at random. A circle with no free position (or larger than the region) stops the
/// placement, or is skipped when `skip_unplaceable`. The placed circles come back ordered by
/// number.
pub fn place_circles(
    rng: &mut StdRng,
    region: Rect,
    sized: &Vec<(u8, u16, u16)>,
    packing: &Packing,
    skip_unplaceable: bool,
) -> (r: Vec<Placement>)
    requires
        region.wf(),
        forall|i: int| 0 <= i < sized@.len() ==> (#[trigger] sized@[i]).1 >= 1 && sized@[i].2 >= 1,
    ensures
        placed_well(r@, region, sized@, packing.gap_x as int, packing.gap_y as int),
        r@.len() <= sized@.len(),
        !skip_unplaceable && r@.len() < sized@.len() ==> exists|c: (u8, u16, u16)|
            sized@.to_multiset().count(c) > placed_circles(r@).to_multiset().count(c)
            && !room_for(region, c, r@, packing.gap_x as int, packing.gap_y as int),
        skip_unplaceable ==> leftovers_have_no_room(r@, region, sized@, packing.gap_x as int, packing.gap_y as int),
{
    let ghost gx = packing.gap_x as int;
    let ghost gy = packing.gap_y as int;
    let mut order: Vec<(u8, u16, u16)> = Vec::new();
    let mut c: usize = 0;
    while c < sized.len()
        invariant
            c <= sized@.len(),
            order@ == sized@.take(c as int),
        decreases sized@.len() - c,
    {
        order.push(sized[c]);
        assert(order@ =~= sized@.take(c + 1));
        c = c + 1;
    }
    assert(order@ =~= sized@);
    shuffle(rng, &mut order);
    let order = sort_by_area_descending(order);
    assert(order@.len() == sized@.len()) by {
        assert(order@.to_multiset().len() == order@.len());
        assert(sized@.to_multiset().len() == sized@.len());
    }
    assert forall|k: int| 0 <= k < order@.len() implies (#[trigger] order@[k]).1 >= 1 && order@[k].2 >= 1 by {
        assert(order@.to_multiset().count(order@[k]) > 0);
        assert(sized@.contains(order@[k]));
    }
    let mut placed: Vec<Placement> = Vec::new();
    let ghost mut src: Seq<int> = Seq::empty();
    let mut i: usize = 0;
    while i < order.len()
        invariant
            region.wf(),
            i <= order@.len(),
            order@.len() == sized@.len(),
            order@.to_multiset() == sized@.to_multiset(),
            forall|k: int| 0 <= k < order@.len() ==> (#[trigger] order@[k]).1 >= 1 && order@[k].2 >= 1,
            forall|k: int| 0 <= k < placed@.len() ==> inside(#[trigger] placed@[k].rect, region),
            spaced(placed@, packing.gap_x as int, packing.gap_y as int),
            src.len() == placed@.len(),
            forall|k: int| 0 <= k < placed@.len() ==> 0 <= #[trigger] src[k] < i
                && placed_circle(placed@[k]) == order@[src[k]],
            forall|p: int, q: int| 0 <= p < placed@.len() && 0 <= q < placed@.len() && p != q ==> src[p] != src[q],
            placed@.len() <= i,
            !skip_unplaceable ==> placed@.len() == i,
            skip_unplaceable ==> leftovers_have_no_room(placed@, region, order@.take(i as int), gx, gy),
            gx == packing.gap_x as int,
            gy == packing.gap_y as int,
        ensures
            i < order@.len() ==> !skip_unplaceable && !room_for(region, order@[i as int], placed@, gx, gy),
        decreases order@.len() - i,
    {
        let (number, width, height) = order[i];
        proof {
            assert(order@.take(i + 1) =~= order@.take(i as int).push(order@[i as int]));
        }
        if width > region.width || height > region.height {
            proof {
                assert forall|x: u16, y: u16| !#[trigger] free_at(region, width, height, placed@, gx, gy, x, y) by {
                }
            }
            if skip_unplaceable {
                proof {
                    lemma_leftovers_skip(placed@, region, order@.take(i as int), order@[i as int], gx, gy);
                }
                i = i + 1;
                continue;
            }
            break;
        }
        let candidates = free_positions(region, width, height, &placed, packing);
        match choose_item(rng, &candidates) {
            None => {
                proof {
                    assert forall|x: u16, y: u16| !#[trigger] free_at(region, width, height, placed@, gx, gy, x, y) by {
                        if free_at(region, width, height, placed@, gx, gy, x, y) {
                            assert(candidates@.contains((x, y)));
                        }
                    }
                }
                if skip_unplaceable {
                    proof {
                        lemma_leftovers_skip(placed@, region, order@.take(i as int), order@[i as int], gx, gy);
                    }
                    i = i + 1;
                    continue;
                }
                break;
            },
            Some((x, y)) => {
                let p = Placement { number, rect: Rect { x, y, width, height } };
                let ghost before = placed@;
                proof {
                    let k = choose|k: int| 0 <= k < candidates@.len() && candidates@[k] == (x, y);
                    assert(candidates@[k] == (x, y));
                }
                let ghost src_before = src;
                proof {
                    if skip_unplaceable {
                        lemma_leftovers_place(placed@, region, order@.take(i as int), p, gx, gy);
                    }
                }
                placed.push(p);
                proof {
                    src = src.push(i as int);
                    assert(placed@ == before.push(p));
                    assert forall|k: int| 0 <= k < placed@.len() implies 0 <= #[trigger] src[k] < i + 1
                        && placed_circle(placed@[k]) == order@[src[k]] by {
                        if k < before.len() {
                            assert(src[k] == src_before[k]);
                            assert(placed@[k] == before[k]);
                        }
                    }
                    assert forall|a: int, b: int| 0 <= a < placed@.len() && 0 <= b < placed@.len() && a != b
                        implies !too_close_spec(placed@[a].rect, placed@[b].rect, packing.gap_x as int, packing.gap_y as int) by {
                        if a == before.len() {
                            assert(!too_close_spec(p.rect, before[b].rect, packing.gap_x as int, packing.gap_y as int));
                        } else if b == before.len() {
                            assert(!too_close_spec(p.rect, before[a].rect, packing.gap_x as int, packing.gap_y as int));
                        } else {
                        }
                    }
                    assert(placed_circle(p) == order@[i as int]);
                }
            },
        }
        i = i + 1;
    }
    let (result, Ghost(from)) = sort_by_number(placed);
    proof {
        let composed = Seq::new(result@.len(), |k: int| src[from[k]]);
        assert forall|k: int| 0 <= k < result@.len() implies 0 <= #[trigger] composed[k] < order@.len()
            && placed_circles(result@)[k] == order@[composed[k]] by {
            assert(result@[k] == placed@[from[k]]);
        }
        assert forall|p: int, q: int| 0 <= p < result@.len() && 0 <= q < result@.len() && p != q
            implies composed[p] != composed[q] by {
        }
        lemma_injective_map_subset(placed_circles(result@), order@, composed);
        assert forall|k: int| 0 <= k < result@.len() implies inside(#[trigger] result@[k].rect, region) by {
            assert(result@[k] == placed@[from[k]]);
        }
        assert forall|a: int, b: int| 0 <= a < result@.len() && 0 <= b < result@.len() && a != b
            implies !too_close_spec(result@[a].rect, result@[b].rect, packing.gap_x as int, packing.gap_y as int) by {
            assert(result@[a] == placed@[from[a]]);
            assert(result@[b] == placed@[from[b]]);
        }
        if !skip_unplaceable && result@.len() < sized@.len() {
            let c = order@[i as int];
            let before = order@.take(i as int);
            assert forall|k: int| 0 <= k < result@.len() implies 0 <= #[trigger] composed[k] < before.len()
                && placed_circles(result@)[k] == before[composed[k]] by {
                assert(result@[k] == placed@[from[k]]);
            }
            lemma_injective_map_subset(placed_circles(result@), before, composed);
            assert(order@.take(i + 1) =~= before.push(c));
            vstd::seq_lib::lemma_multiset_commutative(order@.take(i + 1), order@.skip(i + 1));
            assert(order@.take(i + 1) + order@.skip(i + 1) =~= order@);
            assert(sized@.to_multiset().count(c) > placed_circles(result@).to_multiset().count(c));
            lemma_room_kept(region, c, placed@, result@, gx, gy);
        }
        if skip_unplaceable {
            assert(order@.take(i as int) =~= order@);
            lemma_same_items_same_circles(placed@, result@);
            assert forall|c: (u8, u16, u16)| #[trigger] sized@.to_multiset().count(c) > placed_circles(result@).to_multiset().count(c)
                implies !room_for(region, c, result@, gx, gy) by {
                assert(order@.take(i as int).to_multiset().count(c) > placed_circles(placed@).to_multiset().count(c));
                lemma_room_kept(region, c, placed@, result@, gx, gy);
            }
        }
    }
    result
}

/// Circle `c` has no room next to `placed` and so none next to `others`, which hold every one of
/// `placed` (as a multiset, the same items).
proof fn lemma_room_kept(region: Rect, c: (u8, u16, u16), placed: Seq<Placement>, others: Seq<Placement>, gap_x: int, gap_y: int)
    requires
        !room_for(region, c, placed, gap_x, gap_y),
        others.to_multiset() == placed.to_multiset(),
    ensures
        !room_for(region, c, others, gap_x, gap_y),
{
    broadcast use vstd::seq_lib::group_to_multiset_ensures;
    assert forall|x: u16, y: u16| !#[trigger] free_at(region, c.1, c.2, others, gap_x, gap_y, x, y) by {
        if free_at(region, c.1, c.2, others, gap_x, gap_y, x, y) {
            let rect = Rect { x, y, width: c.1, height: c.2 };
            assert forall|m: int| 0 <= m < placed.len() implies !too_close_spec(rect, #[trigger] placed[m].rect, gap_x, gap_y) by {
                assert(placed.to_multiset().count(placed[m]) > 0);
                assert(others.contains(placed[m]));
                let k = choose|k: int| 0 <= k < others.len() && others[k] == placed[m];
                assert(!too_close_spec(rect, others[k].rect, gap_x, gap_y));
            }
            assert(free_at(region, c.1, c.2, placed, gap_x, gap_y, x, y));
        }
    }
}

/// A sequence whose items sit, one for one, at distinct positions of another sequence holds
/// no item more often than the other does.
proof fn lemma_injective_map_subset<A>(a: Seq<A>, b: Seq<A>, f: Seq<int>)
    requires
        f.len() == a.len(),
        forall|k: int| 0 <= k < a.len() ==> 0 <= #[trigger] f[k] < b.len() && a[k] == b[f[k]],
        forall|p: int, q: int| 0 <= p < a.len() && 0 <= q < a.len() && p != q ==> f[p] != f[q],
    ensures
        a.to_multiset().subset_of(b.to_multiset()),
    decreases a.len(),
{
    broadcast use vstd::multiset::group_multiset_axioms;
    if a.len() == 0 {
        assert(a.to_multiset() =~= Multiset::<A>::empty());
    } else {
        let n = a.len() - 1;
        let j = f[n];
        let a2 = a.drop_last();
        let b2 = b.remove(j);
        let f2 = Seq::new(n as nat, |k: int| if f[k] < j { f[k] } else { f[k] - 1 });
        assert forall|k: int| 0 <= k < a2.len() implies 0 <= #[trigger] f2[k] < b2.len() && a2[k] == b2[f2[k]] by {
            assert(f[k] != j);
        }
        assert forall|p: int, q: int| 0 <= p < a2.len() && 0 <= q < a2.len() && p != q implies f2[p] != f2[q] by {
            assert(f[p] != j);
            assert(f[q] != j);
        }
        lemma_injective_map_subset(a2, b2, f2);
        assert(a =~= a2.push(a[n]));
        assert(a.to_multiset() =~= a2.to_multiset().insert(a[n]));
        assert(b2.to_multiset() =~= b.to_multiset().remove(b[j]));
        assert(b.to_multiset().count(b[j]) > 0) by {
            assert(b.contains(b[j]));
        }
    }
}

/// Every circle of a tier is at least one cell tall and two cells wide.
proof fn lemma_sized_cells(tier: int, circles: Seq<(u8, CircleSize)>)
    ensures
        forall|i: int| 0 <= i < sized_spec(tier, circles).len() ==> (#[trigger] sized_spec(tier, circles)[i]).1 >= 1
            && sized_spec(tier, circles)[i].2 >= 1,
{
    assert forall|i: int| 0 <= i < sized_spec(tier, circles).len() implies (#[trigger] sized_spec(tier, circles)[i]).1 >= 1
        && sized_spec(tier, circles)[i].2 >= 1 by {
        lemma_tiers_keep_size_order(tier);
    }
}

/// A placement that is good in a region is good in any area that holds the region.
proof fn lemma_placed_well_widen(r: Seq<Placement>, region: Rect, area: Rect, sized: Seq<(u8, u16, u16)>, gap_x: int, gap_y: int)
    requires
        placed_well(r, region, sized, gap_x, gap_y),
        inside(region, area),
    ensures
        placed_well(r, area, sized, gap_x, gap_y),
{
    assert forall|k: int| 0 <= k < r.len() implies inside(#[trigger] r[k].rect, area) by {
        assert(inside(r[k].rect, region));
    }
}

/// The regions a layout tries, in order: a dense layout first the centred region of
/// DENSE_REGION_RATIO, then the whole area; a loose one the whole area.
pub open spec fn regions_of(area: Rect, dense: bool) -> Seq<Rect> {
    if dense {
        seq![central_region_spec(area, DENSE_REGION_RATIO), area]
    } else {
        seq![area]
    }
}

/// Placing the circles `sized` in `region` one by one can get stuck: some good placement of part
/// of them leaves a circle with no room.
pub open spec fn can_get_stuck(region: Rect, sized: Seq<(u8, u16, u16)>, gap_x: int, gap_y: int) -> bool {
    exists|p: Seq<Placement>, c: (u8, u16, u16)|
        #![trigger placed_well(p, region, sized, gap_x, gap_y), room_for(region, c, p, gap_x, gap_y)]
        placed_well(p, region, sized, gap_x, gap_y) && sized.to_multiset().count(c) > placed_circles(p).to_multiset().count(c)
            && !room_for(region, c, p, gap_x, gap_y)
}

/// Tier `t` in region `ri` (of `regions_of`) is passed over only for a reason: its circles do
/// not fit the region by area, or placing them there can get stuck.
pub open spec fn passed_over(area: Rect, circles: Seq<(u8, CircleSize)>, dense: bool, ri: int, t: int) -> bool {
    let region = regions_of(area, dense)[ri];
    let sized = sized_spec(t, circles);
    !fits_by_area_spec(region, sized, if dense { dense_spec() } else { loose_spec() })
        || can_get_stuck(region, sized, packing_gap_x(dense), packing_gap_y(dense))
}

/// Every (region, tier) tried before (ri, t), region by region and from the largest tier down,
/// was passed over for a reason (see `passed_over`).
pub open spec fn passed_before(area: Rect, circles: Seq<(u8, CircleSize)>, dense: bool, ri: int, t: int) -> bool {
    forall|ri2: int, t2: int|
        0 <= ri2 < regions_of(area, dense).len() && 0 <= t2 < TIER_COUNT && (ri2 < ri || (ri2 == ri && t2 < t))
            ==> #[trigger] passed_over(area, circles, dense, ri2, t2)
}

/// A layout takes the first (region, tier) that it does not pass over: a full layout is one
/// tier placed well in one region, every earlier (region, tier) having been passed over for a
/// reason; a layout that leaves circles out comes only after every (region, tier) was.
pub open spec fn first_tier_taken(r: Seq<Placement>, area: Rect, circles: Seq<(u8, CircleSize)>, dense: bool) -> bool {
    let n = regions_of(area, dense).len() as int;
    &&& (circles.len() > 0 && area.width > 0 && area.height > 0 && r.len() == circles.len()) ==> exists|ri: int, t: int|
        0 <= ri < n && 0 <= t < TIER_COUNT && #[trigger] placed_well(r, regions_of(area, dense)[ri], sized_spec(t, circles),
            packing_gap_x(dense), packing_gap_y(dense)) && passed_before(area, circles, dense, ri, t)
    &&& (circles.len() > 0 && area.width > 0 && area.height > 0 && r.len() < circles.len()) ==> passed_before(area, circles,
        dense, n, 0)
}

/// A loose layout whose largest tier fits the area by area, and cannot get stuck there, places
/// every circle at the largest tier's sizes.
pub proof fn lemma_largest_tier_when_it_fits(r: Seq<Placement>, area: Rect, circles: Seq<(u8, CircleSize)>)
    requires
        first_tier_taken(r, area, circles, false),
        r.len() <= circles.len(),
        circles.len() > 0,
        area.width > 0,
        area.height > 0,
        fits_by_area_spec(area, sized_spec(0, circles), loose_spec()),
        !can_get_stuck(area, sized_spec(0, circles), packing_gap_x(false), packing_gap_y(false)),
    ensures
        r.len() == circles.len(),
        placed_well(r, area, sized_spec(0, circles), packing_gap_x(false), packing_gap_y(false)),
{
    assert(!passed_over(area, circles, false, 0, 0));
    if r.len() < circles.len() {
        assert(passed_over(area, circles, false, 0, 0));
    }
    let (ri, t) = choose|ri: int, t: int| 0 <= ri < 1 && 0 <= t < TIER_COUNT && #[trigger] placed_well(r, regions_of(area, false)[ri],
        sized_spec(t, circles), packing_gap_x(false), packing_gap_y(false)) && passed_before(area, circles, false, ri, t);
    if t > 0 {
        assert(passed_over(area, circles, false, 0, 0));
    }
}

/// What every layout of `circles` in `area` satisfies, whatever the random choices: at most one
/// placement per circle, all of one tier and placed well (see `placed_well`); and when circles
/// are left out, the layout is of the smallest tier and no circle left out has room left.
pub open spec fn layout_ok(r: Seq<Placement>, area: Rect, circles: Seq<(u8, CircleSize)>, dense: bool) -> bool {
    &&& r.len() <= circles.len()
    &&& exists|tier: int| 0 <= tier < TIER_COUNT && #[trigger] placed_well(r, area, sized_spec(tier, circles),
        packing_gap_x(dense), packing_gap_y(dense))
    &&& r.len() < circles.len() ==> placed_well(r, area, sized_spec(TIER_COUNT - 1, circles), packing_gap_x(dense),
        packing_gap_y(dense))
    &&& r.len() < circles.len() ==> leftovers_have_no_room(r, area, sized_spec(TIER_COUNT - 1, circles),
        packing_gap_x(dense), packing_gap_y(dense))
}

/// Places the circles (number, size level) in `area` without overlap, at random. A dense layout
/// keeps no gap between circles and first tries the centred region of `DENSE_REGION_RATIO`; a
/// loose one keeps the loose gap. Region by region and tier by tier (largest circles first), a
/// tier whose circles fit by area gets `ATTEMPTS_PER_TIER` tries at placing every circle. When
/// no tier fits, the smallest tier places as many circles as it can in the whole area: the best
/// of `ATTEMPTS_PER_TIER` tries (the last of equally good ones).
///
/// Whatever the random choices: the circles all come from one tier, each placed circle is a
/// distinct one of the input, every rectangle lies in `area`, no two come closer than the
/// packing's gap, and they are ordered by number; a layout that leaves circles out uses the
/// smallest tier, and each circle it leaves out has no room left in `area` next to the placed
/// ones. Empty input or an empty area gives an empty layout.
pub fn layout_circles(rng: &mut StdRng, area: Rect, circles: &[(u8, CircleSize)], dense: bool) -> (r: Vec<Placement>)
    requires
        area.wf(),
    ensures
        (circles@.len() == 0 || area.width == 0 || area.height == 0) ==> r@.len() == 0,
        r@.len() <= circles@.len(),
        exists|tier: int| 0 <= tier < TIER_COUNT && #[trigger] placed_well(r@, area, sized_spec(tier, circles@),
            packing_gap_x(dense), packing_gap_y(dense)),
        r@.len() < circles@.len() ==> placed_well(r@, area, sized_spec(TIER_COUNT - 1, circles@),
            packing_gap_x(dense), packing_gap_y(dense)),
        r@.len() < circles@.len() ==> leftovers_have_no_room(r@, area, sized_spec(TIER_COUNT - 1, circles@),
            packing_gap_x(dense), packing_gap_y(dense)),
        layout_ok(r@, area, circles@, dense),
        first_tier_taken(r@, area, circles@, dense),
{
    if circles.len() == 0 || area.is_empty() {
        let none: Vec<Placement> = Vec::new();
        assert(placed_circles(none@).to_multiset() =~= Multiset::empty());
        assert(placed_well(none@, area, sized_spec(0, circles@), packing_gap_x(dense), packing_gap_y(dense)));
        proof {
            let last = sized_spec(TIER_COUNT - 1, circles@);
            lemma_sized_cells((TIER_COUNT - 1) as int, circles@);
            assert(placed_well(none@, area, last, packing_gap_x(dense), packing_gap_y(dense)));
            assert forall|c: (u8, u16, u16)| #[trigger] last.to_multiset().count(c) > placed_circles(none@).to_multiset().count(c)
                implies !room_for(area, c, none@, packing_gap_x(dense), packing_gap_y(dense)) by {
                assert(last.contains(c));
                let k = choose|k: int| 0 <= k < last.len() && last[k] == c;
                assert(c.1 >= 1 && c.2 >= 1);
                assert forall|x: u16, y: u16| !#[trigger] free_at(area, c.1, c.2, none@, packing_gap_x(dense), packing_gap_y(dense), x, y) by {
                }
            }
        }
        return none;
    }
    let packing = packing_for(dense);
    let mut regions: Vec<Rect> = Vec::new();
    if dense {
        regions.push(central_region(area, DENSE_REGION_RATIO));
    }
    regions.push(area);
    assert(regions@ =~= regions_of(area, dense));
    let mut ri: usize = 0;
    while ri < regions.len()
        invariant
            area.wf(),
            circles@.len() > 0 && area.width > 0 && area.height > 0,
            packing == (if dense { dense_spec() } else { loose_spec() }),
            forall|k: int| 0 <= k < regions@.len() ==> (#[trigger] regions@[k]).wf() && inside(regions@[k], area),
            regions@ == regions_of(area, dense),
            ri <= regions@.len(),
            passed_before(area, circles@, dense, ri as int, 0),
        decreases regions@.len() - ri,
    {
        let region = regions[ri];
        let mut tier: usize = 0;
        while tier < TIER_COUNT
            invariant
                area.wf(),
                circles@.len() > 0 && area.width > 0 && area.height > 0,
                region.wf(),
                inside(region, area),
                packing == (if dense { dense_spec() } else { loose_spec() }),
                regions@ == regions_of(area, dense),
                ri < regions@.len(),
                region == regions@[ri as int],
                tier <= TIER_COUNT,
                passed_before(area, circles@, dense, ri as int, tier as int),
            decreases TIER_COUNT - tier,
        {
            let sized = sized_circles(tier, circles);
            let ghost gx = packing_gap_x(dense);
            let ghost gy = packing_gap_y(dense);
            if fits_by_area(&region, &sized, &packing) {
                proof {
                    lemma_sized_cells(tier as int, circles@);
                }
                let mut attempt: usize = 0;
                while attempt < ATTEMPTS_PER_TIER
                    invariant
                        area.wf(),
                        circles@.len() > 0 && area.width > 0 && area.height > 0,
                        region.wf(),
                        inside(region, area),
                        tier < TIER_COUNT,
                        sized@ == sized_spec(tier as int, circles@),
                        packing == (if dense { dense_spec() } else { loose_spec() }),
                        regions@ == regions_of(area, dense),
                        ri < regions@.len(),
                        region == regions@[ri as int],
                        passed_before(area, circles@, dense, ri as int, tier as int),
                        gx == packing_gap_x(dense),
                        gy == packing_gap_y(dense),
                        attempt > 0 ==> can_get_stuck(region, sized@, gx, gy),
                    decreases ATTEMPTS_PER_TIER - attempt,
                {
                    proof {
                        lemma_sized_cells(tier as int, circles@);
                    }
                    let placements = place_circles(rng, region, &sized, &packing, false);
                    if placements.len() == sized.len() {
                        proof {
                            lemma_placed_well_widen(placements@, region, area, sized@, packing.gap_x as int, packing.gap_y as int);
                            assert(placed_well(placements@, area, sized_spec(tier as int, circles@), packing_gap_x(dense), packing_gap_y(dense)));
                            assert(placed_well(placements@, regions_of(area, dense)[ri as int], sized_spec(tier as int, circles@),
                                packing_gap_x(dense), packing_gap_y(dense)));
                        }
                        return placements;
                    }
                    proof {
                        let c = choose|c: (u8, u16, u16)| sized@.to_multiset().count(c) > placed_circles(placements@).to_multiset().count(c)
                            && !room_for(region, c, placements@, packing.gap_x as int, packing.gap_y as int);
                        assert(placed_well(placements@, region, sized@, gx, gy));
                        assert(!room_for(region, c, placements@, gx, gy));
                        assert(can_get_stuck(region, sized@, gx, gy));
                    }
                    attempt = attempt + 1;
                }
                proof {
                    assert(can_get_stuck(region, sized@, gx, gy));
                    assert(passed_over(area, circles@, dense, ri as int, tier as int));
                }
            } else {
                proof {
                    assert(passed_over(area, circles@, dense, ri as int, tier as int));
                }
            }
            proof {
                assert forall|ri2: int, t2: int|
                    0 <= ri2 < regions_of(area, dense).len() && 0 <= t2 < TIER_COUNT && (ri2 < ri || (ri2 == ri && t2 < tier + 1))
                    implies #[trigger] passed_over(area, circles@, dense, ri2, t2) by {
                    if !(ri2 == ri && t2 == tier) {
                        assert(ri2 < ri || (ri2 == ri && t2 < tier));
                    }
                }
            }
            tier = tier + 1;
        }
        proof {
            assert forall|ri2: int, t2: int|
                0 <= ri2 < regions_of(area, dense).len() && 0 <= t2 < TIER_COUNT && (ri2 < ri + 1 || (ri2 == ri + 1 && t2 < 0))
                implies #[trigger] passed_over(area, circles@, dense, ri2, t2) by {
                assert(ri2 < ri || (ri2 == ri && t2 < TIER_COUNT));
            }
        }
        ri = ri + 1;
    }
    let sized = sized_circles(TIER_COUNT - 1, circles);
    proof {
        lemma_sized_cells((TIER_COUNT - 1) as int, circles@);
    }
    let mut best: Vec<Placement> = Vec::new();
    assert(placed_circles(best@).to_multiset() =~= Multiset::empty());
    let mut attempt: usize = 0;
    while attempt < ATTEMPTS_PER_TIER
        invariant
            area.wf(),
            circles@.len() > 0 && area.width > 0 && area.height > 0,
            packing == (if dense { dense_spec() } else { loose_spec() }),
            sized@ == sized_spec((TIER_COUNT - 1) as int, circles@),
            forall|i: int| 0 <= i < sized@.len() ==> (#[trigger] sized@[i]).1 >= 1 && sized@[i].2 >= 1,
            placed_well(best@, area, sized@, packing.gap_x as int, packing.gap_y as int),
            best@.len() <= sized@.len(),
            attempt > 0 ==> leftovers_have_no_room(best@, area, sized@, packing.gap_x as int, packing.gap_y as int),
            attempt == 0 ==> best@.len() == 0,
        decreases ATTEMPTS_PER_TIER - attempt,
    {
        let placements = place_circles(rng, area, &sized, &packing, true);
        if placements.len() >= best.len() {
            best = placements;
        }
        attempt = attempt + 1;
    }
    assert(placed_well(best@, area, sized_spec((TIER_COUNT - 1) as int, circles@), packing_gap_x(dense), packing_gap_y(dense)));
    assert(leftovers_have_no_room(best@, area, sized_spec((TIER_COUNT - 1) as int, circles@), packing_gap_x(dense),
        packing_gap_y(dense)));
    proof {
        let n = regions_of(area, dense).len() as int;
        assert(regions_of(area, dense)[n - 1] == area);
        assert(placed_well(best@, regions_of(area, dense)[n - 1], sized_spec(TIER_COUNT - 1, circles@), packing_gap_x(dense),
            packing_gap_y(dense)));
        assert forall|ri2: int, t2: int|
            0 <= ri2 < n && 0 <= t2 < TIER_COUNT && (ri2 < n - 1 || (ri2 == n - 1 && t2 < TIER_COUNT - 1))
            implies #[trigger] passed_over(area, circles@, dense, ri2, t2) by {
            assert(ri2 < n);
        }
        assert(passed_before(area, circles@, dense, n - 1, TIER_COUNT - 1));
    }
    best
}

/// Columns kept free between circles of a dense or a loose layout.
pub open spec fn packing_gap_x(dense: bool) -> int {
    if dense { dense_spec().gap_x as int } else { loose_spec().gap_x as int }
}

/// Rows kept free between circles of a dense or a loose layout.
pub open spec fn packing_gap_y(dense: bool) -> int {
    if dense { dense_spec().gap_y as int } else { loose_spec().gap_y as int }
}

/// No two circles of a good placement overlap, whatever the gap.
pub proof fn lemma_layout_has_no_overlap(r: Seq<Placement>, region: Rect, sized: Seq<(u8, u16, u16)>, gap_x: int, gap_y: int)
    requires
        gap_x >= 0,
        gap_y >= 0,
        placed_well(r, region, sized, gap_x, gap_y),
    ensures
        forall|i: int, j: int| 0 <= i < r.len() && 0 <= j < r.len() && i != j ==> !(#[trigger] r[i].rect).overlaps(#[trigger] r[j].rect),
{
    assert forall|i: int, j: int| 0 <= i < r.len() && 0 <= j < r.len() && i != j implies !(#[trigger] r[i].rect).overlaps(#[trigger] r[j].rect) by {
        lemma_apart_means_disjoint(r[i].rect, r[j].rect, gap_x, gap_y);
    }
}

/// The placement has the size of some input circle with its number, in tier `tier`: its height
/// is the tier height of that circle's level and its width twice that.
pub open spec fn sized_as_input(p: Placement, tier: int, circles: Seq<(u8, CircleSize)>) -> bool {
    exists|i: int| #![trigger circles[i]] 0 <= i < circles.len() && circles[i].0 == p.number
        && p.rect.height == tier_height(tier, circles[i].1) && p.rect.width == 2 * p.rect.height
}

/// In a good placement of one tier's circles, each placed circle has the size of its level in
/// that tier (see `sized_as_input`). So within one layout a huge circle is taller than a large
/// one, a large one than a medium one, and a medium one than a small one.
pub proof fn lemma_layout_sizes_follow_levels(r: Seq<Placement>, region: Rect, tier: int, circles: Seq<(u8, CircleSize)>, gap_x: int, gap_y: int)
    requires
        placed_well(r, region, sized_spec(tier, circles), gap_x, gap_y),
    ensures
        forall|k: int| 0 <= k < r.len() ==> sized_as_input(#[trigger] r[k], tier, circles),
{
    let sized = sized_spec(tier, circles);
    assert forall|k: int| 0 <= k < r.len() implies sized_as_input(#[trigger] r[k], tier, circles) by {
        let c = placed_circle(r[k]);
        assert(placed_circles(r)[k] == c);
        assert(placed_circles(r).to_multiset().count(c) > 0) by {
            assert(placed_circles(r).contains(c));
        }
        assert(sized.to_multiset().count(c) > 0);
        assert(sized.contains(c));
        let i = choose|i: int| 0 <= i < sized.len() && sized[i] == c;
        lemma_tiers_keep_size_order(tier);
        assert(tier_height(tier, circles[i].1) <= 9);
        assert(circles[i].0 == r[k].number && r[k].rect.height == tier_height(tier, circles[i].1)
            && r[k].rect.width == 2 * r[k].rect.height);
    }
}

} // verus!
