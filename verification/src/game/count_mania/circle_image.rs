//! Glyphs of the numbered circles for terminals that show text only, and the cell patches that
//! an image terminal redraws over the board image (around the ripple, the cross and the fish).
//! Building and sending the images lives outside this crate.

use crate::game::count_mania::layout::inside;
use crate::rect::Rect;
use vstd::prelude::*;

verus! {

/// The circled digit for `number`: ① (U+2460) for 1 through ⑳ (U+2473) for 20, `None` outside
/// 1..=20.
pub open spec fn circled_digit_spec(number: u8) -> Option<char> {
    if 1 <= number <= 20 {
        Some((0x2460 + number - 1) as char)
    } else {
        None
    }
}

/// The circled digit ①..⑳ for 1..=20, `None` for other numbers.
pub fn circled_digit(number: u8) -> (r: Option<char>)
    ensures
        r == circled_digit_spec(number),
{
    match number {
        1 => Some('①'),
        2 => Some('②'),
        3 => Some('③'),
        4 => Some('④'),
        5 => Some('⑤'),
        6 => Some('⑥'),
        7 => Some('⑦'),
        8 => Some('⑧'),
        9 => Some('⑨'),
        10 => Some('⑩'),
        11 => Some('⑪'),
        12 => Some('⑫'),
        13 => Some('⑬'),
        14 => Some('⑭'),
        15 => Some('⑮'),
        16 => Some('⑯'),
        17 => Some('⑰'),
        18 => Some('⑱'),
        19 => Some('⑲'),
        20 => Some('⑳'),
        _ => None,
    }
}

/// Cells a fish covers: three columns, one row.
pub const FISH_WIDTH: u16 = 3;

/// Rows a fish covers.
pub const FISH_HEIGHT: u16 = 1;

/// A fish drawn on an image board: its top-left cell (rounded), heading and colour.
#[derive(Clone, Copy, Debug, PartialEq, Eq, Hash)]
pub struct BoardFish {
    pub x: u16,
    pub y: u16,
    pub facing_right: bool,
    pub color: [u8; 3],
}

impl BoardFish {
    /// The cells the fish covers (cut at the edge of the coordinate space).
    pub fn rect(&self) -> (r: Rect)
        ensures
            r.wf(),
            r.x == self.x,
            r.y == self.y,
            r.width == (if FISH_WIDTH <= u16::MAX - self.x { FISH_WIDTH as int } else { u16::MAX - self.x }),
            r.height == (if FISH_HEIGHT <= u16::MAX - self.y { FISH_HEIGHT as int } else { u16::MAX - self.y }),
    {
        Rect::new(self.x, self.y, FISH_WIDTH, FISH_HEIGHT)
    }
}

/// The cells where patches and fish may be drawn: the board without its two leftmost columns
/// (image terminals anchor the board image there).
pub open spec fn patch_area_spec(board: Rect) -> Rect {
    let left = if board.x + 2 <= board.right_spec() { board.x + 2 } else { board.right_spec() };
    Rect { x: left as u16, y: board.y, width: (board.right_spec() - left) as u16, height: board.height }
}

/// The board without its two leftmost columns; see `patch_area_spec`.
pub fn patch_area(board: Rect) -> (r: Rect)
    requires
        board.wf(),
    ensures
        r == patch_area_spec(board),
        r.wf(),
        inside(r, board),
{
    let shifted = board.x.saturating_add(2);
    let right = board.right();
    let left = if shifted <= right { shifted } else { right };
    Rect::new(left, board.y, right - left, board.height)
}

/// `rect` one column wider (within the coordinate space).
pub open spec fn widened(rect: Rect) -> Rect {
    Rect {
        width: if rect.x + rect.width + 1 <= u16::MAX { (rect.width + 1) as u16 } else { (u16::MAX - rect.x) as u16 },
        ..rect
    }
}

/// Two patches overlap or sit side by side (one column apart counts as touching).
pub open spec fn patches_touch_spec(a: Rect, b: Rect) -> bool {
    widened(a).overlaps(b) || widened(b).overlaps(a)
}

/// Whether two patches overlap or sit side by side; see `patches_touch_spec`.
pub fn patches_touch(a: Rect, b: Rect) -> (r: bool)
    requires
        a.wf(),
        b.wf(),
    ensures
        r == patches_touch_spec(a, b),
{
    let wa = Rect::new(a.x, a.y, a.width.saturating_add(1), a.height);
    let wb = Rect::new(b.x, b.y, b.width.saturating_add(1), b.height);
    wa.intersects(&b) || wb.intersects(&a)
}

/// `rect` grown by one cell inside `area`: to the right if it can, else down, else up, else
/// left; `None` when it already fills the area that way.
pub fn grow_within(rect: Rect, area: Rect) -> (r: Option<Rect>)
    requires
        rect.wf(),
        area.wf(),
    ensures
        match r {
            Some(g) => g.wf() && g == (if rect.right_spec() < area.right_spec() {
                Rect { width: (rect.width + 1) as u16, ..rect }
            } else if rect.bottom_spec() < area.bottom_spec() {
                Rect { height: (rect.height + 1) as u16, ..rect }
            } else if rect.y > area.y {
                Rect { y: (rect.y - 1) as u16, height: (rect.height + 1) as u16, ..rect }
            } else {
                Rect { x: (rect.x - 1) as u16, width: (rect.width + 1) as u16, ..rect }
            }),
            None => rect.right_spec() >= area.right_spec() && rect.bottom_spec() >= area.bottom_spec()
                && rect.y <= area.y && rect.x <= area.x,
        },
{
    if rect.right() < area.right() {
        Some(Rect::new(rect.x, rect.y, rect.width + 1, rect.height))
    } else if rect.bottom() < area.bottom() {
        Some(Rect::new(rect.x, rect.y, rect.width, rect.height + 1))
    } else if rect.y > area.y {
        Some(Rect::new(rect.x, rect.y - 1, rect.width, rect.height + 1))
    } else if rect.x > area.x {
        Some(Rect::new(rect.x - 1, rect.y, rect.width + 1, rect.height))
    } else {
        None
    }
}

/// One patch to draw: its cells, and whether it shows the ripple or the cross (else it shows
/// fish that moved).
#[derive(Clone, Copy, Debug, PartialEq, Eq, Structural)]
pub struct PatchItem {
    pub rect: Rect,
    pub effects: bool,
}

/// The patch holds at least one cell.
pub open spec fn has_cells(item: PatchItem) -> bool {
    item.rect.width != 0 && item.rect.height != 0
}

/// `rect` is the union of the given patches with cells that lie inside it: its left column, top
/// row, right edge and bottom edge are each those of one of them.
#[verifier::opaque]
pub open spec fn spanned_by(items: Seq<PatchItem>, rect: Rect) -> bool {
    &&& exists|i: int| 0 <= i < items.len() && has_cells(items[i]) && #[trigger] inside(items[i].rect, rect)
        && items[i].rect.x == rect.x
    &&& exists|i: int| 0 <= i < items.len() && has_cells(items[i]) && #[trigger] inside(items[i].rect, rect)
        && items[i].rect.y == rect.y
    &&& exists|i: int| 0 <= i < items.len() && has_cells(items[i]) && #[trigger] inside(items[i].rect, rect)
        && items[i].rect.right_spec() == rect.right_spec()
    &&& exists|i: int| 0 <= i < items.len() && has_cells(items[i]) && #[trigger] inside(items[i].rect, rect)
        && items[i].rect.bottom_spec() == rect.bottom_spec()
}

/// How many of the given patches hold cells.
pub open spec fn count_with_cells(items: Seq<PatchItem>) -> nat
    decreases items.len(),
{
    if items.len() == 0 {
        0
    } else {
        count_with_cells(items.drop_last()) + (if has_cells(items.last()) { 1nat } else { 0nat })
    }
}

/// The given patches that hold cells, in their order.
pub open spec fn with_cells(items: Seq<PatchItem>) -> Seq<PatchItem>
    decreases items.len(),
{
    if items.len() == 0 {
        Seq::empty()
    } else {
        let rest = with_cells(items.drop_last());
        if has_cells(items.last()) {
            rest.push(items.last())
        } else {
            rest
        }
    }
}

/// (i, j), with i < j, is the first pair of patches in `m` that touch: first by `i`, then by `j`.
pub open spec fn first_touching(m: Seq<PatchItem>, i: int, j: int) -> bool {
    &&& 0 <= i < j < m.len()
    &&& patches_touch_spec(m[i].rect, m[j].rect)
    &&& forall|a: int, b: int| 0 <= a < i && a < b < m.len() ==> !patches_touch_spec(#[trigger] m[a].rect, #[trigger] m[b].rect)
    &&& forall|b: int| i < b < j ==> !patches_touch_spec(m[i].rect, #[trigger] m[b].rect)
}

/// One merging step on the touching pair (i, j): patch `i` becomes the union of both (showing
/// effects if either did), and the last patch takes the place of patch `j`.
pub open spec fn merge_once(m: Seq<PatchItem>, i: int, j: int) -> Seq<PatchItem> {
    let joined = PatchItem { rect: m[i].rect.union_spec(m[j].rect), effects: m[i].effects || m[j].effects };
    Seq::new((m.len() - 1) as nat, |k: int| if k == i { joined } else if k == j { m[m.len() - 1] } else { m[k] })
}

/// The patches left when the first touching pair is merged again and again until no two touch.
pub open spec fn merge_touching(m: Seq<PatchItem>) -> Seq<PatchItem>
    decreases m.len(),
{
    if exists|i: int, j: int| first_touching(m, i, j) {
        let (i, j) = choose|i: int, j: int| first_touching(m, i, j);
        merge_touching(merge_once(m, i, j))
    } else {
        m
    }
}

/// The merged patches of `items`: those with cells, merged pair by pair while any two touch.
pub open spec fn merged_patches(items: Seq<PatchItem>) -> Seq<PatchItem> {
    merge_touching(with_cells(items))
}

/// There is at most one first touching pair.
proof fn lemma_first_touching_unique(m: Seq<PatchItem>, i: int, j: int, i2: int, j2: int)
    requires
        first_touching(m, i, j),
        first_touching(m, i2, j2),
    ensures
        i == i2 && j == j2,
{
    if i < i2 {
        assert(!patches_touch_spec(m[i].rect, m[j].rect));
    } else if i2 < i {
        assert(!patches_touch_spec(m[i2].rect, m[j2].rect));
    } else if j < j2 {
        assert(!patches_touch_spec(m[i].rect, m[j].rect));
    } else if j2 < j {
        assert(!patches_touch_spec(m[i2].rect, m[j2].rect));
    }
}

/// Merging the first touching pair leaves the final result as it is.
proof fn lemma_merge_touching_step(m: Seq<PatchItem>, i: int, j: int)
    requires
        first_touching(m, i, j),
    ensures
        merge_touching(m) == merge_touching(merge_once(m, i, j)),
{
    assert(exists|a: int, b: int| first_touching(m, a, b));
    let (a, b) = choose|a: int, b: int| first_touching(m, a, b);
    lemma_first_touching_unique(m, i, j, a, b);
}

/// Patches of which no two touch are left as they are.
proof fn lemma_merge_touching_done(m: Seq<PatchItem>)
    requires
        forall|a: int, b: int| 0 <= a < m.len() && 0 <= b < m.len() && a != b
            ==> !patches_touch_spec(#[trigger] m[a].rect, #[trigger] m[b].rect),
    ensures
        merge_touching(m) == m,
{
    if exists|a: int, b: int| first_touching(m, a, b) {
        let (a, b) = choose|a: int, b: int| first_touching(m, a, b);
        assert(!patches_touch_spec(m[a].rect, m[b].rect));
    }
}

/// The merged patches cover the given ones: every patch with cells lies inside a merged one that
/// keeps its effects, none is empty, each is the union of the given patches inside it, and a
/// merged patch shows effects only when a given patch inside it did.
#[verifier::opaque]
pub open spec fn merged_well(items: Seq<PatchItem>, merged: Seq<PatchItem>) -> bool {
    &&& forall|k: int| 0 <= k < merged.len() ==> (#[trigger] merged[k]).rect.wf() && merged[k].rect.width != 0
        && merged[k].rect.height != 0
    &&& forall|i: int| 0 <= i < items.len() && items[i].rect.width != 0 && items[i].rect.height != 0
        ==> exists|k: int| 0 <= k < merged.len() && inside(#[trigger] items[i].rect, merged[k].rect)
            && (items[i].effects ==> merged[k].effects)
    &&& forall|k: int| 0 <= k < merged.len() && (#[trigger] merged[k]).effects
        ==> exists|i: int| 0 <= i < items.len() && items[i].effects && inside(#[trigger] items[i].rect, merged[k].rect)
    &&& forall|k: int| 0 <= k < merged.len() ==> spanned_by(items, #[trigger] merged[k].rect)
}

/// Merges patches that overlap or sit side by side, so that no two drawn in one frame touch
/// (a later patch would overwrite the anchor cell of an earlier one). Empty patches are dropped;
/// then, while two patches touch (the first such pair in order), the later one is removed and
/// the earlier one becomes the union of both. There are never more merged patches than given
/// patches with cells.
pub fn merge_patch_items(items: &Vec<PatchItem>) -> (r: Vec<PatchItem>)
    requires
        forall|i: int| 0 <= i < items@.len() ==> (#[trigger] items@[i]).rect.wf(),
    ensures
        r@ == merged_patches(items@),
        merged_well(items@, r@),
        r@.len() <= count_with_cells(items@),
        forall|a: int, b: int| 0 <= a < r@.len() && 0 <= b < r@.len() && a != b
            ==> !patches_touch_spec(#[trigger] r@[a].rect, #[trigger] r@[b].rect),
{
    let mut merged: Vec<PatchItem> = Vec::new();
    let mut n: usize = 0;
    while n < items.len()
        invariant
            n <= items@.len(),
            forall|i: int| 0 <= i < items@.len() ==> (#[trigger] items@[i]).rect.wf(),
            forall|k: int| 0 <= k < merged@.len() ==> (#[trigger] merged@[k]).rect.wf() && merged@[k].rect.width != 0
                && merged@[k].rect.height != 0,
            forall|i: int| 0 <= i < n && items@[i].rect.width != 0 && items@[i].rect.height != 0
                ==> exists|k: int| 0 <= k < merged@.len() && inside(#[trigger] items@[i].rect, merged@[k].rect)
                    && (items@[i].effects ==> merged@[k].effects),
            forall|k: int| 0 <= k < merged@.len() && (#[trigger] merged@[k]).effects
                ==> exists|i: int| 0 <= i < items@.len() && items@[i].effects && inside(#[trigger] items@[i].rect, merged@[k].rect),
            forall|k: int| 0 <= k < merged@.len() ==> spanned_by(items@, #[trigger] merged@[k].rect),
            merged@.len() == count_with_cells(items@.take(n as int)),
            merged@ == with_cells(items@.take(n as int)),
        decreases items@.len() - n,
    {
        let item = items[n];
        proof {
            assert(items@.take(n + 1).drop_last() =~= items@.take(n as int));
            assert(items@.take(n + 1).last() == item);
        }
        if !item.rect.is_empty() {
            let ghost before = merged@;
            merged.push(item);
            proof {
                assert(merged@[before.len() as int] == item);
                assert forall|i: int| 0 <= i < n + 1 && items@[i].rect.width != 0 && items@[i].rect.height != 0
                    implies exists|k: int| 0 <= k < merged@.len() && inside(#[trigger] items@[i].rect, merged@[k].rect)
                        && (items@[i].effects ==> merged@[k].effects) by {
                    if i < n {
                        let k = choose|k: int| 0 <= k < before.len() && inside(items@[i].rect, before[k].rect)
                            && (items@[i].effects ==> before[k].effects);
                        assert(merged@[k] == before[k]);
                    } else {
                        assert(inside(items@[i].rect, merged@[before.len() as int].rect));
                    }
                }
                assert forall|k: int| 0 <= k < merged@.len() && (#[trigger] merged@[k]).effects
                    implies exists|i: int| 0 <= i < items@.len() && items@[i].effects && inside(#[trigger] items@[i].rect, merged@[k].rect) by {
                    if k < before.len() {
                        assert(merged@[k] == before[k]);
                    } else {
                        assert(inside(items@[n as int].rect, merged@[k].rect));
                    }
                }
                assert forall|k: int| 0 <= k < merged@.len() implies spanned_by(items@, #[trigger] merged@[k].rect) by {
                    if k < before.len() {
                        assert(merged@[k] == before[k]);
                    } else {
                        reveal(spanned_by);
                        assert(inside(items@[n as int].rect, merged@[k].rect));
                    }
                }
            }
        }
        n = n + 1;
    }
    assert(items@.take(items@.len() as int) =~= items@);
    proof {
        reveal(merged_well);
    }
    loop
        invariant
            merged_well(items@, merged@),
            forall|k: int| 0 <= k < merged@.len() ==> (#[trigger] merged@[k]).rect.wf(),
            merged@.len() <= count_with_cells(items@),
            merge_touching(merged@) == merged_patches(items@),
        decreases merged@.len(),
    {
        let mut pair: Option<(usize, usize)> = None;
        let mut i: usize = 0;
        while i < merged.len() && pair.is_none()
            invariant
                i <= merged@.len(),
                merged_well(items@, merged@),
                forall|k: int| 0 <= k < merged@.len() ==> (#[trigger] merged@[k]).rect.wf(),
                pair matches Some(p) ==> first_touching(merged@, p.0 as int, p.1 as int),
                pair is None ==> forall|a: int, b: int| 0 <= a < i && a < b < merged@.len()
                    ==> !patches_touch_spec(#[trigger] merged@[a].rect, #[trigger] merged@[b].rect),
            decreases merged@.len() - i + (if pair is None { 1int } else { 0int }),
        {
            let mut j: usize = i + 1;
            while j < merged.len() && pair.is_none()
                invariant
                    i < merged@.len(),
                    i + 1 <= j <= merged@.len(),
                    merged_well(items@, merged@),
                    forall|k: int| 0 <= k < merged@.len() ==> (#[trigger] merged@[k]).rect.wf(),
                    pair matches Some(p) ==> first_touching(merged@, p.0 as int, p.1 as int),
                    forall|a: int, b: int| 0 <= a < i && a < b < merged@.len()
                        ==> !patches_touch_spec(#[trigger] merged@[a].rect, #[trigger] merged@[b].rect),
                    pair is None ==> forall|b: int| i < b < j ==> !patches_touch_spec(merged@[i as int].rect, #[trigger] merged@[b].rect),
                decreases merged@.len() - j,
            {
                if patches_touch(merged[i].rect, merged[j].rect) {
                    pair = Some((i, j));
                }
                j = j + 1;
            }
            if pair.is_none() {
                i = i + 1;
            }
        }
        match pair {
            None => {
                proof {
                    assert forall|a: int, b: int| 0 <= a < merged@.len() && 0 <= b < merged@.len() && a != b
                        implies !patches_touch_spec(#[trigger] merged@[a].rect, #[trigger] merged@[b].rect) by {
                        if b < a {
                            assert(!patches_touch_spec(merged@[b].rect, merged@[a].rect));
                        }
                    }
                    lemma_merge_touching_done(merged@);
                }
                return merged;
            },
            Some((i, j)) => {
                let ghost before = merged@;
                let other = merged.swap_remove(j);
                let joined = PatchItem {
                    rect: merged[i].rect.union(&other.rect),
                    effects: merged[i].effects || other.effects,
                };
                merged.set(i, joined);
                proof {
                    lemma_merge_step(items@, before, merged@, i as int, j as int);
                    assert(merged@ =~= merge_once(before, i as int, j as int));
                    lemma_merge_touching_step(before, i as int, j as int);
                }
            },
        }
    }
}

/// Replacing patch `i` by its union with patch `j` and moving the last patch into `j`'s place
/// keeps the merged patches covering the given ones.
proof fn lemma_merge_step(items: Seq<PatchItem>, before: Seq<PatchItem>, after: Seq<PatchItem>, i: int, j: int)
    requires
        merged_well(items, before),
        0 <= i < j < before.len(),
        after.len() == before.len() - 1,
        after[i] == (PatchItem { rect: before[i].rect.union_spec(before[j].rect), effects: before[i].effects || before[j].effects }),
        forall|k: int| 0 <= k < after.len() && k != i && k != j ==> after[k] == before[k],
        j < after.len() ==> after[j] == before[before.len() - 1],
    ensures
        merged_well(items, after),
        forall|k: int| 0 <= k < after.len() ==> (#[trigger] after[k]).rect.wf(),
{
    reveal(merged_well);
    let last = before.len() - 1;
    // where each patch of `before` went
    let to = |k: int| if k == i || k == j { i } else if k == last { j } else { k };
    assert forall|k: int| 0 <= k < before.len() implies 0 <= #[trigger] to(k) < after.len()
        && inside(before[k].rect, after[to(k)].rect) && (before[k].effects ==> after[to(k)].effects) by {
    }
    assert forall|m: int| 0 <= m < items.len() && items[m].rect.width != 0 && items[m].rect.height != 0
        implies exists|k: int| 0 <= k < after.len() && inside(#[trigger] items[m].rect, after[k].rect)
            && (items[m].effects ==> after[k].effects) by {
        let k = choose|k: int| 0 <= k < before.len() && inside(items[m].rect, before[k].rect)
            && (items[m].effects ==> before[k].effects);
        assert(inside(before[k].rect, after[to(k)].rect));
        assert(inside(items[m].rect, after[to(k)].rect));
    }
    assert forall|k: int| 0 <= k < after.len() && (#[trigger] after[k]).effects
        implies exists|m: int| 0 <= m < items.len() && items[m].effects && inside(#[trigger] items[m].rect, after[k].rect) by {
        let src = if k == i { if before[i].effects { i } else { j } } else if k == j { last } else { k };
        let m = choose|m: int| 0 <= m < items.len() && items[m].effects && inside(items[m].rect, before[src].rect);
        assert(inside(before[src].rect, after[k].rect));
        assert(inside(items[m].rect, after[k].rect));
    }
    assert forall|k: int| 0 <= k < after.len() implies spanned_by(items, #[trigger] after[k].rect) by {
        if k == i {
            lemma_union_spanned(items, before[i].rect, before[j].rect);
        } else if k == j {
            assert(after[k] == before[last]);
        } else {
            assert(after[k] == before[k]);
        }
    }
}

/// The union of two rectangles that are each the union of given patches is the union of the
/// given patches inside it.
proof fn lemma_union_spanned(items: Seq<PatchItem>, a: Rect, b: Rect)
    requires
        a.wf(),
        b.wf(),
        spanned_by(items, a),
        spanned_by(items, b),
    ensures
        spanned_by(items, a.union_spec(b)),
{
    reveal(spanned_by);
    let u = a.union_spec(b);
    assert(inside(a, u) && inside(b, u));
    let s = if a.x <= b.x { a } else { b };
    let w = choose|w: int| 0 <= w < items.len() && has_cells(items[w]) && #[trigger] inside(items[w].rect, s)
        && items[w].rect.x == s.x;
    assert(inside(items[w].rect, u));
    let s = if a.y <= b.y { a } else { b };
    let w = choose|w: int| 0 <= w < items.len() && has_cells(items[w]) && #[trigger] inside(items[w].rect, s)
        && items[w].rect.y == s.y;
    assert(inside(items[w].rect, u));
    let s = if a.right_spec() >= b.right_spec() { a } else { b };
    let w = choose|w: int| 0 <= w < items.len() && has_cells(items[w]) && #[trigger] inside(items[w].rect, s)
        && items[w].rect.right_spec() == s.right_spec();
    assert(inside(items[w].rect, u));
    let s = if a.bottom_spec() >= b.bottom_spec() { a } else { b };
    let w = choose|w: int| 0 <= w < items.len() && has_cells(items[w]) && #[trigger] inside(items[w].rect, s)
        && items[w].rect.bottom_spec() == s.bottom_spec();
    assert(inside(items[w].rect, u));
}

} // verus!
