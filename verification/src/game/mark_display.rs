//! The big right/wrong mark shown after an answer: its text, and where a mark image of a given
//! size fits in an area of terminal cells. Drawing the image lives outside this crate.

use crate::game::mental_calc::text_image::{fit_spec, lemma_fit_bounds};
use crate::rect::Rect;
use vstd::prelude::*;

verus! {

/// The mark of a right answer.
pub const CORRECT_MARK: &'static str = "◯";

/// The mark of a wrong answer.
pub const INCORRECT_MARK: &'static str = "✗";

/// The text of the mark shown for an answer, right or wrong.
pub fn mark_text(is_correct: bool) -> (r: &'static str)
    ensures
        r@ == (if is_correct { CORRECT_MARK@ } else { INCORRECT_MARK@ }),
{
    if is_correct {
        CORRECT_MARK
    } else {
        INCORRECT_MARK
    }
}

/// The cells where a mark image of `glyph_size` pixels is drawn inside `inner`: the largest
/// cell block of the image's aspect ratio that fits (see `fit_spec`, with cells of `font_size`
/// pixels, at least one pixel each way), centred; an empty rectangle at `inner`'s corner for an
/// empty image.
pub open spec fn glyph_area_spec(inner: Rect, font_size: (u16, u16), glyph_size: (u32, u32)) -> Rect {
    if glyph_size.0 == 0 || glyph_size.1 == 0 {
        Rect { x: inner.x, y: inner.y, width: 0, height: 0 }
    } else {
        let (cols, rows) = fit_spec(inner.width as int, inner.height as int, font_size, glyph_size);
        Rect {
            x: (inner.x + (inner.width - cols) / 2) as u16,
            y: (inner.y + (inner.height - rows) / 2) as u16,
            width: cols as u16,
            height: rows as u16,
        }
    }
}

/// The cells where a mark image of `glyph_size` pixels is drawn inside `inner`, keeping its
/// aspect ratio; see `glyph_area_spec`. The result lies inside `inner`.
pub fn glyph_area(inner: Rect, font_size: (u16, u16), glyph_size: (u32, u32)) -> (r: Rect)
    requires
        inner.wf(),
    ensures
        r == glyph_area_spec(inner, font_size, glyph_size),
        inner.x <= r.x && r.x + r.width <= inner.x + inner.width,
        inner.y <= r.y && r.y + r.height <= inner.y + inner.height,
{
    let (glyph_width, glyph_height) = (glyph_size.0 as u64, glyph_size.1 as u64);
    if glyph_width == 0 || glyph_height == 0 {
        return Rect::new(inner.x, inner.y, 0, 0);
    }
    let cell_width: u64 = if font_size.0 > 1 { font_size.0 as u64 } else { 1 };
    let cell_height: u64 = if font_size.1 > 1 { font_size.1 as u64 } else { 1 };
    proof {
        lemma_fit_bounds(inner.width as int, inner.height as int, font_size, glyph_size);
    }
    let inner_width = inner.width as u64 * cell_width;
    let inner_height = inner.height as u64 * cell_height;
    let (width, height) = if inner_width * glyph_height <= inner_height * glyph_width {
        (inner_width, inner_width * glyph_height / glyph_width)
    } else {
        (inner_height * glyph_width / glyph_height, inner_height)
    };
    let cols = (width / cell_width) as u16;
    let rows = (height / cell_height) as u16;
    Rect::new(inner.x + (inner.width - cols) / 2, inner.y + (inner.height - rows) / 2, cols, rows)
}

} // verus!
