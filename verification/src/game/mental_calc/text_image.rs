//! How many terminal cells a rendered text image takes when it is drawn as large as it fits.
//! Rasterising the text and drawing the image live outside this crate.

use vstd::prelude::*;

verus! {

/// The largest block of whole cells, at most `max_cols`×`max_rows`, that holds an image of
/// `glyph_size` pixels scaled to keep its aspect ratio, with cells of `font_size` pixels (at
/// least one pixel each way). The image is scaled to the full width when that keeps it within
/// the height (heights rounded down), else to the full height; pixels are then rounded down to
/// whole cells. Both are 0 for an empty image.
pub open spec fn fit_spec(max_cols: int, max_rows: int, font_size: (u16, u16), glyph_size: (u32, u32)) -> (int, int) {
    let gw = glyph_size.0 as int;
    let gh = glyph_size.1 as int;
    if gw == 0 || gh == 0 {
        (0, 0)
    } else {
        let cw = if font_size.0 > 1 { font_size.0 as int } else { 1 };
        let ch = if font_size.1 > 1 { font_size.1 as int } else { 1 };
        let mw = max_cols * cw;
        let mh = max_rows * ch;
        let (w, h) = if mw * gh <= mh * gw { (mw, mw * gh / gw) } else { (mh * gw / gh, mh) };
        (w / cw, h / ch)
    }
}

/// The products in `fit_spec` fit in a `u64`, and the result stays within the bounds.
pub proof fn lemma_fit_bounds(max_cols: int, max_rows: int, font_size: (u16, u16), glyph_size: (u32, u32))
    requires
        0 <= max_cols <= u16::MAX,
        0 <= max_rows <= u16::MAX,
    ensures
        ({
            let cw = if font_size.0 > 1 { font_size.0 as int } else { 1 };
            let ch = if font_size.1 > 1 { font_size.1 as int } else { 1 };
            &&& 0 <= max_cols * cw <= 0xffff_ffff
            &&& 0 <= max_rows * ch <= 0xffff_ffff
            &&& max_cols * cw * (glyph_size.1 as int) <= u64::MAX
            &&& max_rows * ch * (glyph_size.0 as int) <= u64::MAX
        }),
        0 <= fit_spec(max_cols, max_rows, font_size, glyph_size).0 <= max_cols,
        0 <= fit_spec(max_cols, max_rows, font_size, glyph_size).1 <= max_rows,
{
    let gw = glyph_size.0 as int;
    let gh = glyph_size.1 as int;
    let cw = if font_size.0 > 1 { font_size.0 as int } else { 1 };
    let ch = if font_size.1 > 1 { font_size.1 as int } else { 1 };
    let mw = max_cols * cw;
    let mh = max_rows * ch;
    assert(0 <= mw <= 0xffff * 0xffff) by (nonlinear_arith)
        requires
            0 <= max_cols <= 0xffff,
            1 <= cw <= 0xffff,
            mw == max_cols * cw,
    ;
    assert(0 <= mh <= 0xffff * 0xffff) by (nonlinear_arith)
        requires
            0 <= max_rows <= 0xffff,
            1 <= ch <= 0xffff,
            mh == max_rows * ch,
    ;
    assert(mw * gh <= u64::MAX) by (nonlinear_arith)
        requires
            0 <= mw <= 0xffff * 0xffff,
            0 <= gh <= 0xffff_ffff,
    ;
    assert(mh * gw <= u64::MAX) by (nonlinear_arith)
        requires
            0 <= mh <= 0xffff * 0xffff,
            0 <= gw <= 0xffff_ffff,
    ;
    if gw != 0 && gh != 0 {
        let (w, h) = if mw * gh <= mh * gw { (mw, mw * gh / gw) } else { (mh * gw / gh, mh) };
        if mw * gh <= mh * gw {
            assert(mw * gh / gw <= mh) by (nonlinear_arith)
                requires
                    mw * gh <= mh * gw,
                    gw > 0,
                    mw >= 0,
                    gh >= 0,
            ;
            assert(0 <= mw * gh / gw) by (nonlinear_arith)
                requires
                    gw > 0,
                    mw >= 0,
                    gh >= 0,
            ;
        } else {
            assert(mh * gw / gh <= mw) by (nonlinear_arith)
                requires
                    mw * gh > mh * gw,
                    gh > 0,
                    mh >= 0,
                    gw >= 0,
            ;
            assert(0 <= mh * gw / gh) by (nonlinear_arith)
                requires
                    gh > 0,
                    mh >= 0,
                    gw >= 0,
            ;
        }
        assert(0 <= w / cw <= max_cols) by (nonlinear_arith)
            requires
                0 <= w <= mw,
                mw == max_cols * cw,
                cw >= 1,
        ;
        assert(0 <= h / ch <= max_rows) by (nonlinear_arith)
            requires
                0 <= h <= mh,
                mh == max_rows * ch,
                ch >= 1,
        ;
    }
}

/// The smaller of two integers.
pub open spec fn min_int(a: int, b: int) -> int {
    if a <= b { a } else { b }
}

/// The pixel block that `fit_spec` scales to is the full width capped by what the height allows,
/// and the full height capped by what the width allows.
proof fn lemma_fit_pixels(mw: int, mh: int, gw: int, gh: int)
    requires
        mw >= 0,
        mh >= 0,
        gw > 0,
        gh > 0,
    ensures
        ({
            let (w, h) = if mw * gh <= mh * gw { (mw, mw * gh / gw) } else { (mh * gw / gh, mh) };
            w == min_int(mw, mh * gw / gh) && h == min_int(mh, mw * gh / gw)
        }),
{
    if mw * gh <= mh * gw {
        assert(mw <= mh * gw / gh) by (nonlinear_arith)
            requires
                mw * gh <= mh * gw,
                gh > 0,
        ;
        assert(mw * gh / gw <= mh) by (nonlinear_arith)
            requires
                mw * gh <= mh * gw,
                gw > 0,
        ;
    } else {
        assert(mh * gw / gh < mw) by (nonlinear_arith)
            requires
                mw * gh > mh * gw,
                gh > 0,
                mh >= 0,
                gw >= 0,
        ;
        assert(mh <= mw * gh / gw) by (nonlinear_arith)
            requires
                mw * gh > mh * gw,
                gw > 0,
        ;
    }
}

/// A larger bound never gives a smaller fit: with the same cell and image sizes, allowing at
/// least as many columns and rows gives at least as many of each.
pub proof fn lemma_fit_grows_with_bounds(cols1: int, rows1: int, cols2: int, rows2: int, font_size: (u16, u16), glyph_size: (u32, u32))
    requires
        0 <= cols1 <= cols2,
        0 <= rows1 <= rows2,
    ensures
        fit_spec(cols1, rows1, font_size, glyph_size).0 <= fit_spec(cols2, rows2, font_size, glyph_size).0,
        fit_spec(cols1, rows1, font_size, glyph_size).1 <= fit_spec(cols2, rows2, font_size, glyph_size).1,
{
    let gw = glyph_size.0 as int;
    let gh = glyph_size.1 as int;
    if gw != 0 && gh != 0 {
        let cw = if font_size.0 > 1 { font_size.0 as int } else { 1 };
        let ch = if font_size.1 > 1 { font_size.1 as int } else { 1 };
        let (mw1, mh1, mw2, mh2) = (cols1 * cw, rows1 * ch, cols2 * cw, rows2 * ch);
        assert(0 <= mw1 <= mw2) by (nonlinear_arith)
            requires
                0 <= cols1 <= cols2,
                cw >= 1,
                mw1 == cols1 * cw,
                mw2 == cols2 * cw,
        ;
        assert(0 <= mh1 <= mh2) by (nonlinear_arith)
            requires
                0 <= rows1 <= rows2,
                ch >= 1,
                mh1 == rows1 * ch,
                mh2 == rows2 * ch,
        ;
        lemma_fit_pixels(mw1, mh1, gw, gh);
        lemma_fit_pixels(mw2, mh2, gw, gh);
        assert(mh1 * gw / gh <= mh2 * gw / gh) by (nonlinear_arith)
            requires
                0 <= mh1 <= mh2,
                gw > 0,
                gh > 0,
        ;
        assert(mw1 * gh / gw <= mw2 * gh / gw) by (nonlinear_arith)
            requires
                0 <= mw1 <= mw2,
                gw > 0,
                gh > 0,
        ;
        let w1 = min_int(mw1, mh1 * gw / gh);
        let w2 = min_int(mw2, mh2 * gw / gh);
        let h1 = min_int(mh1, mw1 * gh / gw);
        let h2 = min_int(mh2, mw2 * gh / gw);
        assert(w1 / cw <= w2 / cw) by (nonlinear_arith)
            requires
                w1 <= w2,
                cw >= 1,
        ;
        assert(h1 / ch <= h2 / ch) by (nonlinear_arith)
            requires
                h1 <= h2,
                ch >= 1,
        ;
    }
}

/// The cells (columns, rows), at most `max_cols`×`max_rows`, that an image of `glyph_size`
/// pixels takes when drawn as large as it fits with its aspect ratio; see `fit_spec`. (0, 0) for
/// an empty image.
pub fn fit_cells(max_cols: u16, max_rows: u16, font_size: (u16, u16), glyph_size: (u32, u32)) -> (r: (u16, u16))
    ensures
        r.0 == fit_spec(max_cols as int, max_rows as int, font_size, glyph_size).0,
        r.1 == fit_spec(max_cols as int, max_rows as int, font_size, glyph_size).1,
        r.0 <= max_cols,
        r.1 <= max_rows,
{
    let (glyph_width, glyph_height) = (glyph_size.0 as u64, glyph_size.1 as u64);
    if glyph_width == 0 || glyph_height == 0 {
        return (0, 0);
    }
    let cell_width: u64 = if font_size.0 > 1 { font_size.0 as u64 } else { 1 };
    let cell_height: u64 = if font_size.1 > 1 { font_size.1 as u64 } else { 1 };
    proof {
        lemma_fit_bounds(max_cols as int, max_rows as int, font_size, glyph_size);
    }
    let max_width = max_cols as u64 * cell_width;
    let max_height = max_rows as u64 * cell_height;
    let (width, height) = if max_width * glyph_height <= max_height * glyph_width {
        (max_width, max_width * glyph_height / glyph_width)
    } else {
        (max_height * glyph_width / glyph_height, max_height)
    };
    ((width / cell_width) as u16, (height / cell_height) as u16)
}

} // verus!
