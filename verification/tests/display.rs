use minigames::game::mark_display::{glyph_area, mark_text, CORRECT_MARK, INCORRECT_MARK};
use minigames::game::mental_calc::text_image::fit_cells;
use minigames::rect::Rect;

#[test]
fn mark_text_is_maru_for_correct_and_batsu_for_incorrect() {
    assert_eq!(mark_text(true), CORRECT_MARK);
    assert_eq!(mark_text(false), INCORRECT_MARK);
    assert_eq!(CORRECT_MARK, "◯");
    assert_eq!(INCORRECT_MARK, "✗");
}

#[test]
fn fit_cells_keeps_aspect_ratio_within_the_bounds() {
    assert_eq!(fit_cells(100, 5, (10, 20), (400, 100)), (40, 5));
    assert_eq!(fit_cells(20, 5, (10, 20), (400, 100)), (20, 2));
    for (cols, rows) in [(1, 1), (3, 7), (80, 2), (13, 11)] {
        let (w, h) = fit_cells(cols, rows, (8, 17), (321, 123));
        assert!(w <= cols && h <= rows);
    }
}

#[test]
fn fit_cells_of_an_empty_image_is_zero() {
    assert_eq!(fit_cells(40, 10, (10, 20), (0, 100)), (0, 0));
    assert_eq!(fit_cells(40, 10, (10, 20), (100, 0)), (0, 0));
    assert_eq!(fit_cells(0, 10, (10, 20), (100, 100)), (0, 0));
}

#[test]
fn glyph_area_is_centred_square_for_square_glyph() {
    let inner = Rect::new(2, 3, 40, 10);
    let area = glyph_area(inner, (10, 20), (100, 100));
    assert_eq!(area, Rect::new(12, 3, 20, 10));
    assert_eq!(glyph_area(inner, (10, 20), (0, 100)), Rect::new(2, 3, 0, 0));
}

#[test]
fn glyph_area_is_centered_square_in_pixels() {
    const SQUARE: (u32, u32) = (512, 512);
    let inner = Rect::new(2, 3, 40, 10);
    let glyph = glyph_area(inner, (10, 20), SQUARE);
    assert_eq!((glyph.width, glyph.height), (20, 10));
    assert_eq!((glyph.x, glyph.y), (12, 3), "横方向の中央に置く");
    let tall = Rect::new(0, 0, 10, 30);
    let glyph = glyph_area(tall, (10, 20), SQUARE);
    assert_eq!((glyph.width, glyph.height), (10, 5));
    assert!(glyph.y >= tall.y && glyph.bottom() <= tall.bottom());
    assert!(glyph_area(Rect::new(0, 0, 0, 5), (10, 20), SQUARE).is_empty());
}

#[test]
fn glyph_area_keeps_aspect_ratio_of_wide_glyph() {
    const WIDE: (u32, u32) = (1789, 512);
    let inner = Rect::new(2, 3, 40, 10);
    let glyph = glyph_area(inner, (10, 20), WIDE);
    assert_eq!((glyph.width, glyph.height), (40, 5));
    assert_eq!((glyph.x, glyph.y), (2, 5), "縦方向の中央に置く");
    let flat = Rect::new(0, 0, 100, 5);
    let glyph = glyph_area(flat, (10, 20), WIDE);
    assert_eq!((glyph.width, glyph.height), (34, 5));
    assert_eq!((glyph.x, glyph.y), (33, 0), "横方向の中央に置く");
    let square = glyph_area(flat, (10, 20), (512, 512));
    assert!(glyph.width > square.width);
}

#[test]
fn glyph_area_fits_inside_inner_and_follows_aspect_ratio() {
    let font_sizes = [(10, 20), (8, 16), (7, 15)];
    let glyphs = [(512, 512), (1380, 512), (1789, 512), (512, 1380)];
    for inner in [Rect::new(1, 2, 58, 14), Rect::new(0, 0, 13, 40), Rect::new(5, 5, 200, 3)] {
        for font_size in font_sizes {
            for glyph_size in glyphs {
                let area = glyph_area(inner, font_size, glyph_size);
                assert!(area.x >= inner.x && area.y >= inner.y);
                assert!(area.right() <= inner.right() && area.bottom() <= inner.bottom());
                let (cw, ch) = (u32::from(font_size.0), u32::from(font_size.1));
                let px_w = u32::from(area.width) * cw;
                let px_h = u32::from(area.height) * ch;
                let inner_w = u32::from(inner.width) * cw;
                let inner_h = u32::from(inner.height) * ch;
                let scale = f64::min(
                    f64::from(inner_w) / f64::from(glyph_size.0),
                    f64::from(inner_h) / f64::from(glyph_size.1),
                );
                let ideal_w = f64::from(glyph_size.0) * scale;
                let ideal_h = f64::from(glyph_size.1) * scale;
                assert!(f64::from(px_w) <= ideal_w + 1e-6 && ideal_w < f64::from(px_w + cw));
                assert!(f64::from(px_h) <= ideal_h + 1e-6 && ideal_h < f64::from(px_h + ch));
            }
        }
    }
}

#[test]
fn glyph_area_is_empty_for_empty_glyph() {
    assert!(glyph_area(Rect::new(0, 0, 40, 10), (10, 20), (0, 512)).is_empty());
    assert!(glyph_area(Rect::new(0, 0, 40, 10), (10, 20), (512, 0)).is_empty());
}

#[test]
fn larger_bounds_never_give_a_smaller_fit() {
    for glyph in [(512, 512), (1789, 512), (512, 1380)] {
        let mut last = (0, 0);
        for (cols, rows) in [(0, 0), (5, 2), (10, 5), (20, 5), (20, 12), (80, 24)] {
            let fit = fit_cells(cols, rows, (10, 20), glyph);
            assert!(fit.0 >= last.0 && fit.1 >= last.1, "{glyph:?} {cols}x{rows}: {fit:?} < {last:?}");
            last = fit;
        }
    }
}
