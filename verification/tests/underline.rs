use godotty::fixed::{whole, UNIT};
use godotty::underline::{underline, Line, Strokes, Underline};

fn lines(w: i32, h: i32, thick: i64, y: i64, dot: i32, style: Underline) -> Vec<Line> {
    match underline(w, h, thick, y, dot, style) {
        Strokes::Lines(list) => list,
        Strokes::Wave => panic!("a wave"),
    }
}

fn px(x0: i64, y0: i64, x1: i64, y1: i64) -> Line {
    Line { x0: x0 * UNIT, y0: y0 * UNIT, x1: x1 * UNIT, y1: y1 * UNIT }
}

#[test]
fn single_underline_spans_the_cell() {
    assert_eq!(lines(8, 16, UNIT, 12 * UNIT, 1, Underline::Single), vec![px(0, 12, 8, 13)]);
    let half = UNIT / 2;
    assert_eq!(
        lines(8, 16, half, 12 * UNIT + half, 1, Underline::Single),
        vec![Line { x0: 0, y0: 12 * UNIT + half, x1: 8 * UNIT, y1: 13 * UNIT }]
    );
}

#[test]
fn double_underline_is_clamped_into_the_cell() {
    assert_eq!(lines(8, 16, UNIT, 12 * UNIT, 1, Underline::Double), vec![px(0, 11, 8, 12), px(0, 13, 8, 14)]);
    assert_eq!(lines(8, 16, UNIT, 15 * UNIT, 1, Underline::Double), vec![px(0, 13, 8, 14), px(0, 15, 8, 16)]);
    assert_eq!(lines(8, 16, UNIT, 0, 1, Underline::Double), vec![px(0, 0, 8, 1), px(0, 2, 8, 3)]);
}

#[test]
fn dashed_underline_has_two_dashes() {
    assert_eq!(lines(8, 16, UNIT, 12 * UNIT, 1, Underline::Dashed), vec![px(0, 12, 3, 13), px(6, 12, 8, 13)]);
    assert_eq!(lines(9, 16, UNIT, 12 * UNIT, 1, Underline::Dashed), vec![px(0, 12, 4, 13), px(8, 12, 9, 13)]);
}

#[test]
fn underlines_are_clamped_into_the_cell() {
    // At the bottom.
    assert_eq!(lines(8, 16, 2 * UNIT, 15 * UNIT, 1, Underline::Single), vec![px(0, 14, 8, 16)]);
    assert_eq!(lines(8, 16, 2 * UNIT, 40 * UNIT, 1, Underline::Dashed), vec![px(0, 14, 3, 16), px(6, 14, 8, 16)]);
    // At the top.
    assert_eq!(lines(8, 16, UNIT, -3 * UNIT, 1, Underline::Single), vec![px(0, 0, 8, 1)]);
    assert_eq!(lines(8, 16, UNIT, -3 * UNIT, 1, Underline::Dashed), vec![px(0, 0, 3, 1), px(6, 0, 8, 1)]);
    assert_eq!(lines(3, 16, UNIT, -3 * UNIT, 2, Underline::Dotted), vec![px(1, 0, 3, 2)]);
    // In a cell of one pixel the second dash has no room.
    assert_eq!(lines(1, 16, UNIT, 12 * UNIT, 1, Underline::Dashed), vec![px(0, 12, 1, 13), px(1, 12, 1, 13)]);
}

#[test]
fn every_underline_stays_inside_the_cell() {
    for style in [Underline::Single, Underline::Double, Underline::Dashed, Underline::Dotted] {
        for (w, h, dot) in [(1, 16, 1), (2, 9, 2), (8, 16, 1), (9, 17, 3), (13, 6, 2)] {
            for y in -4..20 {
                for line in lines(w, h, 2 * UNIT, y * UNIT, dot, style) {
                    assert!(0 <= line.y0 && line.y0 <= line.y1 && line.y1 <= h as i64 * UNIT);
                    assert!(0 <= line.x0 && line.x0 <= line.x1 && line.x1 <= w as i64 * UNIT);
                }
            }
        }
    }
}

#[test]
fn dots_are_spaced_like_their_size() {
    let list = lines(10, 16, UNIT, 12 * UNIT, 1, Underline::Dotted);
    let lefts: Vec<i64> = list.iter().map(|l| l.x0 / UNIT).collect();
    assert_eq!(lefts, vec![1, 3, 5, 7, 9]);
    assert!(list.iter().all(|l| l.x1 - l.x0 == UNIT && l.y0 == 12 * UNIT && l.y1 == 13 * UNIT));
    // Two-pixel dots: as many as fit with room between them.
    let list = lines(10, 16, 2 * UNIT, 15 * UNIT, 2, Underline::Dotted);
    assert_eq!(list, vec![px(1, 14, 3, 16), px(4, 14, 6, 16), px(7, 14, 9, 16)]);
    // A dot larger than the cell is centered on it.
    assert_eq!(lines(1, 16, UNIT, 0, 3, Underline::Dotted), vec![px(-1, 0, 2, 3)]);
}

#[test]
fn curly_underline_is_a_wave() {
    assert!(matches!(underline(8, 16, UNIT, 12 * UNIT, 1, Underline::Curly), Strokes::Wave));
    assert!(lines(8, 16, UNIT, 12 * UNIT, 1, Underline::Off).is_empty());
}

#[test]
fn whole_pixels_are_cut_off() {
    assert_eq!(whole(3 * UNIT + UNIT / 2), 3);
    assert_eq!(whole(UNIT - 1), 0);
    assert_eq!(whole(-5 * UNIT), 0);
}
