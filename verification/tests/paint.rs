use godotty::color::{rgb, Rgb};
use godotty::paint::{repaint, Cell, Colors, Cursor, Frame, Metrics, Op, Row, Style};

const BG: Rgb = Rgb { r: 1, g: 2, b: 3 };
const FG: Rgb = Rgb { r: 200, g: 201, b: 202 };
const RED: Rgb = Rgb { r: 255, g: 0, b: 0 };
const BLUE: Rgb = Rgb { r: 0, g: 0, b: 255 };

fn metrics() -> Metrics {
    Metrics { cell_w: 8, cell_h: 16, ascent: 12 }
}

fn plain(text: &str) -> Cell {
    Cell { selected: false, fg: None, bg: None, style: None, chars: text.chars().collect(), wide: false }
}

fn styled(text: &str, style: Style) -> Cell {
    Cell { style: Some(style), ..plain(text) }
}

fn no_style() -> Style {
    Style { bold: false, italic: false, faint: false, underline: false, inverse: false }
}

fn frame(cells: Vec<Cell>) -> Frame {
    Frame {
        colors: Colors { background: BG, foreground: FG, cursor: None },
        rows: vec![Row { selected: true, cells }],
        cursor: None,
        exited: false,
        complete: true,
    }
}

fn fill(x: i64, y: i64, w: i64, h: i64, color: Rgb) -> Op {
    Op::Fill { x, y, w, h, color, faint: false }
}

fn glyph(x: i64, baseline: i64, ch: char, style: u8, color: Rgb) -> Op {
    Op::Glyph { x, baseline, cp: ch as u32, style, wide: false, color, faint: false }
}

fn ops(f: &Frame) -> Vec<Op> {
    repaint(f, &metrics(), BG).ops
}

#[test]
fn cells_lie_on_the_padded_grid() {
    let mut f = frame(vec![plain("a"), plain("b")]);
    f.rows.push(Row { selected: false, cells: vec![plain("c")] });
    assert_eq!(ops(&f), vec![glyph(4, 16, 'a', 0, FG), glyph(12, 16, 'b', 0, FG), glyph(4, 32, 'c', 0, FG)]);
}

#[test]
fn empty_cells_draw_their_fill_only() {
    assert_eq!(ops(&frame(vec![plain("")])), vec![]);
    let mut cell = plain("");
    cell.bg = Some(RED);
    assert_eq!(ops(&frame(vec![cell])), vec![fill(4, 4, 8, 16, RED)]);
    let mut cell = plain("");
    cell.bg = Some(RED);
    cell.selected = true;
    assert_eq!(ops(&frame(vec![cell])), vec![fill(4, 4, 8, 16, FG)]);
}

#[test]
fn cells_of_unselected_rows_do_not_count_as_selected() {
    let mut cell = plain("a");
    cell.selected = true;
    let mut f = frame(vec![cell]);
    f.rows[0].selected = false;
    assert_eq!(ops(&f), vec![glyph(4, 16, 'a', 0, FG)]);
}

#[test]
fn inverse_and_selection_swap_colors() {
    let mut inverse = styled("a", Style { inverse: true, ..no_style() });
    assert_eq!(ops(&frame(vec![styled("a", no_style())])), vec![glyph(4, 16, 'a', 0, FG)]);
    assert_eq!(ops(&frame(vec![inverse])), vec![fill(4, 4, 8, 16, FG), glyph(4, 16, 'a', 0, BG)]);
    inverse = styled("a", Style { inverse: true, ..no_style() });
    inverse.fg = Some(RED);
    inverse.bg = Some(BLUE);
    inverse.selected = true;
    // Both cancel where the cell has its own fill.
    assert_eq!(ops(&frame(vec![inverse])), vec![fill(4, 4, 8, 16, BLUE), glyph(4, 16, 'a', 0, RED)]);
    let mut selected = plain("a");
    selected.selected = true;
    assert_eq!(ops(&frame(vec![selected])), vec![fill(4, 4, 8, 16, FG), glyph(4, 16, 'a', 0, BG)]);
}

#[test]
fn faint_underlined_bold_text() {
    let style = Style { bold: true, italic: true, faint: true, underline: true, inverse: false };
    assert_eq!(
        ops(&frame(vec![styled("a", style)])),
        vec![
            Op::Glyph { x: 4, baseline: 16, cp: 'a' as u32, style: 3, wide: false, color: FG, faint: true },
            Op::Fill { x: 4, y: 17, w: 8, h: 1, color: FG, faint: true },
        ]
    );
}

#[test]
fn clusters_draw_eight_codepoints_at_most() {
    assert_eq!(ops(&frame(vec![plain("e\u{301}")])).len(), 2);
    assert_eq!(ops(&frame(vec![plain("abcdefgh")])).len(), 8);
    let list = ops(&frame(vec![plain("abcdefghij")]));
    assert_eq!(list.len(), 8);
    assert_eq!(list[7], glyph(4, 16, 'h', 0, FG));
}

#[test]
fn cursor_block_covers_its_cell() {
    let mut f = frame(vec![plain("a"), plain("b")]);
    f.cursor = Some(Cursor { x: 1, y: 0, at_wide_tail: false });
    assert_eq!(
        ops(&f),
        vec![glyph(4, 16, 'a', 0, FG), glyph(12, 16, 'b', 0, FG), fill(12, 4, 8, 16, FG), glyph(12, 16, 'b', 0, BG)]
    );
    f.colors.cursor = Some(RED);
    assert_eq!(ops(&f)[2], fill(12, 4, 8, 16, RED));
}

#[test]
fn cursor_beyond_the_text_is_a_bare_block() {
    let mut f = frame(vec![plain("a"), plain("")]);
    f.cursor = Some(Cursor { x: 1, y: 0, at_wide_tail: false });
    assert_eq!(ops(&f), vec![glyph(4, 16, 'a', 0, FG), fill(12, 4, 8, 16, FG)]);
    f.cursor = Some(Cursor { x: 7, y: 3, at_wide_tail: false });
    assert_eq!(ops(&f), vec![glyph(4, 16, 'a', 0, FG), fill(60, 52, 8, 16, FG)]);
}

#[test]
fn cursor_on_a_wide_tail_belongs_to_the_head() {
    let mut wide = plain("\u{4e00}");
    wide.wide = true;
    let mut f = frame(vec![wide, plain("")]);
    f.cursor = Some(Cursor { x: 1, y: 0, at_wide_tail: true });
    let tail = ops(&f);
    f.cursor = Some(Cursor { x: 0, y: 0, at_wide_tail: false });
    assert_eq!(tail, ops(&f));
    assert_eq!(tail[1], fill(4, 4, 16, 16, FG));
    f.cursor = Some(Cursor { x: 0, y: 0, at_wide_tail: true });
    assert_eq!(tail, ops(&f));
}

#[test]
fn exited_terminals_are_dimmed_without_cursor() {
    let mut f = frame(vec![plain("a")]);
    f.cursor = Some(Cursor { x: 0, y: 0, at_wide_tail: false });
    f.exited = true;
    assert_eq!(ops(&f), vec![glyph(4, 16, 'a', 0, FG), Op::Dim, Op::Message]);
}

#[test]
fn broken_off_frames_show_what_was_read() {
    let mut f = frame(vec![plain("a")]);
    f.cursor = Some(Cursor { x: 0, y: 0, at_wide_tail: false });
    f.exited = true;
    f.complete = false;
    assert_eq!(ops(&f), vec![glyph(4, 16, 'a', 0, FG)]);
}

#[test]
fn background_changes_are_told() {
    let f = frame(vec![]);
    let same = repaint(&f, &metrics(), BG);
    assert!(!same.bg_changed);
    assert_eq!(same.bg, BG);
    assert!(repaint(&f, &metrics(), rgb(1, 2, 4)).bg_changed);
}
