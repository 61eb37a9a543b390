//! Recording of the terminal grid: one frame's cells become drawing
//! instructions in whole pixels. Cells lie on a grid that starts after the
//! padding; the cursor block is drawn over them with the glyphs of its cell on
//! top, and an exited terminal is dimmed under a message.

use vstd::prelude::*;

use crate::color::Rgb;
use crate::font::Fonts;

verus! {

/// Pixels around the grid.
pub const PAD: i32 = 4;

/// Codepoints of a cluster that are drawn, at most.
pub const MAX_CLUSTER: usize = 8;

/// Shown over an exited terminal.
pub const EXIT_MESSAGE: &'static str = "[process exited]";

/// Colors that cells without their own fall back to.
#[derive(Clone, Copy, Debug, PartialEq, Eq, Structural)]
pub struct Colors {
    pub background: Rgb,
    pub foreground: Rgb,
    pub cursor: Option<Rgb>,
}

/// Attributes of a styled cell.
#[derive(Clone, Copy, Debug, PartialEq, Eq, Structural)]
pub struct Style {
    pub bold: bool,
    pub italic: bool,
    pub faint: bool,
    pub underline: bool,
    pub inverse: bool,
}

/// One cell of the viewport. A cell without text has no codepoints.
pub struct Cell {
    pub selected: bool,
    pub fg: Option<Rgb>,
    pub bg: Option<Rgb>,
    pub style: Option<Style>,
    pub chars: Vec<char>,
    pub wide: bool,
}

/// One row of the viewport; cells of a row without a selection do not count
/// as selected.
pub struct Row {
    pub selected: bool,
    pub cells: Vec<Cell>,
}

/// The cursor's viewport position. On the spacer tail of a wide character it
/// belongs to the character's head.
#[derive(Clone, Copy, Debug, PartialEq, Eq, Structural)]
pub struct Cursor {
    pub x: u16,
    pub y: u16,
    pub at_wide_tail: bool,
}

/// Everything one recording reads. `complete` is false where reading the
/// cells broke off after the rows given.
pub struct Frame {
    pub colors: Colors,
    pub rows: Vec<Row>,
    pub cursor: Option<Cursor>,
    pub exited: bool,
    pub complete: bool,
}

/// Cell size and the baseline's distance from the cell's top.
#[derive(Clone, Copy, Debug, PartialEq, Eq, Structural)]
pub struct Metrics {
    pub cell_w: i32,
    pub cell_h: i32,
    pub ascent: i32,
}

impl Metrics {
    pub open spec fn valid(self) -> bool {
        self.cell_w > 0 && self.cell_h > 0
    }
}

/// One drawing instruction. Faint colors are translucent.
#[derive(Clone, Copy, Debug, PartialEq, Eq, Structural)]
pub enum Op {
    Fill { x: i64, y: i64, w: i64, h: i64, color: Rgb, faint: bool },
    Glyph { x: i64, baseline: i64, cp: u32, style: u8, wide: bool, color: Rgb, faint: bool },
    /// Dim the whole control.
    Dim,
    /// The exit message, centered in the control.
    Message,
}

/// Left edge of a column.
pub open spec fn column_x(m: Metrics, col: int) -> int {
    PAD + col * m.cell_w
}

/// Top edge of a row.
pub open spec fn row_y(m: Metrics, row: int) -> int {
    PAD + row * m.cell_h
}

pub open spec fn fill(x: int, y: int, w: int, h: int, color: Rgb, faint: bool) -> Op {
    Op::Fill { x: x as i64, y: y as i64, w: w as i64, h: h as i64, color, faint }
}

/// A fill where there is a color.
pub open spec fn fill_if(x: int, y: int, m: Metrics, color: Option<Rgb>) -> Seq<Op> {
    match color {
        Some(c) => seq![fill(x, y, m.cell_w as int, m.cell_h as int, c, false)],
        None => seq![],
    }
}

/// Text and fill color trade places; the default background becomes the text
/// color where the cell has no fill.
pub open spec fn swapped(colors: Colors, pair: (Rgb, Option<Rgb>)) -> (Rgb, Option<Rgb>) {
    (match pair.1 {
        Some(bg) => bg,
        None => colors.background,
    }, Some(pair.0))
}

impl Cell {
    pub open spec fn has(self, pick: spec_fn(Style) -> bool) -> bool {
        self.style matches Some(style) && pick(style)
    }

    /// Text and fill color of a cell with text: its own or the defaults,
    /// traded once for inverse video and once more for a selection.
    pub open spec fn paint_colors(self, colors: Colors, selected: bool) -> (Rgb, Option<Rgb>) {
        let own = (match self.fg {
            Some(fg) => fg,
            None => colors.foreground,
        }, self.bg);
        let styled = if self.has(|s: Style| s.inverse) { swapped(colors, own) } else { own };
        if selected { swapped(colors, styled) } else { styled }
    }

    /// Index of the font style.
    pub open spec fn font_style(self) -> u8 {
        crate::font::style_of(self.has(|s: Style| s.bold), self.has(|s: Style| s.italic))
    }

    /// The codepoints that are drawn.
    pub open spec fn drawn(self) -> Seq<char> {
        if self.chars@.len() > MAX_CLUSTER {
            self.chars@.take(MAX_CLUSTER as int)
        } else {
            self.chars@
        }
    }

    /// The glyphs of the cell, all on one origin.
    pub open spec fn glyphs(self, x: int, baseline: int, color: Rgb, faint: bool) -> Seq<Op> {
        self.drawn().map_values(
            |ch: char| Op::Glyph {
                x: x as i64,
                baseline: baseline as i64,
                cp: ch as u32,
                style: self.font_style(),
                wide: self.wide,
                color,
                faint,
            },
        )
    }

    /// What a cell draws at this place: its fill, its glyphs, and an
    /// underline below the baseline. Without text only the fill, which is the
    /// text color under a selection.
    pub open spec fn ops(self, colors: Colors, m: Metrics, selected: bool, x: int, y: int) -> Seq<Op> {
        if self.chars@.len() == 0 {
            fill_if(x, y, m, if selected { Some(colors.foreground) } else { self.bg })
        } else {
            let (fg, bg) = self.paint_colors(colors, selected);
            let faint = self.has(|s: Style| s.faint);
            let line = fill(x, y + m.ascent + 1, m.cell_w as int, 1, fg, faint);
            fill_if(x, y, m, bg) + self.glyphs(x, y + m.ascent, fg, faint) + (if self.has(|s: Style| s.underline) {
                seq![line]
            } else {
                seq![]
            })
        }
    }
}

impl Row {
    /// What the first `n` cells of a row draw.
    pub open spec fn ops(self, colors: Colors, m: Metrics, y: int, n: int) -> Seq<Op>
        decreases n,
    {
        if n <= 0 {
            seq![]
        } else {
            let cell = self.cells@[n - 1];
            self.ops(colors, m, y, n - 1) + cell.ops(colors, m, self.selected && cell.selected, column_x(m, n - 1), y)
        }
    }
}

impl Frame {
    /// Sizes that row and column numbers can count.
    pub open spec fn valid(self) -> bool {
        &&& self.rows@.len() <= u16::MAX
        &&& forall|i: int| 0 <= i < self.rows@.len() ==> (#[trigger] self.rows@[i]).cells@.len() <= u16::MAX
    }

    /// What the first `n` rows draw.
    pub open spec fn grid_ops(self, m: Metrics, n: int) -> Seq<Op>
        decreases n,
    {
        if n <= 0 {
            seq![]
        } else {
            let row = self.rows@[n - 1];
            self.grid_ops(m, n - 1) + row.ops(self.colors, m, row_y(m, n - 1), row.cells@.len() as int)
        }
    }

    /// Column and row of the cursor block, if one is shown: an exited
    /// terminal has none.
    pub open spec fn cursor_at(self) -> Option<(int, int)> {
        match self.cursor {
            Some(c) if !self.exited => Some((if c.at_wide_tail && c.x > 0 { c.x - 1 } else { c.x as int }, c.y as int)),
            _ => None,
        }
    }

    /// There is a cell with text at this place.
    pub open spec fn text_at(self, col: int, row: int) -> bool {
        &&& 0 <= row < self.rows@.len()
        &&& 0 <= col < self.rows@[row].cells@.len()
        &&& self.rows@[row].cells@[col].chars@.len() > 0
    }

    /// The cursor block, twice as wide on a wide character, and the text of
    /// its cell in the background color.
    pub open spec fn cursor_ops(self, m: Metrics) -> Seq<Op> {
        match self.cursor_at() {
            None => seq![],
            Some((col, row)) => {
                let x = column_x(m, col);
                let y = row_y(m, row);
                let cell = self.rows@[row].cells@[col];
                let text = self.text_at(col, row);
                let w = if text && cell.wide { 2 * m.cell_w } else { m.cell_w as int };
                let color = match self.colors.cursor {
                    Some(c) => c,
                    None => self.colors.foreground,
                };
                seq![fill(x, y, w, m.cell_h as int, color, false)] + (if text {
                    cell.glyphs(x, y + m.ascent, self.colors.background, false)
                } else {
                    seq![]
                })
            },
        }
    }

    /// The whole recording: the grid, then the cursor, then the dimmed
    /// message of an exited terminal. A recording that broke off has the grid
    /// only.
    pub open spec fn ops(self, m: Metrics) -> Seq<Op> {
        let grid = self.grid_ops(m, self.rows@.len() as int);
        if self.complete {
            grid + self.cursor_ops(m) + (if self.exited { seq![Op::Dim, Op::Message] } else { seq![] })
        } else {
            grid
        }
    }
}

proof fn place_bounds(n: int, size: int)
    requires
        0 <= n <= u16::MAX,
        0 < size <= i32::MAX,
    ensures
        0 <= n * size <= 0xffff * 0x7fff_ffff,
        (n + 1) * size == n * size + size,
{
    assert(0 <= n * size <= 0xffff * 0x7fff_ffff) by (nonlinear_arith)
        requires
            0 <= n <= 0xffff,
            0 < size <= 0x7fff_ffff,
    ;
    assert((n + 1) * size == n * size + size) by (nonlinear_arith);
}

/// Text and fill color of a cell with text.
fn colors_of(cell: &Cell, colors: &Colors, selected: bool) -> (pair: (Rgb, Option<Rgb>))
    ensures
        pair == cell.paint_colors(*colors, selected),
{
    let mut fg: Rgb = match cell.fg {
        Some(fg) => fg,
        None => colors.foreground,
    };
    let mut bg: Option<Rgb> = cell.bg;
    let inverse: bool = match cell.style {
        Some(style) => style.inverse,
        None => false,
    };
    if inverse {
        let old_fg = fg;
        fg = match bg {
            Some(bg) => bg,
            None => colors.background,
        };
        bg = Some(old_fg);
    }
    if selected {
        let old_fg = fg;
        fg = match bg {
            Some(bg) => bg,
            None => colors.background,
        };
        bg = Some(old_fg);
    }
    (fg, bg)
}

fn push_fill(ops: &mut Vec<Op>, x: i64, y: i64, m: &Metrics, color: Option<Rgb>)
    ensures
        final(ops)@ == old(ops)@ + fill_if(x as int, y as int, *m, color),
{
    if let Some(color) = color {
        ops.push(Op::Fill { x, y, w: m.cell_w as i64, h: m.cell_h as i64, color, faint: false });
    }
    assert(ops@ == old(ops)@ + fill_if(x as int, y as int, *m, color));
}

fn push_glyphs(ops: &mut Vec<Op>, cell: &Cell, x: i64, baseline: i64, color: Rgb, faint: bool)
    ensures
        final(ops)@ == old(ops)@ + cell.glyphs(x as int, baseline as int, color, faint),
{
    let (bold, italic) = match cell.style {
        Some(style) => (style.bold, style.italic),
        None => (false, false),
    };
    let style: u8 = Fonts::style_index(bold, italic);
    let n: usize = cell.chars.len();
    let count: usize = if n > MAX_CLUSTER { MAX_CLUSTER } else { n };
    let mut i: usize = 0;
    while i < count
        invariant
            i <= count,
            count <= cell.chars@.len(),
            cell.drawn() == cell.chars@.take(count as int),
            style == cell.font_style(),
            ops@ == old(ops)@ + cell.glyphs(x as int, baseline as int, color, faint).take(i as int),
        decreases count - i,
    {
        let ghost before = ops@;
        ops.push(Op::Glyph { x, baseline, cp: cell.chars[i] as u32, style, wide: cell.wide, color, faint });
        i = i + 1;
        let ghost all = cell.glyphs(x as int, baseline as int, color, faint);
        assert(all.take(i as int) == all.take(i - 1).push(all[i - 1]));
        assert(ops@ == old(ops)@ + all.take(i as int));
    }
    let ghost all = cell.glyphs(x as int, baseline as int, color, faint);
    assert(all.take(i as int) == all);
}

/// Record one cell.
fn push_cell(ops: &mut Vec<Op>, cell: &Cell, colors: &Colors, m: &Metrics, selected: bool, x: i64, y: i64)
    requires
        m.valid(),
        0 <= x <= 0x1_0000_0000_0000,
        0 <= y <= 0x1_0000_0000_0000,
    ensures
        final(ops)@ == old(ops)@ + cell.ops(*colors, *m, selected, x as int, y as int),
{
    if cell.chars.len() == 0 {
        let bg: Option<Rgb> = if selected { Some(colors.foreground) } else { cell.bg };
        push_fill(ops, x, y, m, bg);
        return;
    }
    let (fg, bg) = colors_of(cell, colors, selected);
    let (faint, underline) = match cell.style {
        Some(style) => (style.faint, style.underline),
        None => (false, false),
    };
    push_fill(ops, x, y, m, bg);
    push_glyphs(ops, cell, x, y + m.ascent as i64, fg, faint);
    if underline {
        ops.push(Op::Fill { x, y: y + m.ascent as i64 + 1, w: m.cell_w as i64, h: 1, color: fg, faint });
    }
    assert(ops@ == old(ops)@ + cell.ops(*colors, *m, selected, x as int, y as int));
}

/// Record one row.
fn push_row(ops: &mut Vec<Op>, row: &Row, colors: &Colors, m: &Metrics, y: i64)
    requires
        m.valid(),
        0 <= y <= 0x1_0000_0000_0000,
        row.cells@.len() <= u16::MAX,
    ensures
        final(ops)@ == old(ops)@ + row.ops(*colors, *m, y as int, row.cells@.len() as int),
{
    let mut x: i64 = PAD as i64;
    let mut col: usize = 0;
    proof {
        assert(0 * m.cell_w == 0) by (nonlinear_arith);
        assert(ops@ == old(ops)@ + row.ops(*colors, *m, y as int, 0));
    }
    while col < row.cells.len()
        invariant
            m.valid(),
            0 <= y <= 0x1_0000_0000_0000,
            col <= row.cells@.len() <= u16::MAX,
            x == column_x(*m, col as int),
            ops@ == old(ops)@ + row.ops(*colors, *m, y as int, col as int),
        decreases row.cells@.len() - col,
    {
        proof {
            place_bounds(col as int, m.cell_w as int);
        }
        let ghost before = row.ops(*colors, *m, y as int, col as int);
        let cell = &row.cells[col];
        push_cell(ops, cell, colors, m, row.selected && cell.selected, x, y);
        x = x + m.cell_w as i64;
        col = col + 1;
        assert(row.ops(*colors, *m, y as int, col as int) == before + cell.ops(
            *colors,
            *m,
            row.selected && cell.selected,
            column_x(*m, col - 1),
            y as int,
        ));
        assert(ops@ == old(ops)@ + row.ops(*colors, *m, y as int, col as int));
    }
}

/// Record the grid.
fn push_grid(ops: &mut Vec<Op>, frame: &Frame, m: &Metrics)
    requires
        m.valid(),
        frame.valid(),
    ensures
        final(ops)@ == old(ops)@ + frame.grid_ops(*m, frame.rows@.len() as int),
{
    let mut y: i64 = PAD as i64;
    let mut i: usize = 0;
    proof {
        assert(0 * m.cell_h == 0) by (nonlinear_arith);
        assert(ops@ == old(ops)@ + frame.grid_ops(*m, 0));
    }
    while i < frame.rows.len()
        invariant
            m.valid(),
            frame.valid(),
            i <= frame.rows@.len(),
            y == row_y(*m, i as int),
            ops@ == old(ops)@ + frame.grid_ops(*m, i as int),
        decreases frame.rows@.len() - i,
    {
        proof {
            place_bounds(i as int, m.cell_h as int);
        }
        let ghost before = frame.grid_ops(*m, i as int);
        let row = &frame.rows[i];
        push_row(ops, row, &frame.colors, m, y);
        y = y + m.cell_h as i64;
        i = i + 1;
        assert(frame.grid_ops(*m, i as int) == before + row.ops(frame.colors, *m, row_y(*m, i - 1), row.cells@.len() as int));
        assert(ops@ == old(ops)@ + frame.grid_ops(*m, i as int));
    }
}

/// Record the cursor over the grid.
fn push_cursor(ops: &mut Vec<Op>, frame: &Frame, m: &Metrics)
    requires
        m.valid(),
        frame.valid(),
    ensures
        final(ops)@ == old(ops)@ + frame.cursor_ops(*m),
{
    let vp: Cursor = match frame.cursor {
        Some(vp) => vp,
        None => {
            assert(ops@ == old(ops)@ + frame.cursor_ops(*m));
            return;
        },
    };
    if frame.exited {
        assert(ops@ == old(ops)@ + frame.cursor_ops(*m));
        return;
    }
    let tail: u16 = if vp.at_wide_tail { 1 } else { 0 };
    let col: usize = vp.x.saturating_sub(tail) as usize;
    let row: usize = vp.y as usize;
    assert(frame.cursor_at() == Some((col as int, row as int)));
    proof {
        place_bounds(col as int, m.cell_w as int);
        place_bounds(row as int, m.cell_h as int);
    }
    let x: i64 = PAD as i64 + col as i64 * m.cell_w as i64;
    let y: i64 = PAD as i64 + row as i64 * m.cell_h as i64;
    let color: Rgb = match frame.colors.cursor {
        Some(c) => c,
        None => frame.colors.foreground,
    };
    let text: bool = row < frame.rows.len() && col < frame.rows[row].cells.len() && frame.rows[row].cells[col].chars.len() > 0;
    assert(text == frame.text_at(col as int, row as int));
    let wide: bool = text && frame.rows[row].cells[col].wide;
    let w: i64 = if wide { 2 * m.cell_w as i64 } else { m.cell_w as i64 };
    ops.push(Op::Fill { x, y, w, h: m.cell_h as i64, color, faint: false });
    if text {
        push_glyphs(ops, &frame.rows[row].cells[col], x, y + m.ascent as i64, frame.colors.background, false);
    }
    assert(ops@ == old(ops)@ + frame.cursor_ops(*m));
}

/// One recording: the instructions, and whether the background differs from
/// the one drawn before.
pub struct Painted {
    pub ops: Vec<Op>,
    pub bg: Rgb,
    pub bg_changed: bool,
}

/// Re-record the grid; also tells whether the background color changed.
pub fn repaint(frame: &Frame, m: &Metrics, last_bg: Rgb) -> (painted: Painted)
    requires
        m.valid(),
        frame.valid(),
    ensures
        painted.ops@ == frame.ops(*m),
        painted.bg == frame.colors.background,
        painted.bg_changed == (frame.colors.background != last_bg),
{
    let mut ops: Vec<Op> = Vec::new();
    push_grid(&mut ops, frame, m);
    assert(ops@ == frame.grid_ops(*m, frame.rows@.len() as int));
    if frame.complete {
        push_cursor(&mut ops, frame, m);
        if frame.exited {
            ops.push(Op::Dim);
            ops.push(Op::Message);
        }
    }
    assert(ops@ == frame.ops(*m));
    let bg: Rgb = frame.colors.background;
    Painted { ops, bg, bg_changed: bg != last_bg }
}

/// Neighboring cells abut: a column begins where the one before it ends, and
/// so does a row.
pub proof fn cells_tile(m: Metrics, n: int)
    ensures
        column_x(m, n + 1) == column_x(m, n) + m.cell_w,
        row_y(m, n + 1) == row_y(m, n) + m.cell_h,
{
    assert((n + 1) * m.cell_w == n * m.cell_w + m.cell_w) by (nonlinear_arith);
    assert((n + 1) * m.cell_h == n * m.cell_h + m.cell_h) by (nonlinear_arith);
}

/// Selecting an inverse cell that has its own fill shows it as a plain one is
/// shown, and the other way round.
pub proof fn selection_undoes_inverse(cell: Cell, plain: Cell, colors: Colors)
    requires
        cell.bg is Some,
        cell.fg == plain.fg,
        cell.bg == plain.bg,
        cell.style is Some && cell.style->0.inverse,
        plain.style is None,
    ensures
        cell.paint_colors(colors, true) == plain.paint_colors(colors, false),
        cell.paint_colors(colors, false) == plain.paint_colors(colors, true),
{
}

/// A cursor on the spacer tail of a wide character is drawn on its head.
pub proof fn cursor_sits_on_the_head(frame: Frame, head: Cursor, tail: Cursor)
    requires
        !frame.exited,
        head.y == tail.y,
        tail.x == head.x + 1,
        tail.at_wide_tail,
        !head.at_wide_tail,
    ensures
        (Frame { cursor: Some(tail), ..frame }).cursor_at() == (Frame { cursor: Some(head), ..frame }).cursor_at(),
{
}

// ---------------------------------------------------------------------------
// What a recording shows
// ---------------------------------------------------------------------------

/// Where the instructions of a cell stand in those of its row.
proof fn in_row(row: Row, colors: Colors, m: Metrics, y: int, n: int, c: int) -> (k: int)
    requires
        0 <= c < n <= row.cells@.len(),
    ensures
        ({
            let part = row.cells@[c].ops(colors, m, row.selected && row.cells@[c].selected, column_x(m, c), y);
            let all = row.ops(colors, m, y, n);
            k == row.ops(colors, m, y, c).len() && k + part.len() <= all.len() && all.subrange(k, k + part.len()) == part
        }),
    decreases n,
{
    let rest = row.ops(colors, m, y, n - 1);
    let all = row.ops(colors, m, y, n);
    let part = row.cells@[c].ops(colors, m, row.selected && row.cells@[c].selected, column_x(m, c), y);
    if c == n - 1 {
        assert(all.subrange(rest.len() as int, rest.len() as int + part.len()) =~= part);
        rest.len() as int
    } else {
        let k = in_row(row, colors, m, y, n - 1, c);
        assert(all.subrange(k, k + part.len()) =~= rest.subrange(k, k + part.len()));
        k
    }
}

/// Where the instructions of a cell stand in those of the grid.
proof fn in_grid(frame: Frame, m: Metrics, n: int, r: int, c: int) -> (k: int)
    requires
        0 <= r < n <= frame.rows@.len(),
        0 <= c < frame.rows@[r].cells@.len(),
    ensures
        ({
            let row = frame.rows@[r];
            let part = row.cells@[c].ops(frame.colors, m, row.selected && row.cells@[c].selected, column_x(m, c), row_y(m, r));
            let all = frame.grid_ops(m, n);
            &&& k == frame.grid_ops(m, r).len() + row.ops(frame.colors, m, row_y(m, r), c).len()
            &&& k + part.len() <= all.len() && all.subrange(k, k + part.len()) == part
        }),
    decreases n,
{
    let row = frame.rows@[r];
    let rest = frame.grid_ops(m, n - 1);
    let all = frame.grid_ops(m, n);
    let part = row.cells@[c].ops(frame.colors, m, row.selected && row.cells@[c].selected, column_x(m, c), row_y(m, r));
    if r == n - 1 {
        let own = row.ops(frame.colors, m, row_y(m, r), row.cells@.len() as int);
        let k = in_row(row, frame.colors, m, row_y(m, r), row.cells@.len() as int, c);
        assert(all == rest + own);
        assert(all.subrange(rest.len() + k, rest.len() + k + part.len()) =~= own.subrange(k, k + part.len()));
        rest.len() + k
    } else {
        let k = in_grid(frame, m, n - 1, r, c);
        assert(all.subrange(k, k + part.len()) =~= rest.subrange(k, k + part.len()));
        k
    }
}

/// From instruction `first` on, the first `n` codepoints of a cell are drawn on
/// one baseline in one color, in the font of the cell's style.
pub open spec fn shows_glyphs(ops: Seq<Op>, first: int, n: int, x: int, baseline: int, cell: Cell, text: Rgb, faint: bool) -> bool {
    let bold = if cell.style is Some && cell.style->0.bold { 1int } else { 0 };
    let italic = if cell.style is Some && cell.style->0.italic { 2int } else { 0 };
    forall|i: int|
        0 <= i < n ==> ((#[trigger] ops[first + i]) matches Op::Glyph { x: gx, baseline: b, cp, style, wide, color, faint: f } && gx == x && b
            == baseline && cp == cell.chars@[i] as u32 && style == bold + italic && wide == cell.wide && color == text && f == faint)
}

/// An instruction fills a rectangle.
pub open spec fn fills(op: Op, x: int, y: int, w: int, h: int, color: Rgb, faint: bool) -> bool {
    op matches Op::Fill { x: fx, y: fy, w: fw, h: fh, color: c, faint: f } && fx == x && fy == y && fw == w && fh == h && c == color && f == faint
}

/// From instruction `k` on, the text of a cell is drawn at its place in one
/// color: over a fill of the whole cell where there is one, each codepoint of
/// the cluster, eight at most, and below them a line where it is underlined.
pub open spec fn shows_text(ops: Seq<Op>, k: int, col: int, row: int, m: Metrics, cell: Cell, text: Rgb, ground: Option<Rgb>) -> bool {
    let (x, y) = (4 + col * m.cell_w, 4 + row * m.cell_h);
    let n = if cell.chars@.len() < 8 { cell.chars@.len() as int } else { 8 };
    let first = if ground is Some { k + 1 } else { k };
    let faint = cell.style is Some && cell.style->0.faint;
    &&& 0 <= k
    &&& first + n <= ops.len()
    &&& ground is Some ==> fills(ops[k], x, y, m.cell_w as int, m.cell_h as int, ground->0, false)
    &&& shows_glyphs(ops, first, n, x, y + m.ascent, cell, text, faint)
    &&& cell.style is Some && cell.style->0.underline ==> first + n < ops.len() && fills(
        ops[first + n],
        x,
        y + m.ascent + 1,
        m.cell_w as int,
        1,
        text,
        faint,
    )
}

/// The places of a grid fit into the numbers of an instruction.
proof fn places_fit(m: Metrics, col: int, row: int)
    requires
        m.valid(),
        0 <= col <= u16::MAX,
        0 <= row <= u16::MAX,
    ensures
        column_x(m, col) == 4 + col * m.cell_w,
        row_y(m, row) == 4 + row * m.cell_h,
        0 <= column_x(m, col) <= 0x1_0000_0000_0000,
        0 <= row_y(m, row) <= 0x1_0000_0000_0000,
{
    place_bounds(col, m.cell_w as int);
    place_bounds(row, m.cell_h as int);
}

/// The instructions of a cell with text draw it.
proof fn cell_shows_text(ops: Seq<Op>, k: int, col: int, row: int, m: Metrics, cell: Cell, colors: Colors, selected: bool)
    requires
        m.valid(),
        0 <= col <= u16::MAX,
        0 <= row <= u16::MAX,
        cell.chars@.len() > 0,
        0 <= k,
        ({
            let part = cell.ops(colors, m, selected, column_x(m, col), row_y(m, row));
            k + part.len() <= ops.len() && forall|i: int| 0 <= i < part.len() ==> #[trigger] ops[k + i] == part[i]
        }),
    ensures
        ({
            let (text, ground) = cell.paint_colors(colors, selected);
            shows_text(ops, k, col, row, m, cell, text, ground)
        }),
{
    let (x, y) = (column_x(m, col), row_y(m, row));
    places_fit(m, col, row);
    let part = cell.ops(colors, m, selected, x, y);
    let (text, ground) = cell.paint_colors(colors, selected);
    let faint = cell.has(|s: Style| s.faint);
    let glyphs = cell.glyphs(x, y + m.ascent, text, faint);
    let lead = fill_if(x, y, m, ground);
    let from = lead.len() as int;
    let first = if ground is Some { k + 1 } else { k };
    assert(first == k + from);
    assert(part.len() == from + glyphs.len() + (if cell.has(|s: Style| s.underline) { 1int } else { 0 }));
    assert forall|i: int| 0 <= i < glyphs.len() implies #[trigger] ops[first + i] == glyphs[i] by {
        assert(part[from + i] == glyphs[i]);
        assert(ops[k + (from + i)] == part[from + i]);
    }
    assert(shows_glyphs(ops, first, glyphs.len() as int, x, y + m.ascent, cell, text, faint));
    if ground is Some {
        assert(part[0] == lead[0]);
        assert(ops[k + 0] == part[0]);
    }
    if cell.has(|s: Style| s.underline) {
        let at = from + glyphs.len();
        assert(part[at] == fill(x, y + m.ascent + 1, m.cell_w as int, 1, text, faint));
        assert(ops[k + at] == part[at]);
    }
}

/// A cell with text is drawn behind all those before it, in its colors, the
/// defaults standing in for those it has not. Inverse video, or a selection, trades them: the text takes the
/// cell's background and the fill its text color. Both together trade twice.
pub proof fn cells_show_their_colors(frame: &Frame, m: &Metrics, last_bg: Rgb, painted: Painted, row: int, col: int)
    requires
        call_ensures(repaint, (frame, m, last_bg), painted),
        m.valid(),
        frame.valid(),
        0 <= row < frame.rows@.len(),
        0 <= col < frame.rows@[row].cells@.len(),
        frame.rows@[row].cells@[col].chars@.len() > 0,
    ensures
        ({
            let cell = frame.rows@[row].cells@[col];
            let selected = frame.rows@[row].selected && cell.selected;
            let inverse = cell.style is Some && cell.style->0.inverse;
            let fg = if cell.fg is Some { cell.fg->0 } else { frame.colors.foreground };
            let bg = if cell.bg is Some { cell.bg->0 } else { frame.colors.background };
            let ops = painted.ops@;
            let k = ops_in_rows(frame.rows@, row) + ops_in_row(frame.rows@[row], col);
            &&& !selected && !inverse ==> shows_text(ops, k, col, row, *m, cell, fg, cell.bg)
            &&& selected != inverse ==> shows_text(ops, k, col, row, *m, cell, bg, Some(fg))
            &&& selected && inverse ==> shows_text(ops, k, col, row, *m, cell, fg, Some(bg))
        }),
{
    let cell = frame.rows@[row].cells@[col];
    let selected = frame.rows@[row].selected && cell.selected;
    let (x, y) = (column_x(*m, col), row_y(*m, row));
    let grid = frame.grid_ops(*m, frame.rows@.len() as int);
    let k = in_grid(*frame, *m, frame.rows@.len() as int, row, col);
    let part = cell.ops(frame.colors, *m, selected, x, y);
    assert forall|i: int| 0 <= i < part.len() implies #[trigger] painted.ops@[k + i] == part[i] by {
        assert(grid.subrange(k, k + part.len())[i] == part[i]);
    }
    grid_count(*frame, *m, row);
    row_count(frame.rows@[row], frame.colors, *m, y, col);
    cell_shows_text(painted.ops@, k, col, row, *m, cell, frame.colors, selected);
}

/// A cell without text shows its background, and under a selection the text
/// color.
pub proof fn blank_cells_show_their_ground(frame: &Frame, m: &Metrics, last_bg: Rgb, painted: Painted, row: int, col: int)
    requires
        call_ensures(repaint, (frame, m, last_bg), painted),
        m.valid(),
        frame.valid(),
        0 <= row < frame.rows@.len(),
        0 <= col < frame.rows@[row].cells@.len(),
        frame.rows@[row].cells@[col].chars@.len() == 0,
    ensures
        ({
            let cell = frame.rows@[row].cells@[col];
            let selected = frame.rows@[row].selected && cell.selected;
            let k = ops_in_rows(frame.rows@, row) + ops_in_row(frame.rows@[row], col);
            let (x, y) = (4 + col * m.cell_w, 4 + row * m.cell_h);
            &&& selected || cell.bg is Some ==> 0 <= k < painted.ops@.len()
            &&& selected ==> fills(painted.ops@[k], x, y, m.cell_w as int, m.cell_h as int, frame.colors.foreground, false)
            &&& !selected && cell.bg is Some ==> fills(painted.ops@[k], x, y, m.cell_w as int, m.cell_h as int, cell.bg->0, false)
        }),
{
    let cell = frame.rows@[row].cells@[col];
    let selected = frame.rows@[row].selected && cell.selected;
    let (x, y) = (column_x(*m, col), row_y(*m, row));
    let grid = frame.grid_ops(*m, frame.rows@.len() as int);
    places_fit(*m, col, row);
    grid_count(*frame, *m, row);
    row_count(frame.rows@[row], frame.colors, *m, y, col);
    let k = in_grid(*frame, *m, frame.rows@.len() as int, row, col);
    let part = cell.ops(frame.colors, *m, selected, x, y);
    if part.len() > 0 {
        assert(grid.subrange(k, k + part.len())[0] == part[0]);
        assert(painted.ops@[k] == part[0]);
    }
}

/// How many instructions a cell takes: a fill where something fills it, a
/// glyph for each codepoint, eight at most, and a line where text is
/// underlined.
pub open spec fn ops_of(cell: Cell, selected: bool) -> int {
    let style = cell.style;
    if cell.chars@.len() == 0 {
        if selected || cell.bg is Some { 1 } else { 0 }
    } else {
        (if selected || cell.bg is Some || (style is Some && style->0.inverse) { 1int } else { 0 }) + (if cell.chars@.len() < 8 {
            cell.chars@.len() as int
        } else {
            8
        }) + (if style is Some && style->0.underline { 1int } else { 0 })
    }
}

/// How many the first `n` cells of a row take.
pub open spec fn ops_in_row(row: Row, n: int) -> int
    decreases n,
{
    if n <= 0 {
        0
    } else {
        ops_in_row(row, n - 1) + ops_of(row.cells@[n - 1], row.selected && row.cells@[n - 1].selected)
    }
}

/// How many the first `n` rows take.
pub open spec fn ops_in_rows(rows: Seq<Row>, n: int) -> int
    decreases n,
{
    if n <= 0 {
        0
    } else {
        ops_in_rows(rows, n - 1) + ops_in_row(rows[n - 1], rows[n - 1].cells@.len() as int)
    }
}

proof fn row_count(row: Row, colors: Colors, m: Metrics, y: int, n: int)
    requires
        0 <= n <= row.cells@.len(),
    ensures
        row.ops(colors, m, y, n).len() == ops_in_row(row, n),
    decreases n,
{
    if n > 0 {
        row_count(row, colors, m, y, n - 1);
    }
}

proof fn grid_count(frame: Frame, m: Metrics, n: int)
    requires
        0 <= n <= frame.rows@.len(),
    ensures
        frame.grid_ops(m, n).len() == ops_in_rows(frame.rows@, n),
    decreases n,
{
    if n > 0 {
        grid_count(frame, m, n - 1);
        let row = frame.rows@[n - 1];
        row_count(row, frame.colors, m, row_y(m, n - 1), row.cells@.len() as int);
    }
}

/// Only the grid's cells, the cursor and an exit's message are drawn: the
/// instructions are as many as the cells take and those for what lies above
/// them, and the background is the frame's.
pub proof fn recordings_hold_nothing_else(frame: &Frame, m: &Metrics, last_bg: Rgb, painted: Painted)
    requires
        call_ensures(repaint, (frame, m, last_bg), painted),
    ensures
        ({
            let cells = ops_in_rows(frame.rows@, frame.rows@.len() as int);
            let n = painted.ops@.len();
            &&& !frame.complete ==> n == cells
            &&& frame.complete && frame.exited ==> n == cells + 2 && painted.ops@[n - 2] is Dim && painted.ops@[n - 1] is Message
            &&& frame.complete && !frame.exited && frame.cursor is None ==> n == cells
            &&& frame.complete && !frame.exited && frame.cursor is Some ==> n > cells
        }),
        painted.bg == frame.colors.background,
        painted.bg_changed <==> frame.colors.background != last_bg,
{
    grid_count(*frame, *m, frame.rows@.len() as int);
}

/// The cursor block lies over the whole grid, at its place or on the head of
/// the wide character whose tail it is on; the text of its cell is drawn on
/// it in the background color, and it is as wide as that text.
pub proof fn cursors_lie_over_the_grid(frame: &Frame, m: &Metrics, last_bg: Rgb, painted: Painted, col: int, row: int)
    requires
        call_ensures(repaint, (frame, m, last_bg), painted),
        m.valid(),
        frame.valid(),
        frame.complete,
        !frame.exited,
        frame.cursor is Some,
        row == frame.cursor->0.y,
        col == (if frame.cursor->0.at_wide_tail && frame.cursor->0.x >= 1 { frame.cursor->0.x - 1 } else { frame.cursor->0.x as int }),
    ensures
        ({
            let ops = painted.ops@;
            let k = ops_in_rows(frame.rows@, frame.rows@.len() as int);
            let there = row < frame.rows@.len() && col < frame.rows@[row].cells@.len() && frame.rows@[row].cells@[col].chars@.len() > 0;
            let cell = frame.rows@[row].cells@[col];
            let n = if !there { 0 } else if cell.chars@.len() < 8 { cell.chars@.len() as int } else { 8 };
            &&& ops.len() == k + 1 + n
            &&& fills(
                ops[k],
                4 + col * m.cell_w,
                4 + row * m.cell_h,
                if there && cell.wide { 2 * m.cell_w } else { m.cell_w as int },
                m.cell_h as int,
                if frame.colors.cursor is Some { frame.colors.cursor->0 } else { frame.colors.foreground },
                false,
            )
            &&& shows_glyphs(ops, k + 1, n, 4 + col * m.cell_w, 4 + row * m.cell_h + m.ascent, cell, frame.colors.background, false)
        }),
{
    grid_count(*frame, *m, frame.rows@.len() as int);
    places_fit(*m, col, row);
    let ops = painted.ops@;
    let grid = frame.grid_ops(*m, frame.rows@.len() as int);
    let above = frame.cursor_ops(*m);
    assert(frame.cursor_at() == Some((col, row)));
    assert forall|i: int| 0 <= i < above.len() implies #[trigger] ops[grid.len() + i] == above[i] by {}
    assert(ops[grid.len() + 0int] == above[0]);
    let there = frame.text_at(col, row);
    if there {
        let cell = frame.rows@[row].cells@[col];
        let glyphs = cell.glyphs(column_x(*m, col), row_y(*m, row) + m.ascent, frame.colors.background, false);
        assert forall|i: int| 0 <= i < glyphs.len() implies #[trigger] ops[grid.len() + 1 + i] == glyphs[i] by {
            assert(above[1 + i] == glyphs[i]);
            assert(ops[grid.len() + (1 + i)] == above[1 + i]);
        }
    }
}

} // verus!
