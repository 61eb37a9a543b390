//! Text underlines in the SGR 4:x styles, cell-perfect so neighbors tile and
//! clamped inside the cell. Coordinates are relative to the cell origin.

use vstd::prelude::*;

use crate::fixed::{EXTENT, UNIT};

verus! {

#[derive(Clone, Copy, Debug, PartialEq, Eq, Structural)]
pub enum Underline {
    Off,
    Single,
    Double,
    Curly,
    Dotted,
    Dashed,
}

/// Rectangle of an underline, in fixed-point pixels.
#[derive(Clone, Copy, Debug, PartialEq, Eq, Structural)]
pub struct Line {
    pub x0: i64,
    pub y0: i64,
    pub x1: i64,
    pub y1: i64,
}

/// What an underline is made of: rectangles, or one wave cycle that peaks at
/// the cell's center.
#[derive(Debug)]
pub enum Strokes {
    Lines(Vec<Line>),
    Wave,
}

pub open spec fn line(x0: int, y0: int, x1: int, y1: int) -> Line {
    Line { x0: x0 as i64, y0: y0 as i64, x1: x1 as i64, y1: y1 as i64 }
}

pub open spec fn at_most(v: int, bound: int) -> int {
    if v < bound { v } else { bound }
}

pub open spec fn at_least(v: int, bound: int) -> int {
    if v > bound { v } else { bound }
}

/// Dots to a cell: spaced to match their size, never closer than half of it
/// or one pixel, and at least one.
pub open spec fn dot_count(w: int, dot: int) -> int {
    at_least(at_most(at_most((w + 2 * dot - 1) / (2 * dot), 2 * w / (3 * dot)), w / (dot + 1)), 1)
}

/// A fraction rounded to the nearest integer, halves away from zero.
pub open spec fn rounded(n: int, d: int) -> int {
    if n >= 0 {
        (2 * n + d) / (2 * d)
    } else {
        -((d - 2 * n) / (2 * d))
    }
}

/// Left edge of the i-th dot, centered in its share of the cell.
pub open spec fn dot_left(w: int, dot: int, i: int) -> int {
    rounded(w * (2 * i + 1) - dot * dot_count(w, dot), 2 * dot_count(w, dot))
}

/// The rectangles of an underline whose single form has its top at `y`, or as
/// near to it as the cell allows.
pub open spec fn lines(w: int, h: int, thick: int, y: int, dot: int, style: Underline) -> Seq<Line> {
    match style {
        Underline::Off | Underline::Curly => seq![],
        Underline::Single => {
            let yy = at_least(at_most(y, h * UNIT - thick), 0);
            seq![line(0, yy, w * UNIT, yy + thick)]
        },
        // A line above and below the single position, gap in between.
        Underline::Double => {
            let yy = at_least(at_most(y, h * UNIT - 2 * thick), thick);
            seq![line(0, yy - thick, w * UNIT, yy), line(0, yy + thick, w * UNIT, yy + 2 * thick)]
        },
        Underline::Dotted => {
            let yy = at_least(at_most(y, (h - dot) * UNIT), 0);
            Seq::new(
                dot_count(w, dot) as nat,
                |i: int| line(dot_left(w, dot, i) * UNIT, yy, (dot_left(w, dot, i) + dot) * UNIT, yy + dot * UNIT),
            )
        },
        // Thirds: dash, gap, dash. The last dash clips at the cell edge.
        Underline::Dashed => {
            let yy = at_least(at_most(y, h * UNIT - thick), 0);
            let third = w / 3 + 1;
            seq![
                line(0, yy, third * UNIT, yy + thick),
                line(at_most(2 * third, w) * UNIT, yy, at_most(w, 3 * third) * UNIT, yy + thick),
            ]
        },
    }
}

fn round_div(n: i64, d: i64) -> (r: i64)
    requires
        1 <= d <= 0x1_0000_0000,
        -0x2000_0000_0000_0000 <= n <= 0x2000_0000_0000_0000,
    ensures
        r == rounded(n as int, d as int),
{
    if n >= 0 {
        (2 * n + d) / (2 * d)
    } else {
        -((d - 2 * n) / (2 * d))
    }
}

proof fn dot_count_bounds(w: int, dot: int)
    requires
        0 <= w,
        1 <= dot,
    ensures
        1 <= dot_count(w, dot),
        dot_count(w, dot) <= at_least(w, 1),
{
    assert(w / (dot + 1) <= w) by (nonlinear_arith)
        requires
            0 <= w,
            1 <= dot,
    ;
}

proof fn rounded_bounds(n: int, d: int, lo: int, hi: int)
    requires
        1 <= d,
        lo <= 0 <= hi,
        lo * d <= n <= hi * d,
    ensures
        lo <= rounded(n, d) <= hi,
{
    assert(lo <= rounded(n, d) <= hi) by (nonlinear_arith)
        requires
            1 <= d,
            lo <= 0 <= hi,
            lo * d <= n <= hi * d,
            rounded(n, d) == (if n >= 0 { (2 * n + d) / (2 * d) } else { -((d - 2 * n) / (2 * d)) }),
    ;
}

fn dots(w: i32, dot: i32, yy: i64) -> (list: Vec<Line>)
    requires
        0 <= w <= i32::MAX / 2,
        1 <= dot <= i32::MAX / 4,
        -2 * EXTENT <= yy <= 2 * EXTENT,
    ensures
        list@ == Seq::new(
            dot_count(w as int, dot as int) as nat,
            |i: int| line(
                dot_left(w as int, dot as int, i) * UNIT,
                yy as int,
                (dot_left(w as int, dot as int, i) + dot) * UNIT,
                yy + dot * UNIT,
            ),
        ),
{
    let w: i64 = w as i64;
    let dot: i64 = dot as i64;
    let count: i64 = ((w + 2 * dot - 1) / (2 * dot)).min(2 * w / (3 * dot)).min(w / (dot + 1)).max(1);
    assert(count == dot_count(w as int, dot as int));
    proof {
        dot_count_bounds(w as int, dot as int);
    }
    let mut list: Vec<Line> = Vec::new();
    let mut i: i64 = 0;
    while i < count
        invariant
            0 <= i <= count,
            count == dot_count(w as int, dot as int),
            1 <= count <= at_least(w as int, 1),
            0 <= w <= i32::MAX / 2,
            1 <= dot <= i32::MAX / 4,
            -2 * EXTENT <= yy <= 2 * EXTENT,
            list@.len() == i,
            forall|k: int|
                0 <= k < i ==> (#[trigger] list@[k]) == line(
                    dot_left(w as int, dot as int, k) * UNIT,
                    yy as int,
                    (dot_left(w as int, dot as int, k) + dot) * UNIT,
                    yy + dot * UNIT,
                ),
        decreases count - i,
    {
        let ghost n = w * (2 * i + 1) - dot * count;
        proof {
            assert(0 <= w * (2 * i + 1) <= w * (2 * count) && w * (2 * count) <= 0x2000_0000_0000_0000) by (nonlinear_arith)
                requires
                    0 <= w <= 0x4000_0000,
                    0 <= i < count,
                    count <= 0x4000_0000,
            ;
            assert(0 <= dot * count && dot * count <= 0x2000_0000_0000_0000) by (nonlinear_arith)
                requires
                    1 <= dot <= 0x2000_0000,
                    1 <= count <= 0x4000_0000,
            ;
            assert((-dot) * (2 * count) <= -(dot * count)) by (nonlinear_arith)
                requires
                    1 <= dot,
                    1 <= count,
            ;
            rounded_bounds(n, 2 * count, -dot as int, w as int);
        }
        let x: i64 = round_div(w * (2 * i + 1) - dot * count, 2 * count);
        assert(x == dot_left(w as int, dot as int, i as int));
        list.push(Line { x0: x * UNIT, y0: yy, x1: (x + dot) * UNIT, y1: yy + dot * UNIT });
        i = i + 1;
    }
    list
}

/// Underline in one of the SGR 4:x styles. `y` is the wished top of the single
/// underline and `thick` its height, in fixed-point pixels; `dot` is the side
/// of a dot of the dotted style, in whole pixels.
pub fn underline(w: i32, h: i32, thick: i64, y: i64, dot: i32, style: Underline) -> (strokes: Strokes)
    requires
        0 <= w <= i32::MAX / 2,
        0 <= h <= i32::MAX / 2,
        0 <= thick <= EXTENT,
        -EXTENT <= y <= EXTENT,
        1 <= dot <= i32::MAX / 4,
    ensures
        strokes is Wave <==> style is Curly,
        strokes matches Strokes::Lines(list) ==> list@ == lines(w as int, h as int, thick as int, y as int, dot as int, style),
{
    let width: i64 = w as i64 * UNIT;
    let height: i64 = h as i64 * UNIT;
    let mut list: Vec<Line> = Vec::new();
    match style {
        Underline::Off => {},
        Underline::Curly => {
            return Strokes::Wave;
        },
        Underline::Single => {
            let yy: i64 = y.min(height - thick).max(0);
            list.push(Line { x0: 0, y0: yy, x1: width, y1: yy + thick });
        },
        Underline::Double => {
            let yy: i64 = y.min(height - 2 * thick).max(thick);
            list.push(Line { x0: 0, y0: yy - thick, x1: width, y1: yy });
            list.push(Line { x0: 0, y0: yy + thick, x1: width, y1: yy + 2 * thick });
        },
        Underline::Dotted => {
            return Strokes::Lines(dots(w, dot, y.min((h as i64 - dot as i64) * UNIT).max(0)));
        },
        Underline::Dashed => {
            let yy: i64 = y.min(height - thick).max(0);
            let third: i64 = w as i64 / 3 + 1;
            list.push(Line { x0: 0, y0: yy, x1: third * UNIT, y1: yy + thick });
            list.push(Line {
                x0: (2 * third).min(w as i64) * UNIT,
                y0: yy,
                x1: (w as i64).min(3 * third) * UNIT,
                y1: yy + thick,
            });
        },
    }
    assert(list@ == lines(w as int, h as int, thick as int, y as int, dot as int, style));
    Strokes::Lines(list)
}

/// The height that an underline needs.
pub open spec fn height_of(thick: int, dot: int, style: Underline) -> int {
    match style {
        Underline::Double => 3 * thick,
        Underline::Dotted => dot * UNIT,
        _ => thick,
    }
}

/// Every line of an underline stays inside a cell that has the height for it,
/// wherever the single one would sit, and inside the cell's sides where a dot
/// is no wider than the cell.
pub proof fn underlines_stay_inside(w: int, h: int, thick: int, y: int, dot: int, style: Underline, i: int)
    requires
        1 <= w <= i32::MAX / 2,
        0 <= h <= i32::MAX / 2,
        0 <= thick <= EXTENT,
        -EXTENT <= y <= EXTENT,
        1 <= dot <= i32::MAX / 4,
        height_of(thick, dot, style) <= h * UNIT,
        0 <= i < lines(w, h, thick, y, dot, style).len(),
    ensures
        ({
            let l = lines(w, h, thick, y, dot, style)[i];
            &&& 0 <= l.y0 <= l.y1 <= h * UNIT
            &&& !(style is Dotted) || dot <= w ==> 0 <= l.x0 <= l.x1 <= w * UNIT
        }),
{
    if style is Dotted {
        dot_count_bounds(w, dot);
        let count = dot_count(w, dot);
        let n = w * (2 * i + 1) - dot * count;
        assert((-dot) * (2 * count) <= n <= w * (2 * count)) by (nonlinear_arith)
            requires
                0 <= i < count,
                1 <= w,
                1 <= dot,
                n == w * (2 * i + 1) - dot * count,
        ;
        rounded_bounds(n, 2 * count, -dot, w);
        if dot <= w {
            assert(dot * count <= w) by {
                if count > 1 {
                    let q = w / (dot + 1);
                    assert(dot * count <= w) by (nonlinear_arith)
                        requires
                            count <= q,
                            q == w / (dot + 1),
                            1 <= dot,
                            1 <= w,
                            count > 1,
                    ;
                } else {
                    assert(dot * count == dot) by (nonlinear_arith)
                        requires
                            count == 1,
                    ;
                }
            }
            let t = 2 * i + 1;
            let last = 2 * count - 1;
            assert(w <= w * t) by (nonlinear_arith)
                requires
                    1 <= t,
                    1 <= w,
            ;
            assert(w * t <= w * last) by (nonlinear_arith)
                requires
                    t <= last,
                    1 <= w,
            ;
            assert(w * (2 * count - 1) == 2 * (w * count) - w) by (nonlinear_arith);
            assert((w - dot) * (2 * count) == 2 * (w * count) - 2 * (dot * count)) by (nonlinear_arith);
            rounded_bounds(n, 2 * count, 0, w - dot);
        }
    }
}

/// The rectangles of an underline are as many as its style has, and a curly
/// one is a wave.
pub proof fn styles_have_their_strokes(w: i32, h: i32, thick: i64, y: i64, dot: i32, style: Underline, strokes: Strokes)
    requires
        call_ensures(underline, (w, h, thick, y, dot, style), strokes),
    ensures
        style is Curly <==> strokes is Wave,
        style is Off ==> strokes is Lines && strokes->Lines_0@.len() == 0,
        style is Single ==> strokes is Lines && strokes->Lines_0@.len() == 1,
        style is Double ==> strokes is Lines && strokes->Lines_0@.len() == 2,
        style is Dashed ==> strokes is Lines && strokes->Lines_0@.len() == 2,
        style is Dotted ==> strokes is Lines && strokes->Lines_0@.len() >= 1,
{
}

/// A single underline spans the cell at the wished place; where it would stick
/// out below it sits on the cell's bottom, and above at its top.
pub proof fn single_underlines_span_the_cell(w: i32, h: i32, thick: i64, y: i64, dot: i32, strokes: Strokes)
    requires
        0 <= w <= 0x3fff_ffff,
        0 <= h <= 0x3fff_ffff,
        0 <= thick <= 0x80_0000_0000_0000,
        -0x80_0000_0000_0000 <= y <= 0x80_0000_0000_0000,
        call_ensures(underline, (w, h, thick, y, dot, Underline::Single), strokes),
    ensures
        ({
            let l = strokes->Lines_0@[0];
            let bottom = h * 0x80_0000;
            &&& l.x0 == 0 && l.x1 == w * 0x80_0000
            &&& l.y1 - l.y0 == thick
            &&& 0 <= y && y + thick <= bottom ==> l.y0 == y
            &&& thick <= bottom && y + thick > bottom ==> l.y1 == bottom
            &&& y < 0 || thick > bottom ==> l.y0 == 0
        }),
{
}

/// A double underline is two of them with a gap as high as each between; the
/// upper one ends where the single one would begin.
pub proof fn double_underlines_leave_a_gap(w: i32, h: i32, thick: i64, y: i64, dot: i32, strokes: Strokes)
    requires
        0 <= w <= 0x3fff_ffff,
        0 <= h <= 0x3fff_ffff,
        0 <= thick <= 0x80_0000_0000_0000,
        -0x80_0000_0000_0000 <= y <= 0x80_0000_0000_0000,
        call_ensures(underline, (w, h, thick, y, dot, Underline::Double), strokes),
    ensures
        ({
            let a = strokes->Lines_0@[0];
            let b = strokes->Lines_0@[1];
            let bottom = h * 0x80_0000;
            &&& a.x0 == 0 && a.x1 == w * 0x80_0000
            &&& b.x0 == 0 && b.x1 == w * 0x80_0000
            &&& a.y1 - a.y0 == thick && b.y0 - a.y1 == thick && b.y1 - b.y0 == thick
            &&& thick <= y && y + 2 * thick <= bottom ==> a.y1 == y
            &&& 3 * thick <= bottom && y + 2 * thick > bottom ==> b.y1 == bottom
            &&& y < thick || 3 * thick > bottom ==> a.y0 == 0
        }),
{
}

/// A dashed underline begins with a dash of a third of the cell, leaves a gap
/// of that width and ends with the cell; it lies where a single one would.
pub proof fn dashes_are_thirds(w: i32, h: i32, thick: i64, y: i64, dot: i32, strokes: Strokes, single: Strokes)
    requires
        0 <= w <= 0x3fff_ffff,
        0 <= h <= 0x3fff_ffff,
        0 <= thick <= 0x80_0000_0000_0000,
        -0x80_0000_0000_0000 <= y <= 0x80_0000_0000_0000,
        call_ensures(underline, (w, h, thick, y, dot, Underline::Dashed), strokes),
        call_ensures(underline, (w, h, thick, y, dot, Underline::Single), single),
    ensures
        ({
            let a = strokes->Lines_0@[0];
            let b = strokes->Lines_0@[1];
            let s = single->Lines_0@[0];
            let third = (w as int / 3 + 1) * 0x80_0000;
            &&& a.y0 == s.y0 && a.y1 == s.y1 && b.y0 == s.y0 && b.y1 == s.y1
            &&& a.x0 == 0 && a.x1 == third
            &&& 2 * third <= w * 0x80_0000 ==> b.x0 == 2 * third
            &&& 2 * third > w * 0x80_0000 ==> b.x0 == w * 0x80_0000
            &&& b.x1 == w * 0x80_0000
        }),
{
}

proof fn counts_are_largest(w: int, dot: int)
    requires
        0 <= w,
        1 <= dot,
    ensures
        ({
            let n = dot_count(w, dot);
            &&& n > 1 ==> n * (dot + 1) <= w && n * (3 * dot) <= 2 * w && (n - 1) * (2 * dot) < w
            &&& (n + 1) * (dot + 1) > w || (n + 1) * (3 * dot) > 2 * w || n * (2 * dot) >= w
        }),
{
    let n = dot_count(w, dot);
    let a = (w + 2 * dot - 1) / (2 * dot);
    let b = 2 * w / (3 * dot);
    let c = w / (dot + 1);
    divides(w + 2 * dot - 1, 2 * dot, n);
    divides(2 * w, 3 * dot, n);
    divides(w, dot + 1, n);
    assert((n - 1) * (2 * dot) == n * (2 * dot) - 2 * dot) by (nonlinear_arith);
    assert((n + 1) * (2 * dot) == n * (2 * dot) + 2 * dot) by (nonlinear_arith);
}

proof fn divides(v: int, d: int, n: int)
    requires
        0 <= v,
        1 <= d,
    ensures
        n <= v / d ==> n * d <= v,
        n >= v / d ==> (n + 1) * d > v,
{
    let q = v / d;
    assert(q * d <= v < (q + 1) * d) by (nonlinear_arith)
        requires
            1 <= d,
            q == v / d,
    ;
    if n <= q {
        assert(n * d <= q * d) by (nonlinear_arith)
            requires
                n <= q,
                1 <= d,
        ;
    }
    if n >= q {
        assert((q + 1) * d <= (n + 1) * d) by (nonlinear_arith)
            requires
                n >= q,
                1 <= d,
        ;
    }
}

/// There are as many dots as fit two dots' width apart, but none so close that
/// less than half a dot or a pixel is between them, and at least one.
pub proof fn dots_are_as_many_as_fit(w: i32, h: i32, thick: i64, y: i64, dot: i32, strokes: Strokes)
    requires
        0 <= w <= 0x3fff_ffff,
        1 <= dot <= 0x1fff_ffff,
        call_ensures(underline, (w, h, thick, y, dot, Underline::Dotted), strokes),
    ensures
        ({
            let n = strokes->Lines_0@.len() as int;
            &&& n >= 1
            &&& n > 1 ==> n * (dot + 1) <= w && n * (3 * dot) <= 2 * w && (n - 1) * (2 * dot) < w
            &&& (n + 1) * (dot + 1) > w || (n + 1) * (3 * dot) > 2 * w || n * (2 * dot) >= w
        }),
{
    counts_are_largest(w as int, dot as int);
    dot_count_bounds(w as int, dot as int);
}

proof fn rounding_is_near(n: int, d: int)
    requires
        1 <= d,
    ensures
        -d <= 2 * (rounded(n, d) * d - n) <= d,
{
    let r = rounded(n, d);
    if n >= 0 {
        let q = (2 * n + d) / (2 * d);
        assert(-d <= 2 * (q * d - n) <= d) by (nonlinear_arith)
            requires
                1 <= d,
                q == (2 * n + d) / (2 * d),
        ;
    } else {
        let q = (d - 2 * n) / (2 * d);
        assert(-d <= 2 * (-q * d - n) <= d) by (nonlinear_arith)
            requires
                1 <= d,
                q == (d - 2 * n) / (2 * d),
        ;
    }
}

/// Each dot is a square of the asked size, on whole pixels, at most half a
/// pixel off the middle of its share of the cell; all lie at the wished
/// height, or as near to it as the cell allows.
pub proof fn dots_sit_in_the_middle_of_their_share(w: i32, h: i32, thick: i64, y: i64, dot: i32, strokes: Strokes, i: int, x: int)
    requires
        0 <= w <= 0x3fff_ffff,
        0 <= h <= 0x3fff_ffff,
        -0x80_0000_0000_0000 <= y <= 0x80_0000_0000_0000,
        1 <= dot <= 0x1fff_ffff,
        call_ensures(underline, (w, h, thick, y, dot, Underline::Dotted), strokes),
        0 <= i < strokes->Lines_0@.len(),
        x == strokes->Lines_0@[i].x0 as int / 0x80_0000,
    ensures
        ({
            let l = strokes->Lines_0@[i];
            let n = strokes->Lines_0@.len() as int;
            let side = dot * 0x80_0000;
            let bottom = h * 0x80_0000;
            &&& l.x0 == x * 0x80_0000
            &&& l.x1 - l.x0 == side && l.y1 - l.y0 == side
            &&& -n <= 2 * (x * n) + dot * n - w * (2 * i + 1) <= n
            &&& 0 <= y && y + side <= bottom ==> l.y0 == y
            &&& side <= bottom && y + side > bottom ==> l.y1 == bottom
            &&& y < 0 || side > bottom ==> l.y0 == 0
        }),
{
    let w = w as int;
    let dot = dot as int;
    let n = dot_count(w, dot);
    dot_count_bounds(w, dot);
    let num = w * (2 * i + 1) - dot * n;
    let left = dot_left(w, dot, i);
    assert((-dot) * (2 * n) <= num <= w * (2 * n)) by (nonlinear_arith)
        requires
            0 <= i < n,
            0 <= w,
            1 <= dot,
            num == w * (2 * i + 1) - dot * n,
    ;
    rounded_bounds(num, 2 * n, -dot, w);
    rounding_is_near(num, 2 * n);
    assert(left * (2 * n) == 2 * (left * n)) by (nonlinear_arith);
    assert(strokes->Lines_0@[i].x0 == left * UNIT);
    assert(x == left);
}

} // verus!
