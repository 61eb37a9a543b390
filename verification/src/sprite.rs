//! Glyphs drawn as cell-perfect geometry instead of font glyphs: fills, box
//! lines, braille, prompt separators. Fonts do not know the cell box and leave
//! seams; these shapes are computed from the cell size alone, in whole pixels
//! relative to the cell origin. Curved and slanted outlines are named, not
//! rasterized: the caller strokes or fills them.

use vstd::prelude::*;

verus! {

/// Axis-aligned rectangle in cell pixels, from (x0, y0) to (x1, y1).
#[derive(Clone, Copy, Debug, PartialEq, Eq, Structural)]
pub struct Rect {
    pub x0: i32,
    pub y0: i32,
    pub x1: i32,
    pub y1: i32,
}

/// The rectangle with these mathematical bounds.
pub open spec fn rect(x0: int, y0: int, x1: int, y1: int) -> Rect {
    Rect { x0: x0 as i32, y0: y0 as i32, x1: x1 as i32, y1: y1 as i32 }
}

impl Rect {
    /// The rectangle lies inside a cell of this size and is not inverted.
    pub open spec fn inside(self, w: int, h: int) -> bool {
        &&& 0 <= self.x0 <= self.x1 <= w
        &&& 0 <= self.y0 <= self.y1 <= h
    }
}

pub open spec fn max0(v: int) -> int {
    if v > 0 {
        v
    } else {
        0
    }
}

pub open spec fn min_int(a: int, b: int) -> int {
    if a <= b {
        a
    } else {
        b
    }
}

// ---------------------------------------------------------------------------
// Box drawing: intersecting lines
// ---------------------------------------------------------------------------

pub const NONE: u8 = 0;
pub const LIGHT: u8 = 1;
pub const HEAVY: u8 = 2;
pub const DOUBLE: u8 = 3;

/// Low edge of a centered strip of this thickness, never outside the cell.
pub open spec fn centered(extent: int, thickness: int) -> int {
    max0(extent - thickness) / 2
}

pub open spec fn light_lo(extent: int, light: int) -> int {
    centered(extent, light)
}

pub open spec fn light_hi(extent: int, light: int) -> int {
    centered(extent, light) + light
}

pub open spec fn heavy_lo(extent: int, light: int) -> int {
    centered(extent, 2 * light)
}

pub open spec fn heavy_hi(extent: int, light: int) -> int {
    centered(extent, 2 * light) + 2 * light
}

/// The two lines of a double stroke flank the light strip.
pub open spec fn double_lo(extent: int, light: int) -> int {
    max0(centered(extent, light) - light)
}

pub open spec fn double_hi(extent: int, light: int) -> int {
    centered(extent, light) + 2 * light
}

/// Where an arm stops along its direction: past the crossing stroke for heavy
/// neighbors, at the double outer edge, at the light far side, or short of the
/// center when a lone opposing arm passes through. `low` arms come from the
/// cell's low edge (top or left). `a` and `b` are the crossing arms.
pub open spec fn arm_stop(low: bool, kind: u8, opposite: u8, a: u8, b: u8, along: int, light: int) -> int {
    if a == HEAVY || b == HEAVY {
        if low { heavy_hi(along, light) } else { heavy_lo(along, light) }
    } else if (a != b || kind == opposite) && (a == DOUBLE || b == DOUBLE) {
        if low { double_hi(along, light) } else { double_lo(along, light) }
    } else if a != b || kind == opposite || a == NONE {
        if low { light_hi(along, light) } else { light_lo(along, light) }
    } else {
        if low { light_lo(along, light) } else { light_hi(along, light) }
    }
}

/// One strip of an arm: `c0..c1` across the stroke, and along it from the
/// cell edge the arm belongs to up to `stop`.
pub open spec fn strip(vertical: bool, low: bool, c0: int, c1: int, stop: int, along: int) -> Rect {
    let from = if low { 0 } else { stop };
    let to = if low { stop } else { along };
    if vertical {
        rect(c0, from, c1, to)
    } else {
        rect(from, c0, to, c1)
    }
}

/// The strips of one arm. A double arm has two, each of which ends early at
/// the light strip where the crossing arm on its side is double as well.
pub open spec fn arm(vertical: bool, low: bool, kind: u8, opposite: u8, a: u8, b: u8, across: int, along: int, light: int) -> Seq<Rect> {
    let stop = arm_stop(low, kind, opposite, a, b, along, light);
    let flush = if low { light_lo(along, light) } else { light_hi(along, light) };
    if kind == LIGHT {
        seq![strip(vertical, low, light_lo(across, light), light_hi(across, light), stop, along)]
    } else if kind == HEAVY {
        seq![strip(vertical, low, heavy_lo(across, light), heavy_hi(across, light), stop, along)]
    } else if kind == DOUBLE {
        seq![
            strip(vertical, low, double_lo(across, light), light_lo(across, light), if a == DOUBLE { flush } else { stop }, along),
            strip(vertical, low, light_hi(across, light), double_hi(across, light), if b == DOUBLE { flush } else { stop }, along),
        ]
    } else {
        seq![]
    }
}

pub open spec fn up_of(spec: u8) -> u8 {
    (spec % 4) as u8
}

pub open spec fn right_of(spec: u8) -> u8 {
    (spec / 4 % 4) as u8
}

pub open spec fn down_of(spec: u8) -> u8 {
    (spec / 16 % 4) as u8
}

pub open spec fn left_of(spec: u8) -> u8 {
    (spec / 64 % 4) as u8
}

/// The strips of one codepoint of intersecting lines: the up, right, down and
/// left arms of `spec`, two bits each.
pub open spec fn line_rects(w: int, h: int, light: int, spec: u8) -> Seq<Rect> {
    let (up, right, down, left) = (up_of(spec), right_of(spec), down_of(spec), left_of(spec));
    arm(true, true, up, down, left, right, w, h, light)
        + arm(false, false, right, left, up, down, h, w, light)
        + arm(true, false, down, up, left, right, w, h, light)
        + arm(false, true, left, right, up, down, h, w, light)
}

/// Bounds under which pixel arithmetic on a cell cannot overflow.
pub open spec fn drawable(w: i32, h: i32, light: i32) -> bool {
    &&& 0 <= w <= i32::MAX / 2
    &&& 0 <= h <= i32::MAX / 2
    &&& 1 <= light <= i32::MAX / 4
}

/// The strips that strokes of each kind occupy along one extent of the cell.
#[derive(Clone, Copy)]
struct Strips {
    extent: i32,
    light_lo: i32,
    light_hi: i32,
    heavy_lo: i32,
    heavy_hi: i32,
    double_lo: i32,
    double_hi: i32,
}

impl Strips {
    spec fn of(self, extent: int, light: int) -> bool {
        &&& self.extent == extent
        &&& self.light_lo == light_lo(extent, light)
        &&& self.light_hi == light_hi(extent, light)
        &&& self.heavy_lo == heavy_lo(extent, light)
        &&& self.heavy_hi == heavy_hi(extent, light)
        &&& self.double_lo == double_lo(extent, light)
        &&& self.double_hi == double_hi(extent, light)
    }
}

fn strips(extent: i32, light: i32) -> (s: Strips)
    requires
        0 <= extent,
        1 <= light <= i32::MAX / 4,
    ensures
        s.of(extent as int, light as int),
{
    let heavy: i32 = light * 2;
    // Floors keep the strips inside the cell when strokes outgrow it.
    let light_lo: i32 = ((extent - light) / 2).max(0);
    let heavy_lo: i32 = ((extent - heavy) / 2).max(0);
    Strips {
        extent,
        light_lo,
        light_hi: light_lo + light,
        heavy_lo,
        heavy_hi: heavy_lo + heavy,
        double_lo: (light_lo - light).max(0),
        double_hi: light_lo + light + light,
    }
}

fn stop_of(low: bool, kind: u8, opposite: u8, a: u8, b: u8, along: &Strips, Ghost(light): Ghost<int>) -> (r: i32)
    requires
        along.of(along.extent as int, light),
    ensures
        r == arm_stop(low, kind, opposite, a, b, along.extent as int, light),
{
    let (near, mid, far, dbl) = if low {
        (along.light_lo, along.light_hi, along.heavy_hi, along.double_hi)
    } else {
        (along.light_hi, along.light_lo, along.heavy_lo, along.double_lo)
    };
    if a == HEAVY || b == HEAVY {
        far
    } else if a != b || kind == opposite {
        if a == DOUBLE || b == DOUBLE {
            dbl
        } else {
            mid
        }
    } else if a == NONE && b == NONE {
        mid
    } else {
        near
    }
}

fn strip_rect(vertical: bool, low: bool, c0: i32, c1: i32, stop: i32, along: i32) -> (r: Rect)
    ensures
        r == strip(vertical, low, c0 as int, c1 as int, stop as int, along as int),
{
    let from: i32 = if low { 0 } else { stop };
    let to: i32 = if low { stop } else { along };
    if vertical {
        Rect { x0: c0, y0: from, x1: c1, y1: to }
    } else {
        Rect { x0: from, y0: c0, x1: to, y1: c1 }
    }
}

fn push_arm(rects: &mut Vec<Rect>, vertical: bool, low: bool, kind: u8, opposite: u8, a: u8, b: u8, across: &Strips, along: &Strips, Ghost(light): Ghost<int>)
    requires
        across.of(across.extent as int, light),
        along.of(along.extent as int, light),
    ensures
        final(rects)@ == old(rects)@ + arm(vertical, low, kind, opposite, a, b, across.extent as int, along.extent as int, light),
{
    let stop: i32 = stop_of(low, kind, opposite, a, b, along, Ghost(light));
    let flush: i32 = if low { along.light_lo } else { along.light_hi };
    if kind == LIGHT {
        rects.push(strip_rect(vertical, low, across.light_lo, across.light_hi, stop, along.extent));
    } else if kind == HEAVY {
        rects.push(strip_rect(vertical, low, across.heavy_lo, across.heavy_hi, stop, along.extent));
    } else if kind == DOUBLE {
        let first: i32 = if a == DOUBLE { flush } else { stop };
        let second: i32 = if b == DOUBLE { flush } else { stop };
        rects.push(strip_rect(vertical, low, across.double_lo, across.light_lo, first, along.extent));
        rects.push(strip_rect(vertical, low, across.light_hi, across.double_hi, second, along.extent));
    }
    assert(rects@ == old(rects)@ + arm(vertical, low, kind, opposite, a, b, across.extent as int, along.extent as int, light));
}

/// One codepoint of intersecting lines; each arm runs from its edge to a stop
/// chosen so joints meet flush, doubles leaving a gap for arms that pass
/// through.
pub fn lines_char(w: i32, h: i32, light: i32, spec: u8) -> (rects: Vec<Rect>)
    requires
        drawable(w, h, light),
    ensures
        rects@ == line_rects(w as int, h as int, light as int, spec),
{
    let up: u8 = spec % 4;
    let right: u8 = spec / 4 % 4;
    let down: u8 = spec / 16 % 4;
    let left: u8 = spec / 64 % 4;
    let xs = strips(w, light);
    let ys = strips(h, light);
    let mut rects: Vec<Rect> = Vec::new();
    push_arm(&mut rects, true, true, up, down, left, right, &xs, &ys, Ghost(light as int));
    push_arm(&mut rects, false, false, right, left, up, down, &ys, &xs, Ghost(light as int));
    push_arm(&mut rects, true, false, down, up, left, right, &xs, &ys, Ghost(light as int));
    push_arm(&mut rects, false, true, left, right, up, down, &ys, &xs, Ghost(light as int));
    assert(rects@ == line_rects(w as int, h as int, light as int, spec));
    rects
}

proof fn arm_bounds(vertical: bool, low: bool, kind: u8, opposite: u8, a: u8, b: u8, across: int, along: int, light: int, i: int)
    requires
        0 <= across <= i32::MAX,
        0 <= along <= i32::MAX,
        1 <= light <= i32::MAX / 4,
        0 <= i < arm(vertical, low, kind, opposite, a, b, across, along, light).len(),
    ensures
        ({
            let r = arm(vertical, low, kind, opposite, a, b, across, along, light)[i];
            let (w, h) = if vertical { (across, along) } else { (along, across) };
            &&& r.x0 >= 0
            &&& r.y0 >= 0
            &&& 3 * light <= across && 3 * light <= along ==> r.inside(w, h)
        }),
{
}

/// Which arm the i-th strip of a codepoint belongs to.
proof fn locate(w: int, h: int, light: int, spec: u8, i: int)
    requires
        0 <= w <= i32::MAX,
        0 <= h <= i32::MAX,
        1 <= light <= i32::MAX / 4,
        0 <= i < line_rects(w, h, light, spec).len(),
    ensures
        ({
            let r = line_rects(w, h, light, spec)[i];
            &&& r.x0 >= 0
            &&& r.y0 >= 0
            &&& 3 * light <= w && 3 * light <= h ==> r.inside(w, h)
        }),
{
    let (up, right, down, left) = (up_of(spec), right_of(spec), down_of(spec), left_of(spec));
    let a1 = arm(true, true, up, down, left, right, w, h, light);
    let a2 = arm(false, false, right, left, up, down, h, w, light);
    let a3 = arm(true, false, down, up, left, right, w, h, light);
    let n1 = a1.len() as int;
    let n2 = n1 + a2.len();
    let n3 = n2 + a3.len();
    if i < n1 {
        arm_bounds(true, true, up, down, left, right, w, h, light, i);
    } else if i < n2 {
        arm_bounds(false, false, right, left, up, down, h, w, light, i - n1);
    } else if i < n3 {
        arm_bounds(true, false, down, up, left, right, w, h, light, i - n2);
    } else {
        arm_bounds(false, true, left, right, up, down, h, w, light, i - n3);
    }
}

/// A stroke that fits three times into the cell keeps every strip inside the
/// cell, and no strip is inverted.
pub proof fn lines_stay_inside(w: i32, h: i32, light: i32, spec: u8, i: int)
    requires
        drawable(w, h, light),
        3 * light <= w,
        3 * light <= h,
        0 <= i < line_rects(w as int, h as int, light as int, spec).len(),
    ensures
        line_rects(w as int, h as int, light as int, spec)[i].inside(w as int, h as int),
{
    locate(w as int, h as int, light as int, spec, i);
}

/// However thick the stroke, no strip starts above or left of the cell.
pub proof fn lines_start_inside(w: i32, h: i32, light: i32, spec: u8, i: int)
    requires
        drawable(w, h, light),
        0 <= i < line_rects(w as int, h as int, light as int, spec).len(),
    ensures
        line_rects(w as int, h as int, light as int, spec)[i].x0 >= 0,
        line_rects(w as int, h as int, light as int, spec)[i].y0 >= 0,
{
    locate(w as int, h as int, light as int, spec, i);
}

/// The strips of an arm meet those of the facing arm of the neighboring cell:
/// a down arm and the up arm of the same kind in the cell below have the same
/// strips across, the first reaching the bottom edge and the second starting
/// at the top edge. The same holds of right and left arms.
pub proof fn facing_arms_meet(vertical: bool, kind: u8, o1: u8, a1: u8, b1: u8, o2: u8, a2: u8, b2: u8, across: int, along: int, light: int)
    requires
        0 <= across <= i32::MAX,
        0 <= along <= i32::MAX,
        1 <= light <= i32::MAX / 4,
    ensures
        ({
            let out = arm(vertical, false, kind, o1, a1, b1, across, along, light);
            let into = arm(vertical, true, kind, o2, a2, b2, across, along, light);
            &&& out.len() == into.len()
            &&& forall|i: int| 0 <= i < out.len() ==> if vertical {
                &&& (#[trigger] out[i]).x0 == into[i].x0
                &&& out[i].x1 == into[i].x1
                &&& out[i].y1 == along
                &&& into[i].y0 == 0
            } else {
                &&& out[i].y0 == into[i].y0
                &&& out[i].y1 == into[i].y1
                &&& out[i].x1 == along
                &&& into[i].x0 == 0
            }
        }),
{
}

/// The lines with their right and left arms swapped.
pub open spec fn mirrored(spec: u8) -> u8 {
    (up_of(spec) + 4 * left_of(spec) + 16 * down_of(spec) + 64 * right_of(spec)) as u8
}

/// A rectangle seen in a mirror that stands beside a cell of this width.
pub open spec fn mirror(r: Rect, w: int) -> Rect {
    rect(w - r.x1, r.y0 as int, w - r.x0, r.y1 as int)
}

/// The strokes that the vertical arms and the ends of the horizontal ones
/// depend on lie in the middle of the cell's width: as much is left beside a
/// stroke on one side as on the other.
pub open spec fn balanced(w: int, light: int, spec: u8) -> bool {
    let (up, down) = (up_of(spec), down_of(spec));
    let heavy = up == HEAVY || down == HEAVY;
    let double = up == DOUBLE || down == DOUBLE;
    let light_used = double || up == LIGHT || down == LIGHT || (!heavy && (right_of(spec) != NONE || left_of(spec) != NONE));
    &&& heavy ==> w >= 2 * light && w % 2 == 0
    &&& light_used ==> w >= light && (w - light) % 2 == 0
    &&& double ==> w >= 3 * light
}

proof fn mirrored_fields(spec: u8)
    ensures
        up_of(mirrored(spec)) == up_of(spec),
        right_of(mirrored(spec)) == left_of(spec),
        down_of(mirrored(spec)) == down_of(spec),
        left_of(mirrored(spec)) == right_of(spec),
        mirrored(mirrored(spec)) == spec,
{
    let (u, r, d, l) = (up_of(spec) as int, right_of(spec) as int, down_of(spec) as int, left_of(spec) as int);
    let m = u + 4 * l + 16 * d + 64 * r;
    assert(0 <= u < 4 && 0 <= r < 4 && 0 <= d < 4 && 0 <= l < 4);
    assert(mirrored(spec) == m);
    assert(m % 4 == u && m / 4 % 4 == l && m / 16 % 4 == d && m / 64 % 4 == r);
    assert(spec == u + 4 * r + 16 * d + 64 * l);
}

/// A vertical arm seen in a mirror has its crossing arms swapped.
proof fn mirrored_vertical(low: bool, kind: u8, opposite: u8, a: u8, b: u8, w: int, h: int, light: int, i: int)
    requires
        0 <= w <= i32::MAX / 2,
        0 <= h <= i32::MAX / 2,
        1 <= light <= i32::MAX / 4,
        0 <= i < arm(true, low, kind, opposite, a, b, w, h, light).len(),
        kind == HEAVY ==> w >= 2 * light && w % 2 == 0,
        kind == LIGHT ==> w >= light && (w - light) % 2 == 0,
        kind == DOUBLE ==> w >= 3 * light && (w - light) % 2 == 0,
    ensures
        arm(true, low, kind, opposite, b, a, w, h, light).contains(mirror(arm(true, low, kind, opposite, a, b, w, h, light)[i], w)),
        arm(true, low, kind, opposite, a, b, w, h, light)[i].x1 >= 0,
{
    let these = arm(true, low, kind, opposite, a, b, w, h, light);
    let those = arm(true, low, kind, opposite, b, a, w, h, light);
    middle_of(w, light);
    assert(arm_stop(low, kind, opposite, a, b, h, light) == arm_stop(low, kind, opposite, b, a, h, light));
    if kind == DOUBLE {
        assert(mirror(these[i], w) == those[1 - i]);
    } else {
        assert(mirror(these[i], w) == those[i]);
    }
}

/// A right arm seen in a mirror is the left arm of the same kind, and a left
/// arm the right one.
proof fn mirrored_horizontal(low: bool, kind: u8, opposite: u8, a: u8, b: u8, w: int, h: int, light: int, i: int)
    requires
        0 <= w <= i32::MAX / 2,
        0 <= h <= i32::MAX / 2,
        1 <= light <= i32::MAX / 4,
        0 <= i < arm(false, low, kind, opposite, a, b, h, w, light).len(),
        a == HEAVY || b == HEAVY ==> w >= 2 * light && w % 2 == 0,
        a == DOUBLE || b == DOUBLE ==> w >= 3 * light,
        a == DOUBLE || b == DOUBLE || !(a == HEAVY || b == HEAVY) ==> w >= light && (w - light) % 2 == 0,
    ensures
        arm(false, !low, kind, opposite, a, b, h, w, light).contains(mirror(arm(false, low, kind, opposite, a, b, h, w, light)[i], w)),
        arm(false, low, kind, opposite, a, b, h, w, light)[i].x1 >= 0,
{
    let these = arm(false, low, kind, opposite, a, b, h, w, light);
    let those = arm(false, !low, kind, opposite, a, b, h, w, light);
    middle_of(w, light);
    let stop = arm_stop(low, kind, opposite, a, b, w, light);
    assert(arm_stop(!low, kind, opposite, a, b, w, light) == w - stop);
    let stop_i = if (i == 0 && a == DOUBLE || i == 1 && b == DOUBLE) && kind == DOUBLE {
        if low { light_lo(w, light) } else { light_hi(w, light) }
    } else {
        stop
    };
    let (c0, c1) = if kind == LIGHT {
        (light_lo(h, light), light_hi(h, light))
    } else if kind == HEAVY {
        (heavy_lo(h, light), heavy_hi(h, light))
    } else if i == 0 {
        (double_lo(h, light), light_lo(h, light))
    } else {
        (light_hi(h, light), double_hi(h, light))
    };
    assert(these[i] == strip(false, low, c0, c1, stop_i, w));
    assert(those[i] == strip(false, !low, c0, c1, w - stop_i, w));
    mirrored_strip(low, c0, c1, stop_i, w);
}

/// Strokes of each kind lie in the middle of an extent that they fit evenly.
proof fn middle_of(extent: int, light: int)
    requires
        1 <= light,
        0 <= extent,
    ensures
        extent >= light && (extent - light) % 2 == 0 ==> light_lo(extent, light) == extent - light_hi(extent, light),
        extent >= 2 * light && extent % 2 == 0 ==> heavy_lo(extent, light) == extent - heavy_hi(extent, light),
        extent >= 3 * light && (extent - light) % 2 == 0 ==> double_lo(extent, light) == extent - double_hi(extent, light),
        0 <= light_lo(extent, light),
        0 <= heavy_lo(extent, light),
        0 <= double_lo(extent, light),
        light_hi(extent, light) <= extent + light,
        heavy_hi(extent, light) <= extent + 2 * light,
        double_hi(extent, light) <= extent + 2 * light,
{
}

proof fn mirrored_strip(low: bool, c0: int, c1: int, stop: int, w: int)
    requires
        0 <= stop <= i32::MAX,
        0 <= w - stop <= i32::MAX,
        0 <= w <= i32::MAX,
    ensures
        mirror(strip(false, low, c0, c1, stop, w), w) == strip(false, !low, c0, c1, w - stop, w),
        strip(false, low, c0, c1, stop, w).x1 >= 0,
{
}

/// Every strip seen in a mirror is one of the mirrored lines.
proof fn mirrored_among(w: int, h: int, light: int, spec: u8, i: int)
    requires
        0 <= w <= i32::MAX / 2,
        0 <= h <= i32::MAX / 2,
        1 <= light <= i32::MAX / 4,
        balanced(w, light, spec),
        0 <= i < line_rects(w, h, light, spec).len(),
    ensures
        line_rects(w, h, light, mirrored(spec)).contains(mirror(line_rects(w, h, light, spec)[i], w)),
        line_rects(w, h, light, spec)[i].x1 >= 0,
{
    mirrored_fields(spec);
    let (up, right, down, left) = (up_of(spec), right_of(spec), down_of(spec), left_of(spec));
    let a1 = arm(true, true, up, down, left, right, w, h, light);
    let a2 = arm(false, false, right, left, up, down, h, w, light);
    let a3 = arm(true, false, down, up, left, right, w, h, light);
    let a4 = arm(false, true, left, right, up, down, h, w, light);
    let b1 = arm(true, true, up, down, right, left, w, h, light);
    let b2 = arm(false, false, left, right, up, down, h, w, light);
    let b3 = arm(true, false, down, up, right, left, w, h, light);
    let b4 = arm(false, true, right, left, up, down, h, w, light);
    let all = line_rects(w, h, light, mirrored(spec));
    assert(all == b1 + b2 + b3 + b4);
    let r = line_rects(w, h, light, spec)[i];
    let m = mirror(r, w);
    let n1 = a1.len() as int;
    let n2 = n1 + a2.len();
    let n3 = n2 + a3.len();
    if i < n1 {
        mirrored_vertical(true, up, down, left, right, w, h, light, i);
        let j = choose|j: int| 0 <= j < b1.len() && b1[j] == m;
        assert(all[j] == m);
    } else if i < n2 {
        mirrored_horizontal(false, right, left, up, down, w, h, light, i - n1);
        let j = choose|j: int| 0 <= j < b4.len() && b4[j] == m;
        assert(all[b1.len() + b2.len() + b3.len() + j] == m);
    } else if i < n3 {
        mirrored_vertical(false, down, up, left, right, w, h, light, i - n2);
        let j = choose|j: int| 0 <= j < b3.len() && b3[j] == m;
        assert(all[b1.len() + b2.len() + j] == m);
    } else {
        mirrored_horizontal(true, left, right, up, down, w, h, light, i - n3);
        let j = choose|j: int| 0 <= j < b2.len() && b2[j] == m;
        assert(all[b1.len() + j] == m);
    }
}

/// Swapping the right and left arms mirrors the strips of a codepoint, where
/// its strokes can lie in the middle of the cell's width. That is so of every
/// codepoint where width and stroke are even and the stroke fits three times.
pub proof fn swapped_arms_mirror_the_lines(w: i32, h: i32, light: i32, spec: u8)
    requires
        drawable(w, h, light),
        balanced(w as int, light as int, spec) || (w % 2 == 0 && light % 2 == 0 && 3 * light <= w),
    ensures
        line_rects(w as int, h as int, light as int, mirrored(spec)).to_set()
            == line_rects(w as int, h as int, light as int, spec).map_values(|r: Rect| mirror(r, w as int)).to_set(),
{
    let (iw, ih, il) = (w as int, h as int, light as int);
    mirrored_fields(spec);
    assert(balanced(iw, il, spec));
    assert(balanced(iw, il, mirrored(spec)));
    let these = line_rects(iw, ih, il, spec);
    let those = line_rects(iw, ih, il, mirrored(spec));
    assert forall|i: int| 0 <= i < these.len() implies those.contains(#[trigger] mirror(these[i], iw)) by {
        mirrored_among(iw, ih, il, spec, i);
    }
    assert forall|i: int| 0 <= i < those.len() implies these.contains(mirror(#[trigger] those[i], iw)) && mirror(
        mirror(those[i], iw),
        iw,
    ) == those[i] by {
        mirrored_among(iw, ih, il, mirrored(spec), i);
        locate(iw, ih, il, mirrored(spec), i);
    }
    same_when_mirrored(these, those, iw);
}

proof fn same_when_mirrored(these: Seq<Rect>, those: Seq<Rect>, w: int)
    requires
        forall|i: int| 0 <= i < these.len() ==> those.contains(#[trigger] mirror(these[i], w)),
        forall|i: int|
            0 <= i < those.len() ==> these.contains(mirror(#[trigger] those[i], w)) && mirror(mirror(those[i], w), w) == those[i],
    ensures
        those.to_set() == these.map_values(|r: Rect| mirror(r, w)).to_set(),
{
    let seen = these.map_values(|r: Rect| mirror(r, w));
    assert forall|r: Rect| those.contains(r) <==> seen.contains(r) by {
        if seen.contains(r) {
            let i = choose|i: int| 0 <= i < seen.len() && seen[i] == r;
            assert(r == mirror(these[i], w));
        }
        if those.contains(r) {
            let i = choose|i: int| 0 <= i < those.len() && those[i] == r;
            let j = choose|j: int| 0 <= j < these.len() && these[j] == mirror(those[i], w);
            assert(seen[j] == r);
        }
    }
    assert(those.to_set() =~= seen.to_set());
}

// ---------------------------------------------------------------------------
// Box drawing: dashes
// ---------------------------------------------------------------------------

/// Half of a difference, rounded toward zero.
pub open spec fn half_toward_zero(v: int) -> int {
    if v >= 0 {
        v / 2
    } else {
        -(-v / 2)
    }
}

/// The gap between dashes, narrowed so that dashes are no shorter than gaps.
pub open spec fn dash_gap(dim: int, count: int, gap: int) -> int {
    min_int(gap, dim / (2 * count))
}

/// Pixels left for dashes once every dash has its gap.
pub open spec fn dash_total(dim: int, count: int, gap: int) -> int {
    dim - count * dash_gap(dim, count, gap)
}

/// Horizontal patterns put half a gap in front, vertical ones none.
pub open spec fn dash_lead(dim: int, count: int, gap: int, vertical: bool) -> int {
    if vertical {
        0
    } else {
        dash_gap(dim, count, gap) / 2
    }
}

/// Start of the i-th dash: dashes share the total evenly, and the first ones
/// take a leftover pixel each.
pub open spec fn dash_start(dim: int, count: int, gap: int, vertical: bool, i: int) -> int {
    let total = dash_total(dim, count, gap);
    dash_lead(dim, count, gap, vertical) + i * (total / count + dash_gap(dim, count, gap)) + min_int(i, total % count)
}

pub open spec fn dash_end(dim: int, count: int, gap: int, vertical: bool, i: int) -> int {
    let total = dash_total(dim, count, gap);
    dash_start(dim, count, gap, vertical, i) + total / count + (if i < total % count { 1int } else { 0 })
}

/// One segment of a dashed line, centered across the cell.
pub open spec fn dash_segment(cross: int, thick: int, vertical: bool, from: int, to: int) -> Rect {
    let mid = half_toward_zero(cross - thick);
    if vertical {
        rect(mid, from, mid + thick, to)
    } else {
        rect(from, mid, to, mid + thick)
    }
}

/// The dashes of a pattern, or one solid line where the cell has no room for
/// a pixel of dash and a pixel of gap each.
pub open spec fn dash_rects(w: int, h: int, count: int, thick: int, gap: int, vertical: bool) -> Seq<Rect> {
    let (dim, cross) = if vertical { (h, w) } else { (w, h) };
    if dim < 2 * count {
        seq![dash_segment(cross, thick, vertical, 0, dim)]
    } else {
        Seq::new(
            count as nat,
            |i: int| dash_segment(cross, thick, vertical, dash_start(dim, count, gap, vertical, i), dash_end(dim, count, gap, vertical, i)),
        )
    }
}

proof fn dash_facts(dim: int, count: int, gap: int)
    requires
        count >= 1,
        gap >= 0,
        dim >= 2 * count,
    ensures
        0 <= dash_gap(dim, count, gap),
        count * dash_gap(dim, count, gap) <= dim / 2,
        dim / 2 <= dash_total(dim, count, gap) <= dim,
        count <= dash_total(dim, count, gap),
        dash_gap(dim, count, gap) <= dash_total(dim, count, gap) / count,
        1 <= dash_total(dim, count, gap) / count,
        0 <= dash_total(dim, count, gap) % count < count,
        dash_total(dim, count, gap) == count * (dash_total(dim, count, gap) / count) + dash_total(dim, count, gap) % count,
{
    let q = dim / (2 * count);
    let g = dash_gap(dim, count, gap);
    let total = dash_total(dim, count, gap);
    assert(q >= 1 && 2 * (count * q) <= dim) by (nonlinear_arith)
        requires
            count >= 1,
            dim >= 2 * count,
            q == dim / (2 * count),
    ;
    assert(count * g <= count * q) by (nonlinear_arith)
        requires
            count >= 1,
            g <= q,
    ;
    assert(count * g >= 0) by (nonlinear_arith)
        requires
            count >= 1,
            g >= 0,
    ;
    assert(total == count * (total / count) + total % count && 0 <= total % count < count) by (nonlinear_arith)
        requires
            count >= 1,
    ;
    assert(g <= total / count && 1 <= total / count) by (nonlinear_arith)
        requires
            count >= 1,
            total >= count * g,
            total >= count,
    ;
}

/// Dashes sized so the pattern tiles seamlessly cell to cell: one gap per
/// dash, half gaps at the sides horizontally, a full trailing gap vertically;
/// leftover pixels widen dashes, not gaps.
pub fn dash(w: i32, h: i32, count: i32, thick: i32, gap: i32, vertical: bool) -> (rects: Vec<Rect>)
    requires
        0 <= w <= i32::MAX / 2,
        0 <= h <= i32::MAX / 2,
        1 <= count <= i32::MAX / 2,
        1 <= thick <= i32::MAX / 2,
        0 <= gap,
    ensures
        rects@ == dash_rects(w as int, h as int, count as int, thick as int, gap as int, vertical),
{
    let dim: i32 = if vertical { h } else { w };
    let cross: i32 = if vertical { w } else { h };
    let mid: i32 = (cross - thick) / 2;
    let mut rects: Vec<Rect> = Vec::new();
    if dim < 2 * count {
        // No room for the pattern; solid line instead.
        rects.push(if vertical {
            Rect { x0: mid, y0: 0, x1: mid + thick, y1: dim }
        } else {
            Rect { x0: 0, y0: mid, x1: dim, y1: mid + thick }
        });
        assert(rects@ == dash_rects(w as int, h as int, count as int, thick as int, gap as int, vertical));
        return rects;
    }
    proof {
        dash_facts(dim as int, count as int, gap as int);
    }
    let narrowed: i32 = gap.min(dim / (2 * count));
    assert(narrowed == dash_gap(dim as int, count as int, gap as int));
    assert(0 <= count * narrowed <= dim) by (nonlinear_arith)
        requires
            count >= 1,
            narrowed >= 0,
            count * narrowed <= dim / 2,
            dim >= 0,
    ;
    let total: i32 = dim - count * narrowed;
    let len: i32 = total / count;
    let mut extra: i32 = total % count;
    let mut pos: i32 = if vertical { 0 } else { narrowed / 2 };
    let mut i: i32 = 0;
    let ghost step = len + narrowed;
    let ghost rest = total as int % count as int;
    proof {
        assert(0 * step == 0) by (nonlinear_arith);
        dash_tiles(dim as int, count as int, gap as int, vertical);
    }
    while i < count
        invariant
            0 <= i <= count,
            1 <= count <= i32::MAX / 2,
            2 * count <= dim <= i32::MAX / 2,
            gap >= 0,
            len >= 1,
            narrowed >= 0,
            dim == (if vertical { h } else { w }),
            cross == (if vertical { w } else { h }),
            1 <= thick <= i32::MAX / 2,
            cross >= 0,
            mid == half_toward_zero(cross - thick),
            narrowed == dash_gap(dim as int, count as int, gap as int),
            total == dash_total(dim as int, count as int, gap as int),
            len == total as int / count as int,
            rest == total as int % count as int,
            0 <= rest < count,
            step == len + narrowed,
            extra == max0(rest - i),
            pos == dash_start(dim as int, count as int, gap as int, vertical, i as int),
            dash_start(dim as int, count as int, gap as int, vertical, count as int) == dim + dash_lead(dim as int, count as int, gap as int, vertical),
            dash_lead(dim as int, count as int, gap as int, vertical) <= narrowed / 2,
            narrowed <= dim / 2,
            rects@.len() == i,
            forall|k: int|
                0 <= k < i ==> (#[trigger] rects@[k]) == dash_segment(
                    cross as int,
                    thick as int,
                    vertical,
                    dash_start(dim as int, count as int, gap as int, vertical, k),
                    dash_end(dim as int, count as int, gap as int, vertical, k),
                ),
        decreases count - i,
    {
        proof {
            assert((i + 1) * step == i * step + step) by (nonlinear_arith);
            assert(i * step >= 0) by (nonlinear_arith)
                requires
                    i >= 0,
                    step >= 0,
            ;
            assert((i + 1) * step + (count - i - 1) * step == count * step) by (nonlinear_arith)
                requires
                    i < count,
            ;
            assert((count - i - 1) * step >= 0) by (nonlinear_arith)
                requires
                    i < count,
                    step >= 0,
            ;
        }
        let mut end: i32 = pos + len;
        if extra > 0 {
            extra = extra - 1;
            end = end + 1;
        }
        rects.push(if vertical {
            Rect { x0: mid, y0: pos, x1: mid + thick, y1: end }
        } else {
            Rect { x0: pos, y0: mid, x1: end, y1: mid + thick }
        });
        pos = end + narrowed;
        i = i + 1;
    }
    assert(rects@ == dash_rects(w as int, h as int, count as int, thick as int, gap as int, vertical));
    rects
}

/// The pattern tiles: after its last gap a cell's pattern is exactly one cell
/// further than where it began, so the next cell continues it.
pub proof fn dash_tiles(dim: int, count: int, gap: int, vertical: bool)
    requires
        count >= 1,
        gap >= 0,
        dim >= 2 * count,
    ensures
        dash_end(dim, count, gap, vertical, count - 1) + dash_gap(dim, count, gap) == dim + dash_lead(dim, count, gap, vertical),
        dash_start(dim, count, gap, vertical, count) == dim + dash_lead(dim, count, gap, vertical),
{
    dash_facts(dim, count, gap);
    let g = dash_gap(dim, count, gap);
    let q = dash_total(dim, count, gap) / count;
    assert(count * (q + g) == count * q + count * g) by (nonlinear_arith);
    assert((count - 1) * (q + g) == count * (q + g) - (q + g)) by (nonlinear_arith);
}

/// Consecutive dashes are one gap apart, and dashes differ in length by at
/// most one pixel, the longer ones first.
pub proof fn dash_spacing(dim: int, count: int, gap: int, vertical: bool, i: int)
    requires
        count >= 1,
        gap >= 0,
        dim >= 2 * count,
        0 <= i < count,
    ensures
        dash_start(dim, count, gap, vertical, i + 1) == dash_end(dim, count, gap, vertical, i) + dash_gap(dim, count, gap),
        ({
            let len = dash_end(dim, count, gap, vertical, i) - dash_start(dim, count, gap, vertical, i);
            let shortest = dash_total(dim, count, gap) / count;
            1 <= shortest && (len == shortest + 1 <==> i < dash_total(dim, count, gap) % count) && (len == shortest || len == shortest + 1)
        }),
{
    dash_facts(dim, count, gap);
    let g = dash_gap(dim, count, gap);
    let q = dash_total(dim, count, gap) / count;
    assert((i + 1) * (q + g) == i * (q + g) + (q + g)) by (nonlinear_arith);
}

// ---------------------------------------------------------------------------
// Braille
// ---------------------------------------------------------------------------

/// Spare pixels of one axis once the dots are sized: first a margin where
/// there is none, then one pixel of spacing at each of the `gaps` gaps, then
/// one more pixel of margin. The margin, the spacing and what is left over.
pub open spec fn spend(left: int, margin: int, spacing: int, gaps: int) -> (int, int, int) {
    let (left, margin) = if left >= 2 && margin == 0 { (left - 2, 1) } else { (left, margin) };
    let (left, spacing) = if left >= gaps { (left - gaps, spacing + 1) } else { (left, spacing) };
    if left >= 2 {
        (margin + 1, spacing, left - 2)
    } else {
        (margin, spacing, left)
    }
}

/// Dot size, margins and spacings of the 2x4 braille grid in a cell.
pub struct BrailleGrid {
    pub dot: i32,
    pub x_margin: i32,
    pub y_margin: i32,
    pub x_spacing: i32,
    pub y_spacing: i32,
}

impl BrailleGrid {
    pub open spec fn column(self, col: int) -> int {
        self.x_margin + col * (self.dot + self.x_spacing)
    }

    pub open spec fn row(self, row: int) -> int {
        self.y_margin + row * (self.dot + self.y_spacing)
    }

    /// The square of the dot in this column and row.
    pub open spec fn square(self, col: int, row: int) -> Rect {
        rect(self.column(col), self.row(row), self.column(col) + self.dot, self.row(row) + self.dot)
    }

    /// The grid that a cell of this size gets. Dots start at a quarter of the
    /// width or an eighth of the height; spare pixels go to a first pixel of
    /// dot, then margins, then spacing, then one more pixel of dot.
    pub open spec fn of(w: int, h: int) -> BrailleGrid {
        let first = min_int(w / 4, h / 8);
        let x_left = w - 2 * (w / 4 / 2) - w / 4 - 2 * first;
        let y_left = h - 2 * (h / 8 / 2) - 3 * (h / 8) - 4 * first;
        let seeded = first == 0 && x_left >= 2 && y_left >= 4;
        let dot = if seeded { 1 } else { first };
        let x = spend(if seeded { x_left - 2 } else { x_left }, w / 4 / 2, w / 4, 1);
        let y = spend(if seeded { y_left - 4 } else { y_left }, h / 8 / 2, h / 8, 3);
        BrailleGrid {
            dot: (if x.2 >= 2 && y.2 >= 4 { dot + 1 } else { dot }) as i32,
            x_margin: x.0 as i32,
            y_margin: y.0 as i32,
            x_spacing: x.1 as i32,
            y_spacing: y.1 as i32,
        }
    }
}

/// Spend the spare pixels of one axis.
fn spend_pixels(left: i32, margin: i32, spacing: i32, gaps: i32) -> (r: (i32, i32, i32))
    requires
        0 <= left <= i32::MAX / 2,
        0 <= margin <= i32::MAX / 2,
        0 <= spacing <= i32::MAX / 2,
        1 <= gaps <= 3,
    ensures
        (r.0 as int, r.1 as int, r.2 as int) == spend(left as int, margin as int, spacing as int, gaps as int),
        r.2 >= 0,
        r.0 >= 0,
        r.1 >= 0,
        2 * r.0 + gaps * r.1 + r.2 == 2 * margin + gaps * spacing + left,
{
    let (mut left, mut margin, mut spacing) = (left, margin, spacing);
    if left >= 2 && margin == 0 {
        margin = 1;
        left = left - 2;
    }
    if left >= gaps {
        assert(gaps * (spacing + 1) == gaps * spacing + gaps) by (nonlinear_arith);
        spacing = spacing + 1;
        left = left - gaps;
    }
    if left >= 2 {
        margin = margin + 1;
        left = left - 2;
    }
    (margin, spacing, left)
}

/// Lay out the braille grid of a cell; dots stay visible at tiny cells.
pub fn braille_grid(w: i32, h: i32) -> (g: BrailleGrid)
    requires
        0 <= w <= i32::MAX / 2,
        0 <= h <= i32::MAX / 2,
    ensures
        g == BrailleGrid::of(w as int, h as int),
        0 <= g.dot,
        0 <= g.x_margin,
        0 <= g.y_margin,
        0 <= g.x_spacing,
        0 <= g.y_spacing,
        2 * g.x_margin + g.x_spacing + 2 * g.dot <= w,
        2 * g.y_margin + 3 * g.y_spacing + 4 * g.dot <= h,
{
    let mut dot: i32 = (w / 4).min(h / 8);
    let x_spacing: i32 = w / 4;
    let y_spacing: i32 = h / 8;
    let x_margin: i32 = x_spacing / 2;
    let y_margin: i32 = y_spacing / 2;
    let mut x_left: i32 = w - 2 * x_margin - x_spacing - 2 * dot;
    let mut y_left: i32 = h - 2 * y_margin - 3 * y_spacing - 4 * dot;
    if x_left >= 2 && y_left >= 4 && dot == 0 {
        dot = dot + 1;
        x_left = x_left - 2;
        y_left = y_left - 4;
    }
    let (x_margin, x_spacing, x_left) = spend_pixels(x_left, x_margin, x_spacing, 1);
    let (y_margin, y_spacing, y_left) = spend_pixels(y_left, y_margin, y_spacing, 3);
    if x_left >= 2 && y_left >= 4 {
        dot = dot + 1;
    }
    BrailleGrid { dot, x_margin, y_margin, x_spacing, y_spacing }
}

/// Codepoint bit to the column of the dot it controls.
pub const DOT_COLUMNS: [u8; 8] = [0, 0, 0, 1, 1, 1, 0, 1];

/// Codepoint bit to the row of the dot it controls.
pub const DOT_ROWS: [u8; 8] = [0, 1, 2, 0, 1, 2, 3, 3];

/// The squares of the set bits of `pattern`, whose lowest bit is number `bit`.
pub open spec fn braille_squares(g: BrailleGrid, pattern: int, bit: int) -> Seq<Rect>
    decreases 8 - bit,
{
    if bit < 0 || bit >= 8 {
        seq![]
    } else {
        let rest = braille_squares(g, pattern / 2, bit + 1);
        if pattern % 2 == 1 {
            seq![g.square(DOT_COLUMNS[bit] as int, DOT_ROWS[bit] as int)] + rest
        } else {
            rest
        }
    }
}

/// The dots of a braille codepoint in a cell.
pub open spec fn braille_rects(w: int, h: int, cp: int) -> Seq<Rect> {
    braille_squares(BrailleGrid::of(w, h), cp - 0x2800, 0)
}

/// Braille (U+2800..=U+28FF): a 2x4 grid of square dots encoded in the
/// codepoint bits.
pub fn draw_braille(w: i32, h: i32, cp: u32) -> (rects: Vec<Rect>)
    requires
        0 <= w <= i32::MAX / 2,
        0 <= h <= i32::MAX / 2,
        0x2800 <= cp <= 0x28ff,
    ensures
        rects@ == braille_rects(w as int, h as int, cp as int),
        forall|i: int| 0 <= i < rects@.len() ==> (#[trigger] rects@[i]).inside(w as int, h as int),
{
    let g = braille_grid(w, h);
    let mut rects: Vec<Rect> = Vec::new();
    let mut pattern: u32 = cp - 0x2800;
    let mut bit: usize = 0;
    while bit < 8
        invariant
            bit <= 8,
            0x2800 <= cp,
            0 <= w <= i32::MAX / 2,
            0 <= h <= i32::MAX / 2,
            0 <= g.dot,
            0 <= g.x_margin,
            0 <= g.y_margin,
            0 <= g.x_spacing,
            0 <= g.y_spacing,
            2 * g.x_margin + g.x_spacing + 2 * g.dot <= w,
            2 * g.y_margin + 3 * g.y_spacing + 4 * g.dot <= h,
            braille_squares(g, (cp - 0x2800) as int, 0) == rects@ + braille_squares(g, pattern as int, bit as int),
            forall|i: int| 0 <= i < rects@.len() ==> (#[trigger] rects@[i]).inside(w as int, h as int),
        decreases 8 - bit,
    {
        let ghost before = rects@;
        if pattern % 2 == 1 {
            let col: i32 = DOT_COLUMNS[bit] as i32;
            let row: i32 = DOT_ROWS[bit] as i32;
            assert(0 <= col <= 1 && 0 <= row <= 3) by {
                assert(bit == 0 || bit == 1 || bit == 2 || bit == 3 || bit == 4 || bit == 5 || bit == 6 || bit == 7);
            }
            assert(0 <= row * (g.dot + g.y_spacing) <= 3 * (g.dot + g.y_spacing)) by (nonlinear_arith)
                requires
                    0 <= row <= 3,
                    g.dot + g.y_spacing >= 0,
            ;
            assert(0 <= col * (g.dot + g.x_spacing) <= 1 * (g.dot + g.x_spacing)) by (nonlinear_arith)
                requires
                    0 <= col <= 1,
                    g.dot + g.x_spacing >= 0,
            ;
            let x: i32 = g.x_margin + col * (g.dot + g.x_spacing);
            let y: i32 = g.y_margin + row * (g.dot + g.y_spacing);
            rects.push(Rect { x0: x, y0: y, x1: x + g.dot, y1: y + g.dot });
        }
        pattern = pattern / 2;
        bit = bit + 1;
        assert(braille_squares(g, (cp - 0x2800) as int, 0) == rects@ + braille_squares(g, pattern as int, bit as int));
    }
    assert(braille_squares(g, pattern as int, 8) == Seq::<Rect>::empty());
    assert(rects@ == braille_squares(g, (cp - 0x2800) as int, 0));
    rects
}

/// Two different dots of a braille grid never overlap: their columns or their
/// rows are at least a dot apart.
pub proof fn braille_dots_disjoint(w: int, h: int, c1: int, r1: int, c2: int, r2: int)
    requires
        0 <= w <= i32::MAX / 2,
        0 <= h <= i32::MAX / 2,
        0 <= c1 <= 1,
        0 <= c2 <= 1,
        0 <= r1 <= 3,
        0 <= r2 <= 3,
        (c1, r1) != (c2, r2),
    ensures
        ({
            let g = BrailleGrid::of(w, h);
            &&& c1 < c2 ==> g.column(c1) + g.dot <= g.column(c2)
            &&& c2 < c1 ==> g.column(c2) + g.dot <= g.column(c1)
            &&& r1 < r2 ==> g.row(r1) + g.dot <= g.row(r2)
            &&& r2 < r1 ==> g.row(r2) + g.dot <= g.row(r1)
        }),
{
    let g = BrailleGrid::of(w, h);
    let s = g.dot + g.y_spacing;
    assert(r1 < r2 ==> r1 * s + s <= r2 * s) by (nonlinear_arith)
        requires
            s >= 0,
    ;
    assert(r2 < r1 ==> r2 * s + s <= r1 * s) by (nonlinear_arith)
        requires
            s >= 0,
    ;
    let t = g.dot + g.x_spacing;
    assert(0 * t == 0 && 1 * t == t) by (nonlinear_arith);
}

// ---------------------------------------------------------------------------
// Mosaic fills
// ---------------------------------------------------------------------------

/// A part of the cell, bounds counted in 24ths of the width and the height.
#[derive(Clone, Copy, Debug, PartialEq, Eq, Structural)]
pub struct Part {
    pub x0: u32,
    pub y0: u32,
    pub x1: u32,
    pub y1: u32,
}

pub open spec fn part(x0: int, y0: int, x1: int, y1: int) -> Part {
    Part { x0: x0 as u32, y0: y0 as u32, x1: x1 as u32, y1: y1 as u32 }
}

/// 24ths of a size in whole pixels, rounded to nearest, halves up.
pub open spec fn px(f: int, size: int) -> int {
    (2 * f * size + 24) / 48
}

pub open spec fn part_rect(p: Part, w: int, h: int) -> Rect {
    rect(px(p.x0 as int, w), px(p.y0 as int, h), px(p.x1 as int, w), px(p.y1 as int, h))
}

/// Quadrant bits tl=1, tr=2, bl=4, br=8, indexed from U+2596.
pub const QUADS: [u8; 10] = [4, 8, 1, 13, 9, 7, 11, 2, 6, 14];

/// Fill bits of a sextant, row by row. The encoding skips the patterns that
/// exist elsewhere (the left half and the right half).
pub open spec fn sextant_bits(index: int) -> int {
    index + index / 20 + 1
}

/// The filled parts of a grid of two columns and `rows` rows, numbered row by
/// row: those whose bit is set in `bits`, whose lowest bit is number `k`.
pub open spec fn grid_parts(bits: int, rows: int, k: int) -> Seq<Part>
    decreases 2 * rows - k,
{
    if k >= 2 * rows {
        seq![]
    } else {
        let rest = grid_parts(bits / 2, rows, k + 1);
        let tall = 24int / rows;
        if bits % 2 == 1 {
            seq![part(12 * (k % 2), tall * (k / 2), 12 * (k % 2) + 12, tall * (k / 2) + tall)] + rest
        } else {
            rest
        }
    }
}

/// Codepoints drawn as mosaic fills: Block Elements and the sextants of
/// Symbols for Legacy Computing.
pub open spec fn is_block(cp: int) -> bool {
    0x2580 <= cp <= 0x259f || 0x1fb00 <= cp <= 0x1fb3b
}

pub open spec fn block_parts(cp: int) -> Seq<Part> {
    if cp == 0x2580 {
        seq![part(0, 0, 24, 12)]
    } else if cp == 0x2594 {
        seq![part(0, 0, 24, 3)]
    } else if 0x2581 <= cp <= 0x2588 {
        // Lower blocks rising in eighths up to the full block.
        seq![part(0, 24 - 3 * (cp - 0x2580), 24, 24)]
    } else if 0x2589 <= cp <= 0x258f {
        // Left blocks shrinking in eighths.
        seq![part(0, 0, 3 * (0x2590 - cp), 24)]
    } else if cp == 0x2590 {
        seq![part(12, 0, 24, 24)]
    } else if cp == 0x2595 {
        seq![part(21, 0, 24, 24)]
    } else if 0x2591 <= cp <= 0x2593 {
        seq![part(0, 0, 24, 24)]
    } else if 0x2596 <= cp <= 0x259f {
        grid_parts(QUADS[cp - 0x2596] as int, 2, 0)
    } else {
        grid_parts(sextant_bits(cp - 0x1fb00), 3, 0)
    }
}

/// Opacity of the fill in 255ths: shades are 0x40, 0x80 and 0xC0.
pub open spec fn block_alpha(cp: int) -> int {
    if 0x2591 <= cp <= 0x2593 {
        64 * (cp - 0x2590)
    } else {
        255
    }
}

proof fn px_bounds(f: int, size: int)
    requires
        0 <= f <= 24,
        0 <= size,
    ensures
        0 <= 2 * f * size <= 48 * size,
        0 <= px(f, size) <= size,
{
    assert(0 <= 2 * f * size <= 48 * size) by (nonlinear_arith)
        requires
            0 <= f <= 24,
            0 <= size,
    ;
}

fn round_px(f: u32, size: i32) -> (r: i32)
    requires
        f <= 24,
        0 <= size,
    ensures
        r == px(f as int, size as int),
        0 <= r <= size,
{
    proof {
        px_bounds(f as int, size as int);
        assert(f as i64 * size as i64 == f * size);
        assert(2 * (f * size) == 2 * f * size) by (nonlinear_arith);
    }
    ((2 * (f as i64 * size as i64) + 24) / 48) as i32
}

/// The filled parts of a mosaic codepoint.
fn parts_of(cp: u32) -> (parts: Vec<Part>)
    requires
        is_block(cp as int),
    ensures
        parts@ == block_parts(cp as int),
        forall|i: int| 0 <= i < parts@.len() ==> (#[trigger] parts@[i]).x1 <= 24 && parts@[i].y1 <= 24 && parts@[i].x0 <= 24 && parts@[i].y0 <= 24,
{
    let mut parts: Vec<Part> = Vec::new();
    if cp == 0x2580 {
        parts.push(Part { x0: 0, y0: 0, x1: 24, y1: 12 });
    } else if cp == 0x2594 {
        parts.push(Part { x0: 0, y0: 0, x1: 24, y1: 3 });
    } else if 0x2581 <= cp && cp <= 0x2588 {
        parts.push(Part { x0: 0, y0: 24 - 3 * (cp - 0x2580), x1: 24, y1: 24 });
    } else if 0x2589 <= cp && cp <= 0x258f {
        parts.push(Part { x0: 0, y0: 0, x1: 3 * (0x2590 - cp), y1: 24 });
    } else if cp == 0x2590 {
        parts.push(Part { x0: 12, y0: 0, x1: 24, y1: 24 });
    } else if cp == 0x2595 {
        parts.push(Part { x0: 21, y0: 0, x1: 24, y1: 24 });
    } else if 0x2591 <= cp && cp <= 0x2593 {
        parts.push(Part { x0: 0, y0: 0, x1: 24, y1: 24 });
    } else {
        let quads = cp <= 0x259f;
        let rows: u32 = if quads { 2 } else { 3 };
        let tall: u32 = 24 / rows;
        let index: u32 = if quads { cp - 0x2596 } else { cp - 0x1fb00 };
        let mut bits: u32 = if quads { QUADS[index as usize] as u32 } else { index + index / 20 + 1 };
        let ghost all = bits as int;
        let mut k: u32 = 0;
        while k < 2 * rows
            invariant
                k <= 2 * rows,
                rows == 2 || rows == 3,
                tall == 24int / rows as int,
                grid_parts(all, rows as int, 0) == parts@ + grid_parts(bits as int, rows as int, k as int),
                forall|i: int| 0 <= i < parts@.len() ==> (#[trigger] parts@[i]).x1 <= 24 && parts@[i].y1 <= 24 && parts@[i].x0 <= 24 && parts@[i].y0 <= 24,
            decreases 2 * rows - k,
        {
            if bits % 2 == 1 {
                let x: u32 = 12 * (k % 2);
                assert(0 <= tall * (k / 2) <= 24 - tall) by (nonlinear_arith)
                    requires
                        (rows == 2 && tall == 12) || (rows == 3 && tall == 8),
                        k < 2 * rows,
                ;
                let y: u32 = tall * (k / 2);
                parts.push(Part { x0: x, y0: y, x1: x + 12, y1: y + tall });
            }
            bits = bits / 2;
            k = k + 1;
            assert(grid_parts(all, rows as int, 0) == parts@ + grid_parts(bits as int, rows as int, k as int));
        }
        assert(grid_parts(bits as int, rows as int, k as int) == Seq::<Part>::empty());
        assert(parts@ == block_parts(cp as int));
    }
    assert(parts@ == block_parts(cp as int));
    parts
}

/// Solid mosaic fills, all pure rectangles, boundaries rounded to whole
/// pixels so they tile exactly.
pub fn draw_block(w: i32, h: i32, cp: u32) -> (rects: Vec<Rect>)
    requires
        0 <= w,
        0 <= h,
        is_block(cp as int),
    ensures
        rects@ == block_parts(cp as int).map_values(|p: Part| part_rect(p, w as int, h as int)),
{
    let parts = parts_of(cp);
    let mut rects: Vec<Rect> = Vec::new();
    let mut i: usize = 0;
    while i < parts.len()
        invariant
            i <= parts@.len(),
            0 <= w,
            0 <= h,
            rects@ == parts@.take(i as int).map_values(|p: Part| part_rect(p, w as int, h as int)),
            forall|i: int| 0 <= i < parts@.len() ==> (#[trigger] parts@[i]).x1 <= 24 && parts@[i].y1 <= 24 && parts@[i].x0 <= 24 && parts@[i].y0 <= 24,
        decreases parts@.len() - i,
    {
        let p = parts[i];
        rects.push(Rect { x0: round_px(p.x0, w), y0: round_px(p.y0, h), x1: round_px(p.x1, w), y1: round_px(p.y1, h) });
        i = i + 1;
        assert(rects@ == parts@.take(i as int).map_values(|p: Part| part_rect(p, w as int, h as int)));
    }
    assert(parts@.take(i as int) == parts@);
    rects
}

/// Boundaries at the same fraction fall on the same pixel, the outer ones on
/// the cell's edges and the others in order: fills that meet in the cell
/// meet on the screen, without seam or overlap.
pub proof fn mosaic_tiles(f: int, g: int, size: int)
    requires
        0 <= f <= g <= 24,
        0 <= size,
    ensures
        px(0, size) == 0,
        px(24, size) == size,
        0 <= px(f, size) <= px(g, size) <= size,
{
    px_bounds(f, size);
    px_bounds(g, size);
    assert(2 * f * size <= 2 * g * size) by (nonlinear_arith)
        requires
            f <= g,
            0 <= size,
    ;
}

/// Sextants cover each pattern exactly once but the ones that exist
/// elsewhere: empty, left half, right half and full.
pub proof fn sextants_are_the_missing_patterns(bits: int)
    ensures
        (exists|index: int| 0 <= index < 60 && #[trigger] sextant_bits(index) == bits) <==> (0 < bits < 63 && bits != 0b010101 && bits != 0b101010),
        forall|i: int, j: int| 0 <= i < 60 && 0 <= j < 60 && i != j ==> #[trigger] sextant_bits(i) != #[trigger] sextant_bits(j),
{
    if 0 < bits < 63 && bits != 0b010101 && bits != 0b101010 {
        let index = if bits < 21 { bits - 1 } else if bits < 42 { bits - 2 } else { bits - 3 };
        assert(sextant_bits(index) == bits);
    }
}

/// Wherever two columns and four rows of pixels exist, every dot has at
/// least one pixel.
pub proof fn braille_dots_visible(w: int, h: int)
    requires
        2 <= w <= i32::MAX / 2,
        4 <= h <= i32::MAX / 2,
    ensures
        BrailleGrid::of(w, h).dot >= 1,
{
}

// ---------------------------------------------------------------------------
// Codepoint dispatch
// ---------------------------------------------------------------------------

/// A corner of a filled triangle, counted in halves of the cell's width and
/// height from its upper left.
#[derive(Clone, Copy, Debug, PartialEq, Eq, Structural)]
pub struct Corner {
    pub x: u8,
    pub y: u8,
}

/// One drawing instruction. Strokes have the light thickness.
#[derive(Clone, Copy, Debug, PartialEq, Eq, Structural)]
pub enum Shape {
    /// A rectangle at this fraction of the text's opacity, in 255ths.
    Fill { rect: Rect, alpha: u8 },
    /// A solid triangle.
    Triangle { a: Corner, b: Corner, c: Corner },
    /// A stroked quarter turn joining a side edge with the top or bottom one.
    Arc { right: bool, down: bool },
    /// A stroked line from corner to corner; `up` slants like a slash.
    Diagonal { up: bool },
    /// A stroked arrow head pointing right, or left when flipped.
    Chevron { flip: bool },
    /// A semicircle bulging right, or left when flipped.
    HalfDisc { flip: bool, fill: bool },
}

pub open spec fn fills(rects: Seq<Rect>, alpha: int) -> Seq<Shape> {
    rects.map_values(|rect: Rect| Shape::Fill { rect, alpha: alpha as u8 })
}

pub open spec fn triangle(ax: u8, ay: u8, bx: u8, by: u8, cx: u8, cy: u8) -> Seq<Shape> {
    seq![Shape::Triangle { a: Corner { x: ax, y: ay }, b: Corner { x: bx, y: by }, c: Corner { x: cx, y: cy } }]
}

/// Two bits per arm, up | right<<2 | down<<4 | left<<6, from U+2500 on. Zeros
/// are the codepoints drawn otherwise: dashes, arcs and diagonals.
pub const LINES: [u8; 128] = [
    68, 136, 17, 34, 0, 0, 0, 0,
    0, 0, 0, 0, 20, 24, 36, 40,
    80, 144, 96, 160, 5, 9, 6, 10,
    65, 129, 66, 130, 21, 25, 22, 37,
    38, 26, 41, 42, 81, 145, 82, 97,
    98, 146, 161, 162, 84, 148, 88, 152,
    100, 164, 104, 168, 69, 133, 73, 137,
    70, 134, 74, 138, 85, 149, 89, 153,
    86, 101, 102, 150, 90, 165, 105, 154,
    169, 166, 106, 170, 0, 0, 0, 0,
    204, 51, 28, 52, 60, 208, 112, 240,
    13, 7, 15, 193, 67, 195, 29, 55,
    63, 209, 115, 243, 220, 116, 252, 205,
    71, 207, 221, 119, 255, 0, 0, 0,
    0, 0, 0, 0, 64, 1, 4, 16,
    128, 2, 8, 32, 72, 33, 132, 18,
];

pub open spec fn is_dashed(cp: int) -> bool {
    0x2504 <= cp <= 0x250b || 0x254c <= cp <= 0x254f
}

pub open spec fn is_arc(cp: int) -> bool {
    0x256d <= cp <= 0x2570
}

pub open spec fn is_diagonal(cp: int) -> bool {
    0x2571 <= cp <= 0x2573
}

/// Dashes to a cell: three, four or two.
pub open spec fn dash_count(cp: int) -> int {
    if cp <= 0x2507 {
        3
    } else if cp <= 0x250b {
        4
    } else {
        2
    }
}

/// Dashed codepoints come in pairs of light and heavy, first horizontal and
/// then vertical.
pub open spec fn dash_heavy(cp: int) -> bool {
    cp % 2 == 1
}

pub open spec fn dash_vertical(cp: int) -> bool {
    cp / 2 % 2 == 1
}

/// The wished gap: at least four pixels in the finer patterns; in the double
/// dash as wide as the stroke, but twice a light vertical one.
pub open spec fn dash_wish(cp: int, light: int) -> int {
    if cp <= 0x250b {
        if light > 4 { light } else { 4 }
    } else if cp == 0x254c {
        light
    } else {
        2 * light
    }
}

/// Box Drawing, U+2500..=U+257F.
pub open spec fn box_shapes(w: int, h: int, light: int, cp: int) -> Seq<Shape> {
    if is_dashed(cp) {
        let thick = if dash_heavy(cp) { 2 * light } else { light };
        fills(dash_rects(w, h, dash_count(cp), thick, dash_wish(cp, light), dash_vertical(cp)), 255)
    } else if cp == 0x256d {
        seq![Shape::Arc { right: true, down: true }]
    } else if cp == 0x256e {
        seq![Shape::Arc { right: false, down: true }]
    } else if cp == 0x256f {
        seq![Shape::Arc { right: false, down: false }]
    } else if cp == 0x2570 {
        seq![Shape::Arc { right: true, down: false }]
    } else if cp == 0x2571 {
        seq![Shape::Diagonal { up: true }]
    } else if cp == 0x2572 {
        seq![Shape::Diagonal { up: false }]
    } else if cp == 0x2573 {
        seq![Shape::Diagonal { up: true }, Shape::Diagonal { up: false }]
    } else {
        fills(line_rects(w, h, light, LINES[cp - 0x2500]), 255)
    }
}

/// Powerline, U+E0B0..=U+E0BF: prompt segment glyphs that butt flush against
/// the neighboring cell.
pub open spec fn powerline_shapes(cp: int) -> Seq<Shape> {
    if cp == 0xe0b0 {
        triangle(0, 0, 2, 1, 0, 2)
    } else if cp == 0xe0b1 {
        seq![Shape::Chevron { flip: false }]
    } else if cp == 0xe0b2 {
        triangle(2, 0, 0, 1, 2, 2)
    } else if cp == 0xe0b3 {
        seq![Shape::Chevron { flip: true }]
    } else if cp == 0xe0b4 {
        seq![Shape::HalfDisc { flip: false, fill: true }]
    } else if cp == 0xe0b5 {
        seq![Shape::HalfDisc { flip: false, fill: false }]
    } else if cp == 0xe0b6 {
        seq![Shape::HalfDisc { flip: true, fill: true }]
    } else if cp == 0xe0b7 {
        seq![Shape::HalfDisc { flip: true, fill: false }]
    } else if cp == 0xe0b8 {
        triangle(0, 0, 2, 2, 0, 2)
    } else if cp == 0xe0b9 || cp == 0xe0bf {
        seq![Shape::Diagonal { up: false }]
    } else if cp == 0xe0ba {
        triangle(2, 0, 2, 2, 0, 2)
    } else if cp == 0xe0bb || cp == 0xe0bd {
        seq![Shape::Diagonal { up: true }]
    } else if cp == 0xe0bc {
        triangle(0, 0, 2, 0, 0, 2)
    } else {
        triangle(0, 0, 2, 0, 2, 2)
    }
}

/// Codepoints drawn as geometry.
pub open spec fn is_sprite(cp: int) -> bool {
    ||| 0x2500 <= cp <= 0x257f
    ||| is_block(cp)
    ||| 0x25e2 <= cp <= 0x25e5
    ||| 0x2800 <= cp <= 0x28ff
    ||| 0xe0b0 <= cp <= 0xe0bf
}

/// What a sprite codepoint looks like in a cell of this size.
pub open spec fn shapes(w: int, h: int, light: int, cp: int) -> Seq<Shape> {
    if 0x2500 <= cp <= 0x257f {
        box_shapes(w, h, light, cp)
    } else if is_block(cp) {
        fills(block_parts(cp).map_values(|p: Part| part_rect(p, w, h)), block_alpha(cp))
    } else if cp == 0x25e2 {
        triangle(2, 0, 2, 2, 0, 2)
    } else if cp == 0x25e3 {
        triangle(0, 0, 2, 2, 0, 2)
    } else if cp == 0x25e4 {
        triangle(0, 0, 2, 0, 0, 2)
    } else if cp == 0x25e5 {
        triangle(0, 0, 2, 0, 2, 2)
    } else if 0x2800 <= cp <= 0x28ff {
        fills(braille_rects(w, h, cp), 255)
    } else {
        powerline_shapes(cp)
    }
}

/// The light stroke: the font's underline thickness in whole pixels, at least
/// one.
pub open spec fn light_of(thick: int) -> int {
    if thick > 1 {
        thick
    } else {
        1
    }
}

fn filled(rects: Vec<Rect>, alpha: u8) -> (shapes: Vec<Shape>)
    ensures
        shapes@ == fills(rects@, alpha as int),
{
    let mut shapes: Vec<Shape> = Vec::new();
    let mut i: usize = 0;
    while i < rects.len()
        invariant
            i <= rects@.len(),
            shapes@ == fills(rects@.take(i as int), alpha as int),
        decreases rects@.len() - i,
    {
        shapes.push(Shape::Fill { rect: rects[i], alpha });
        i = i + 1;
        assert(shapes@ == fills(rects@.take(i as int), alpha as int));
    }
    assert(rects@.take(i as int) == rects@);
    shapes
}

fn triangle_of(ax: u8, ay: u8, bx: u8, by: u8, cx: u8, cy: u8) -> (shapes: Vec<Shape>)
    ensures
        shapes@ == triangle(ax, ay, bx, by, cx, cy),
{
    let mut shapes: Vec<Shape> = Vec::new();
    shapes.push(Shape::Triangle { a: Corner { x: ax, y: ay }, b: Corner { x: bx, y: by }, c: Corner { x: cx, y: cy } });
    assert(shapes@ == triangle(ax, ay, bx, by, cx, cy));
    shapes
}

fn single(shape: Shape) -> (shapes: Vec<Shape>)
    ensures
        shapes@ == seq![shape],
{
    let mut shapes: Vec<Shape> = Vec::new();
    shapes.push(shape);
    assert(shapes@ == seq![shape]);
    shapes
}

/// Lines from each cell edge to the center, plus dashed, arc and diagonal
/// specials.
pub fn draw_box(w: i32, h: i32, light: i32, cp: u32) -> (shapes: Vec<Shape>)
    requires
        drawable(w, h, light),
        0x2500 <= cp <= 0x257f,
    ensures
        shapes@ == box_shapes(w as int, h as int, light as int, cp as int),
{
    if (0x2504 <= cp && cp <= 0x250b) || (0x254c <= cp && cp <= 0x254f) {
        let heavy: i32 = light * 2;
        let count: i32 = if cp <= 0x2507 { 3 } else if cp <= 0x250b { 4 } else { 2 };
        let thick: i32 = if cp % 2 == 1 { heavy } else { light };
        let gap: i32 = if cp <= 0x250b { light.max(4) } else if cp == 0x254c { light } else { heavy };
        return filled(dash(w, h, count, thick, gap, cp / 2 % 2 == 1), 255);
    }
    if cp == 0x256d {
        return single(Shape::Arc { right: true, down: true });
    }
    if cp == 0x256e {
        return single(Shape::Arc { right: false, down: true });
    }
    if cp == 0x256f {
        return single(Shape::Arc { right: false, down: false });
    }
    if cp == 0x2570 {
        return single(Shape::Arc { right: true, down: false });
    }
    if cp == 0x2571 {
        return single(Shape::Diagonal { up: true });
    }
    if cp == 0x2572 {
        return single(Shape::Diagonal { up: false });
    }
    if cp == 0x2573 {
        let mut both = single(Shape::Diagonal { up: true });
        both.push(Shape::Diagonal { up: false });
        assert(both@ == seq![Shape::Diagonal { up: true }, Shape::Diagonal { up: false }]);
        return both;
    }
    filled(lines_char(w, h, light, LINES[(cp - 0x2500) as usize]), 255)
}

/// Prompt segment glyphs.
pub fn draw_powerline(cp: u32) -> (shapes: Vec<Shape>)
    requires
        0xe0b0 <= cp <= 0xe0bf,
    ensures
        shapes@ == powerline_shapes(cp as int),
{
    match cp {
        // Solid and outlined arrows pointing right/left.
        0xe0b0 => triangle_of(0, 0, 2, 1, 0, 2),
        0xe0b1 => single(Shape::Chevron { flip: false }),
        0xe0b2 => triangle_of(2, 0, 0, 1, 2, 2),
        0xe0b3 => single(Shape::Chevron { flip: true }),
        // Solid and outlined half-discs.
        0xe0b4 => single(Shape::HalfDisc { flip: false, fill: true }),
        0xe0b5 => single(Shape::HalfDisc { flip: false, fill: false }),
        0xe0b6 => single(Shape::HalfDisc { flip: true, fill: true }),
        0xe0b7 => single(Shape::HalfDisc { flip: true, fill: false }),
        // Solid and lined bottom/top corner triangles.
        0xe0b8 => triangle_of(0, 0, 2, 2, 0, 2),
        0xe0b9 | 0xe0bf => single(Shape::Diagonal { up: false }),
        0xe0ba => triangle_of(2, 0, 2, 2, 0, 2),
        0xe0bb | 0xe0bd => single(Shape::Diagonal { up: true }),
        0xe0bc => triangle_of(0, 0, 2, 0, 0, 2),
        _ => triangle_of(0, 0, 2, 0, 2, 2),
    }
}

/// The shapes of `cp` in a cell; `None` means it is not a sprite codepoint
/// and is rendered as a font glyph instead. `thick` is the base stroke width,
/// the font's underline thickness rounded to pixels.
pub fn draw(w: i32, h: i32, thick: i32, cp: u32) -> (shapes: Option<Vec<Shape>>)
    requires
        0 <= w <= i32::MAX / 2,
        0 <= h <= i32::MAX / 2,
        thick <= i32::MAX / 4,
    ensures
        shapes is Some <==> is_sprite(cp as int),
        shapes matches Some(list) ==> list@ == self::shapes(w as int, h as int, light_of(thick as int), cp as int),
{
    let light: i32 = thick.max(1);
    if 0x2500 <= cp && cp <= 0x257f {
        Some(draw_box(w, h, light, cp))
    } else if (0x2580 <= cp && cp <= 0x259f) || (0x1fb00 <= cp && cp <= 0x1fb3b) {
        // Shades: uniform alpha fills of 0x40/0x80/0xC0.
        let alpha: u8 = if 0x2591 <= cp && cp <= 0x2593 { ((cp - 0x2590) * 64) as u8 } else { 255 };
        Some(filled(draw_block(w, h, cp), alpha))
    } else if cp == 0x25e2 {
        Some(triangle_of(2, 0, 2, 2, 0, 2))
    } else if cp == 0x25e3 {
        Some(triangle_of(0, 0, 2, 2, 0, 2))
    } else if cp == 0x25e4 {
        Some(triangle_of(0, 0, 2, 0, 0, 2))
    } else if cp == 0x25e5 {
        Some(triangle_of(0, 0, 2, 0, 2, 2))
    } else if 0x2800 <= cp && cp <= 0x28ff {
        Some(filled(draw_braille(w, h, cp), 255))
    } else if 0xe0b0 <= cp && cp <= 0xe0bf {
        Some(draw_powerline(cp))
    } else {
        None
    }
}

/// A codepoint of Box Drawing has no arms in the table exactly where it is
/// drawn otherwise.
pub proof fn zero_lines_are_the_specials(cp: int)
    requires
        0x2500 <= cp <= 0x257f,
    ensures
        LINES[cp - 0x2500] == 0 <==> (is_dashed(cp) || is_arc(cp) || is_diagonal(cp)),
{
}

// ---------------------------------------------------------------------------
// Polygon outlines
// ---------------------------------------------------------------------------

/// Edges `from..to` of a polygon form a maximal run of edges off the cell
/// boundary.
pub open spec fn is_run(boundary: Seq<bool>, from: int, to: int) -> bool {
    &&& 0 <= from < to <= boundary.len()
    &&& forall|i: int| from <= i < to ==> !(#[trigger] boundary[i])
    &&& from == 0 || boundary[from - 1]
    &&& to == boundary.len() || boundary[to]
}

/// Runs stand in order and are as long as they can be.
pub open spec fn runs_are_maximal(boundary: Seq<bool>, runs: Seq<(usize, usize)>) -> bool {
    &&& forall|k: int| 0 <= k < runs.len() ==> is_run(boundary, (#[trigger] runs[k]).0 as int, runs[k].1 as int)
    &&& forall|j: int, k: int| 0 <= j < k < runs.len() ==> (#[trigger] runs[j]).1 < (#[trigger] runs[k]).0
}

/// Every place off the boundary is in a run.
pub open spec fn runs_hold_all(boundary: Seq<bool>, runs: Seq<(usize, usize)>) -> bool {
    forall|i: int|
        0 <= i < boundary.len() && !(#[trigger] boundary[i]) ==> exists|k: int| 0 <= k < runs.len() && (#[trigger] runs[k]).0 <= i < runs[k].1
}

/// Filled polygons have no antialiasing, so interior edges are feathered with
/// a thin outline; edges on the cell boundary stay crisp and keep butting
/// flush against neighbors. The maximal runs of edges to outline, in order:
/// a run `(from, to)` strokes the points `from..=to`, wrapping at the end.
pub fn outline_runs(boundary: &Vec<bool>) -> (runs: Vec<(usize, usize)>)
    ensures
        runs_are_maximal(boundary@, runs@),
        runs_hold_all(boundary@, runs@),
{
    let mut runs: Vec<(usize, usize)> = Vec::new();
    let mut start: usize = 0;
    let mut i: usize = 0;
    while i < boundary.len()
        invariant
            start <= i <= boundary@.len(),
            forall|n: int| start <= n < i ==> !(#[trigger] boundary@[n]),
            start == 0 || boundary@[start - 1],
            forall|k: int| 0 <= k < runs@.len() ==> is_run(boundary@, (#[trigger] runs@[k]).0 as int, runs@[k].1 as int),
            forall|k: int| 0 <= k < runs@.len() ==> (#[trigger] runs@[k]).1 < start,
            forall|j: int, k: int| 0 <= j < k < runs@.len() ==> (#[trigger] runs@[j]).1 < (#[trigger] runs@[k]).0,
            forall|n: int|
                0 <= n < start && !(#[trigger] boundary@[n]) ==> exists|k: int|
                    0 <= k < runs@.len() && (#[trigger] runs@[k]).0 <= n < runs@[k].1,
        decreases boundary@.len() - i,
    {
        if boundary[i] {
            let ghost before = runs@;
            if start < i {
                runs.push((start, i));
                assert(runs@[before.len() as int] == (start, i));
            }
            assert forall|n: int| 0 <= n < i + 1 && !(#[trigger] boundary@[n]) implies exists|k: int|
                0 <= k < runs@.len() && (#[trigger] runs@[k]).0 <= n < runs@[k].1 by {
                if n < start {
                    let k = choose|k: int| 0 <= k < before.len() && (#[trigger] before[k]).0 <= n < before[k].1;
                    assert(runs@[k] == before[k]);
                }
            }
            start = i + 1;
        }
        i = i + 1;
    }
    let ghost before = runs@;
    if start < i {
        runs.push((start, i));
        assert(runs@[before.len() as int] == (start, i));
    }
    assert forall|n: int| 0 <= n < boundary@.len() && !(#[trigger] boundary@[n]) implies exists|k: int|
        0 <= k < runs@.len() && (#[trigger] runs@[k]).0 <= n < runs@[k].1 by {
        if n < start {
            let k = choose|k: int| 0 <= k < before.len() && (#[trigger] before[k]).0 <= n < before[k].1;
            assert(runs@[k] == before[k]);
        }
    }
    runs
}

// ---------------------------------------------------------------------------
// What box lines look like
// ---------------------------------------------------------------------------

/// The width of the widest of two strokes, and of a light one where neither is
/// there: two light ones for a heavy stroke, three for a double one.
pub open spec fn widest(a: int, b: int, light: int) -> int {
    if a == 3 || b == 3 {
        3 * light
    } else if a == 2 || b == 2 {
        2 * light
    } else {
        light
    }
}

/// The four arms of a set of lines, two bits each: up, right, down and left.
pub open spec fn arm_kind(spec: u8, side: int) -> int {
    if side == 0 {
        spec as int % 4
    } else if side == 1 {
        spec as int / 4 % 4
    } else if side == 2 {
        spec as int / 16 % 4
    } else {
        spec as int / 64
    }
}

/// Strips that a kind of stroke is made of.
pub open spec fn strips_of(kind: int) -> int {
    if kind == 3 {
        2
    } else if kind == 0 {
        0
    } else {
        1
    }
}

/// The first strip of an arm among those of a codepoint.
pub open spec fn strips_before(spec: u8, side: int) -> int {
    if side <= 0 {
        0
    } else if side == 1 {
        strips_of(arm_kind(spec, 0))
    } else if side == 2 {
        strips_of(arm_kind(spec, 0)) + strips_of(arm_kind(spec, 1))
    } else if side == 3 {
        strips_of(arm_kind(spec, 0)) + strips_of(arm_kind(spec, 1)) + strips_of(arm_kind(spec, 2))
    } else {
        strips_of(arm_kind(spec, 0)) + strips_of(arm_kind(spec, 1)) + strips_of(arm_kind(spec, 2)) + strips_of(arm_kind(spec, 3))
    }
}

/// A strip keeps to its arm: from the arm's side up to the strokes at the
/// center, where `s` is the widest of those, and across on the arm's stroke.
/// `n` counts the lines of a double stroke.
spec fn keeps_to_its_arm(r: Rect, vertical: bool, low: bool, kind: int, s: int, through: bool, across: int, along: int, light: int, n: int) -> bool {
    let (from, to, c0, c1) = if vertical { (r.y0, r.y1, r.x0, r.x1) } else { (r.x0, r.x1, r.y0, r.y1) };
    &&& low ==> from == 0 && (along - light) / 2 <= to <= (along - s) / 2 + s
    &&& !low ==> to == along && (along - s) / 2 <= from <= (along - light) / 2 + light
    &&& kind == 1 ==> c0 == (across - light) / 2 && c1 == c0 + light
    &&& kind == 2 ==> c0 == (across - 2 * light) / 2 && c1 == c0 + 2 * light
    &&& kind == 3 ==> c0 == (across - 3 * light) / 2 + (if n == 0 { 0 } else { 2 * light }) && c1 == c0 + light
    &&& low && through && kind != 3 ==> to >= (along - light) / 2 + light
    &&& !low && through && kind != 3 ==> from <= (along - light) / 2
}

/// The edges of strokes that fit.
proof fn stroke_edges(extent: int, light: int)
    requires
        1 <= light,
        3 * light <= extent,
    ensures
        light_lo(extent, light) == (extent - light) / 2,
        light_hi(extent, light) == (extent - light) / 2 + light,
        heavy_lo(extent, light) == (extent - 2 * light) / 2,
        heavy_hi(extent, light) == (extent - 2 * light) / 2 + 2 * light,
        double_lo(extent, light) == (extent - 3 * light) / 2,
        double_hi(extent, light) == (extent - 3 * light) / 2 + 3 * light,
        0 <= (extent - 3 * light) / 2 <= (extent - 2 * light) / 2 <= (extent - light) / 2,
        (extent - light) / 2 + light <= (extent - 2 * light) / 2 + 2 * light <= (extent - 3 * light) / 2 + 3 * light <= extent,
{
}

proof fn stop_bounds(low: bool, kind: u8, opposite: u8, a: u8, b: u8, along: int, light: int)
    requires
        1 <= light,
        3 * light <= along,
    ensures
        ({
            let stop = arm_stop(low, kind, opposite, a, b, along, light);
            let s = widest(a as int, b as int, light);
            &&& low ==> (along - light) / 2 <= stop <= (along - s) / 2 + s
            &&& !low ==> (along - s) / 2 <= stop <= (along - light) / 2 + light
            &&& low && kind == opposite ==> stop >= (along - light) / 2 + light
            &&& !low && kind == opposite ==> stop <= (along - light) / 2
        }),
{
    stroke_edges(along, light);
}

proof fn strip_keeps(vertical: bool, low: bool, kind: int, s: int, through: bool, across: int, along: int, light: int, n: int, c0: int, c1: int, stop: int)
    requires
        1 <= light <= i32::MAX / 4,
        3 * light <= across <= i32::MAX / 2,
        3 * light <= along <= i32::MAX / 2,
        0 <= c0 <= c1 <= across,
        0 <= stop <= along,
        low ==> (along - light) / 2 <= stop <= (along - s) / 2 + s,
        !low ==> (along - s) / 2 <= stop <= (along - light) / 2 + light,
        kind == 1 ==> c0 == (across - light) / 2 && c1 == c0 + light,
        kind == 2 ==> c0 == (across - 2 * light) / 2 && c1 == c0 + 2 * light,
        kind == 3 ==> c0 == (across - 3 * light) / 2 + (if n == 0 { 0 } else { 2 * light }) && c1 == c0 + light,
        low && through && kind != 3 ==> stop >= (along - light) / 2 + light,
        !low && through && kind != 3 ==> stop <= (along - light) / 2,
    ensures
        keeps_to_its_arm(strip(vertical, low, c0, c1, stop, along), vertical, low, kind, s, through, across, along, light, n),
{
}

/// The bounds that an arm keeps.
proof fn arm_keeps(vertical: bool, low: bool, kind: u8, opposite: u8, a: u8, b: u8, across: int, along: int, light: int, n: int)
    requires
        1 <= light <= i32::MAX / 4,
        3 * light <= across <= i32::MAX / 2,
        3 * light <= along <= i32::MAX / 2,
        kind < 4,
        0 <= n < strips_of(kind as int),
    ensures
        arm(vertical, low, kind, opposite, a, b, across, along, light).len() == strips_of(kind as int),
        keeps_to_its_arm(
            arm(vertical, low, kind, opposite, a, b, across, along, light)[n],
            vertical,
            low,
            kind as int,
            widest(a as int, b as int, light),
            kind == opposite,
            across,
            along,
            light,
            n,
        ),
{
    let s = widest(a as int, b as int, light);
    let stop = arm_stop(low, kind, opposite, a, b, along, light);
    let flush = if low { light_lo(along, light) } else { light_hi(along, light) };
    stroke_edges(along, light);
    stroke_edges(across, light);
    stop_bounds(low, kind, opposite, a, b, along, light);
    let through = kind == opposite;
    if kind == LIGHT {
        strip_keeps(vertical, low, 1, s, through, across, along, light, n, light_lo(across, light), light_hi(across, light), stop);
    } else if kind == HEAVY {
        strip_keeps(vertical, low, 2, s, through, across, along, light, n, heavy_lo(across, light), heavy_hi(across, light), stop);
    } else if n == 0 {
        let end = if a == DOUBLE { flush } else { stop };
        strip_keeps(vertical, low, 3, s, through, across, along, light, n, double_lo(across, light), light_lo(across, light), end);
    } else {
        let end = if b == DOUBLE { flush } else { stop };
        strip_keeps(vertical, low, 3, s, through, across, along, light, n, light_hi(across, light), double_hi(across, light), end);
    }
}

/// What is known of the n-th strip of an arm.
#[verifier::spinoff_prover]
#[verifier::rlimit(40)]
proof fn strip_facts(w: int, h: int, light: int, spec: u8, side: int, n: int)
    requires
        1 <= light <= i32::MAX / 4,
        3 * light <= w <= i32::MAX / 2,
        3 * light <= h <= i32::MAX / 2,
        0 <= side < 4,
        0 <= n < strips_of(arm_kind(spec, side)),
    ensures
        ({
            let r = line_rects(w, h, light, spec)[strips_before(spec, side) + n];
            let vertical = side == 0 || side == 2;
            keeps_to_its_arm(
                r,
                vertical,
                side == 0 || side == 3,
                arm_kind(spec, side),
                if vertical { widest(arm_kind(spec, 3), arm_kind(spec, 1), light) } else { widest(arm_kind(spec, 0), arm_kind(spec, 2), light) },
                arm_kind(spec, side) == arm_kind(spec, (side + 2) % 4),
                if vertical { w } else { h },
                if vertical { h } else { w },
                light,
                n,
            )
        }),
{
    let (up, right, down, left) = (up_of(spec), right_of(spec), down_of(spec), left_of(spec));
    assert(left as int == spec as int / 64);
    let a1 = arm(true, true, up, down, left, right, w, h, light);
    let a2 = arm(false, false, right, left, up, down, h, w, light);
    let a3 = arm(true, false, down, up, left, right, w, h, light);
    let a4 = arm(false, true, left, right, up, down, h, w, light);
    assert(a1.len() == strips_of(up as int) && a2.len() == strips_of(right as int) && a3.len() == strips_of(down as int) && a4.len() == strips_of(
        left as int,
    ));
    let all = line_rects(w, h, light, spec);
    let i = strips_before(spec, side) + n;
    if side == 0 {
        arm_keeps(true, true, up, down, left, right, w, h, light, n);
        assert(all[i] == a1[n]);
    } else if side == 1 {
        arm_keeps(false, false, right, left, up, down, h, w, light, n);
        assert(all[i] == a2[n]);
    } else if side == 2 {
        arm_keeps(true, false, down, up, left, right, w, h, light, n);
        assert(all[i] == a3[n]);
    } else {
        arm_keeps(false, true, left, right, up, down, h, w, light, n);
        assert(all[i] == a4[n]);
    }
}

proof fn strip_count(w: int, h: int, light: int, spec: u8)
    ensures
        line_rects(w, h, light, spec).len() == strips_before(spec, 4),
{
    assert(left_of(spec) as int == spec as int / 64);
}

/// The arm that the i-th strip belongs to.
proof fn strip_owner(spec: u8, i: int) -> (at: (int, int))
    requires
        0 <= i < strips_before(spec, 4),
    ensures
        0 <= at.0 < 4,
        0 <= at.1 < strips_of(arm_kind(spec, at.0)),
        i == strips_before(spec, at.0) + at.1,
{
    if i < strips_before(spec, 1) {
        (0int, i)
    } else if i < strips_before(spec, 2) {
        (1int, i - strips_before(spec, 1))
    } else if i < strips_before(spec, 3) {
        (2int, i - strips_before(spec, 2))
    } else {
        (3int, i - strips_before(spec, 3))
    }
}

/// A side of the cell is reached only by the arm that belongs to it: without a
/// left arm nothing lies left of the strokes that the vertical arms, or a
/// light line in their place, would have, and so for the other sides.
pub proof fn sides_belong_to_their_arms(w: i32, h: i32, light: i32, spec: u8, rects: Vec<Rect>, i: int)
    requires
        call_ensures(lines_char, (w, h, light, spec), rects),
        drawable(w, h, light),
        3 * light <= w,
        3 * light <= h,
        0 <= i < rects@.len(),
    ensures
        ({
            let r = rects@[i];
            let s = widest(spec as int % 4, spec as int / 16 % 4, light as int);
            let t = widest(spec as int / 4 % 4, spec as int / 64, light as int);
            &&& spec as int / 64 == 0 ==> r.x0 >= (w - s) / 2
            &&& spec as int / 4 % 4 == 0 ==> r.x1 <= (w - s) / 2 + s
            &&& spec as int % 4 == 0 ==> r.y0 >= (h - t) / 2
            &&& spec as int / 16 % 4 == 0 ==> r.y1 <= (h - t) / 2 + t
        }),
{
    strip_count(w as int, h as int, light as int, spec);
    let (side, n) = strip_owner(spec, i);
    strip_facts(w as int, h as int, light as int, spec, side, n);
    stroke_edges(w as int, light as int);
    stroke_edges(h as int, light as int);
}

/// The arms come one after the other, up, right, down and left, one strip for
/// a light or heavy arm and two for a double one, and nothing else is drawn.
/// Each runs from its side to the strokes at the center, and no further.
pub proof fn arms_run_from_side_to_center(w: i32, h: i32, light: i32, spec: u8, rects: Vec<Rect>, side: int, n: int)
    requires
        call_ensures(lines_char, (w, h, light, spec), rects),
        drawable(w, h, light),
        3 * light <= w,
        3 * light <= h,
        0 <= side < 4,
        0 <= n < strips_of(arm_kind(spec, side)),
    ensures
        rects@.len() == strips_before(spec, 4),
        ({
            let r = rects@[strips_before(spec, side) + n];
            let s = widest(arm_kind(spec, 0), arm_kind(spec, 2), light as int);
            let t = widest(arm_kind(spec, 1), arm_kind(spec, 3), light as int);
            &&& side == 0 ==> r.y0 == 0 && (h - light) / 2 <= r.y1 <= (h - t) / 2 + t
            &&& side == 1 ==> r.x1 == w && (w - s) / 2 <= r.x0 <= (w - light) / 2 + light
            &&& side == 2 ==> r.y1 == h && (h - t) / 2 <= r.y0 <= (h - light) / 2 + light
            &&& side == 3 ==> r.x0 == 0 && (w - light) / 2 <= r.x1 <= (w - s) / 2 + s
        }),
{
    strip_count(w as int, h as int, light as int, spec);
    strip_facts(w as int, h as int, light as int, spec, side, n);
}

/// Strokes lie in the middle of the cell: a light one is as thick as asked,
/// a heavy one twice that, and a double one two light lines with as much
/// between them.
pub proof fn strokes_lie_in_the_middle(w: i32, h: i32, light: i32, spec: u8, rects: Vec<Rect>, side: int, n: int)
    requires
        call_ensures(lines_char, (w, h, light, spec), rects),
        drawable(w, h, light),
        3 * light <= w,
        3 * light <= h,
        0 <= side < 4,
        0 <= n < strips_of(arm_kind(spec, side)),
    ensures
        ({
            let r = rects@[strips_before(spec, side) + n];
            let kind = arm_kind(spec, side);
            let across = if side == 0 || side == 2 { w as int } else { h as int };
            let (c0, c1) = if side == 0 || side == 2 { (r.x0 as int, r.x1 as int) } else { (r.y0 as int, r.y1 as int) };
            &&& kind == 1 ==> c0 == (across - light) / 2 && c1 == c0 + light
            &&& kind == 2 ==> c0 == (across - 2 * light) / 2 && c1 == c0 + 2 * light
            &&& kind == 3 && n == 0 ==> c0 == (across - 3 * light) / 2 && c1 == c0 + light
            &&& kind == 3 && n == 1 ==> c0 == (across - 3 * light) / 2 + 2 * light && c1 == c0 + light
        }),
{
    strip_count(w as int, h as int, light as int, spec);
    strip_facts(w as int, h as int, light as int, spec, side, n);
}

/// Lines go through: two opposite arms that are both light or both heavy leave
/// no gap between them.
pub proof fn straight_lines_go_through(w: i32, h: i32, light: i32, spec: u8, rects: Vec<Rect>, kind: int)
    requires
        call_ensures(lines_char, (w, h, light, spec), rects),
        drawable(w, h, light),
        3 * light <= w,
        3 * light <= h,
        kind == 1 || kind == 2,
    ensures
        arm_kind(spec, 1) == kind && arm_kind(spec, 3) == kind ==> rects@[strips_before(spec, 3)].x1 >= rects@[strips_before(spec, 1)].x0,
        arm_kind(spec, 0) == kind && arm_kind(spec, 2) == kind ==> rects@[strips_before(spec, 0)].y1 >= rects@[strips_before(spec, 2)].y0,
{
    strip_count(w as int, h as int, light as int, spec);
    if arm_kind(spec, 1) == kind && arm_kind(spec, 3) == kind {
        strip_facts(w as int, h as int, light as int, spec, 3, 0);
        strip_facts(w as int, h as int, light as int, spec, 1, 0);
    }
    if arm_kind(spec, 0) == kind && arm_kind(spec, 2) == kind {
        strip_facts(w as int, h as int, light as int, spec, 0, 0);
        strip_facts(w as int, h as int, light as int, spec, 2, 0);
    }
}

// ---------------------------------------------------------------------------
// What the other sprites look like
// ---------------------------------------------------------------------------

/// Lines, corners and half lines go by their weights: a horizontal and a
/// vertical weight, one for light and two for heavy, count the codepoints of
/// each corner, light ones first.
pub proof fn corners_go_by_their_weights(h: int, v: int)
    requires
        1 <= h <= 2,
        1 <= v <= 2,
    ensures
        LINES[h - 1] == 4 * h + 64 * h,
        LINES[2 + (v - 1)] == v + 16 * v,
        LINES[0x0c + (h - 1) + 2 * (v - 1)] == 4 * h + 16 * v,
        LINES[0x10 + (h - 1) + 2 * (v - 1)] == 64 * h + 16 * v,
        LINES[0x14 + (h - 1) + 2 * (v - 1)] == 4 * h + v,
        LINES[0x18 + (h - 1) + 2 * (v - 1)] == 64 * h + v,
        LINES[0x74 + 4 * (h - 1)] == 64 * h,
        LINES[0x75 + 4 * (h - 1)] == h,
        LINES[0x76 + 4 * (h - 1)] == 4 * h,
        LINES[0x77 + 4 * (h - 1)] == 16 * h,
        LINES[0x7c] == 64 + 8 && LINES[0x7d] == 1 + 32 && LINES[0x7e] == 128 + 4 && LINES[0x7f] == 2 + 16,
{
}

/// Tees that open upward or downward count the weights of their arms: the left
/// one singly, the right one in twos and the upright one in fours.
pub proof fn tees_go_by_their_weights(left: int, right: int, stem: int)
    requires
        1 <= left <= 2,
        1 <= right <= 2,
        1 <= stem <= 2,
    ensures
        LINES[0x2c + (left - 1) + 2 * (right - 1) + 4 * (stem - 1)] == 64 * left + 4 * right + 16 * stem,
        LINES[0x34 + (left - 1) + 2 * (right - 1) + 4 * (stem - 1)] == 64 * left + 4 * right + stem,
{
}

/// Swapping left and right turns each tee that opens to the right into the one
/// that opens to the left, eight codepoints on, and leaves both without the
/// arm that faces away. Light arms come first and heavy ones last.
pub proof fn side_tees_mirror_each_other(i: int)
    requires
        0 <= i < 8,
    ensures
        LINES[0x24 + i] == mirrored(LINES[0x1c + i]),
        arm_kind(LINES[0x1c + i], 3) == 0,
        arm_kind(LINES[0x1c + i], 1) == (if i == 1 || i >= 5 { 2int } else { 1 }),
        arm_kind(LINES[0x1c + i], 0) == (if i == 2 || i == 4 || i == 5 || i == 7 { 2int } else { 1 }),
        arm_kind(LINES[0x1c + i], 2) == (if i == 3 || i == 4 || i == 6 || i == 7 { 2int } else { 1 }),
{
}

/// Heavy arms of a set of lines.
pub open spec fn heavy_arms(spec: u8) -> int {
    (if arm_kind(spec, 0) == 2 { 1int } else { 0 }) + (if arm_kind(spec, 1) == 2 { 1int } else { 0 }) + (if arm_kind(spec, 2) == 2 {
        1int
    } else {
        0
    }) + (if arm_kind(spec, 3) == 2 { 1int } else { 0 })
}

/// Crosses have all four arms; they begin light and end heavy, heavy sides come
/// before heavy uprights, and mirror images stand side by side.
pub proof fn crosses_have_every_arm(i: int)
    requires
        0 <= i < 16,
    ensures
        ({
            let s = LINES[0x3c + i];
            &&& 1 <= arm_kind(s, 0) <= 2 && 1 <= arm_kind(s, 1) <= 2 && 1 <= arm_kind(s, 2) <= 2 && 1 <= arm_kind(s, 3) <= 2
            &&& arm_kind(s, 3) == 2 <==> i == 1 || i == 3 || i == 7 || i == 9 || i == 11 || i == 12 || i == 13 || i == 15
            &&& arm_kind(s, 1) == 2 <==> i == 2 || i == 3 || i == 8 || i == 10 || i == 11 || i == 12 || i == 14 || i == 15
            &&& arm_kind(s, 0) == 2 <==> i == 4 || i == 6 || i == 7 || i == 8 || i == 11 || i == 13 || i == 14 || i == 15
            &&& arm_kind(s, 2) == 2 <==> i == 5 || i == 6 || i == 9 || i == 10 || i == 12 || i == 13 || i == 14 || i == 15
        }),
        heavy_arms(LINES[0x3c]) == 0 && heavy_arms(LINES[0x4b]) == 4,
{
}

/// Double lines come in threes: the horizontal arms double, the vertical ones
/// double, and both, for each corner, each tee and the cross.
pub proof fn double_lines_come_in_threes(k: int)
    requires
        0 <= k < 3,
    ensures
        ({
            let h = if k == 1 { 1int } else { 3 };
            let v = if k == 0 { 1int } else { 3 };
            &&& LINES[0x52 + k] == 4 * h + 16 * v
            &&& LINES[0x55 + k] == 64 * h + 16 * v
            &&& LINES[0x58 + k] == 4 * h + v
            &&& LINES[0x5b + k] == 64 * h + v
            &&& LINES[0x5e + k] == 4 * h + v + 16 * v
            &&& LINES[0x61 + k] == 64 * h + v + 16 * v
            &&& LINES[0x64 + k] == 4 * h + 64 * h + 16 * v
            &&& LINES[0x67 + k] == 4 * h + 64 * h + v
            &&& LINES[0x6a + k] == 4 * h + 64 * h + v + 16 * v
        }),
        LINES[0x50] == 12 + 192 && LINES[0x51] == 3 + 48,
{
}

/// The gap of a dash pattern: as asked, but never longer than a dash.
pub open spec fn gap_between(dim: int, count: int, gap: int) -> int {
    if gap <= dim / (2 * count) {
        gap
    } else {
        dim / (2 * count)
    }
}

/// Where a rectangle lies along a line and across it.
pub open spec fn span(r: Rect, vertical: bool) -> (int, int, int, int) {
    if vertical {
        (r.y0 as int, r.y1 as int, r.x0 as int, r.x1 as int)
    } else {
        (r.x0 as int, r.x1 as int, r.y0 as int, r.y1 as int)
    }
}

/// Dashes alternate with gaps of one length, into the next cell as well; they
/// differ in length by a pixel at most, the longer ones first; a horizontal
/// pattern starts with half a gap and a vertical one with a dash. All lie in
/// the middle of the cell, as thick as asked.
pub proof fn dashes_alternate_with_gaps(w: i32, h: i32, count: i32, thick: i32, gap: i32, vertical: bool, rects: Vec<Rect>, i: int)
    requires
        call_ensures(dash, (w, h, count, thick, gap, vertical), rects),
        0 <= w <= i32::MAX / 2,
        0 <= h <= i32::MAX / 2,
        1 <= count,
        1 <= thick <= i32::MAX / 2,
        0 <= gap,
        2 * count <= (if vertical { h } else { w }),
        0 <= i < count,
    ensures
        rects@.len() == count,
        ({
            let (dim, cross) = if vertical { (h as int, w as int) } else { (w as int, h as int) };
            let g = gap_between(dim, count as int, gap as int);
            let (from, to, c0, c1) = span(rects@[i], vertical);
            let first = span(rects@[0], vertical);
            &&& first.0 == (if vertical { 0 } else { g / 2 })
            &&& i + 1 < count ==> span(rects@[i + 1], vertical).0 == to + g
            &&& i + 1 == count ==> first.0 + dim == to + g
            &&& to - from >= 1 && to - from >= g
            &&& to - from <= first.1 - first.0 <= to - from + 1
            &&& i + 1 < count ==> span(rects@[i + 1], vertical).1 - span(rects@[i + 1], vertical).0 <= to - from
            &&& c1 == c0 + thick
            &&& thick <= cross ==> c0 == (cross - thick) / 2
        }),
{
    let (dim, cross) = if vertical { (h as int, w as int) } else { (w as int, h as int) };
    let (n, g) = (count as int, gap as int);
    dash_facts(dim, n, g);
    dash_tiles(dim, n, g, vertical);
    dash_spacing(dim, n, g, vertical, i);
    dash_spacing(dim, n, g, vertical, 0);
    dash_in_cell(dim, n, g, vertical, i);
    dash_in_cell(dim, n, g, vertical, 0);
    dash_in_cell(dim, n, g, vertical, n - 1);
    if i + 1 < n {
        dash_spacing(dim, n, g, vertical, i + 1);
        dash_in_cell(dim, n, g, vertical, i + 1);
        assert(rects@[i + 1] == dash_segment(cross, thick as int, vertical, dash_start(dim, n, g, vertical, i + 1), dash_end(dim, n, g, vertical, i + 1)));
    }
    assert(0 * (dash_total(dim, n, g) / n + dash_gap(dim, n, g)) == 0) by (nonlinear_arith);
    assert(dash_start(dim, n, g, vertical, 0) == dash_lead(dim, n, g, vertical));
    assert(rects@[i] == dash_segment(cross, thick as int, vertical, dash_start(dim, n, g, vertical, i), dash_end(dim, n, g, vertical, i)));
    assert(rects@[0] == dash_segment(cross, thick as int, vertical, dash_start(dim, n, g, vertical, 0), dash_end(dim, n, g, vertical, 0)));
}

proof fn dash_in_cell(dim: int, count: int, gap: int, vertical: bool, i: int)
    requires
        count >= 1,
        gap >= 0,
        2 * count <= dim <= i32::MAX / 2,
        0 <= i < count,
    ensures
        0 <= dash_start(dim, count, gap, vertical, i) <= dash_end(dim, count, gap, vertical, i) <= 2 * dim,
{
    dash_facts(dim, count, gap);
    dash_tiles(dim, count, gap, vertical);
    dash_spacing(dim, count, gap, vertical, i);
    let g = dash_gap(dim, count, gap);
    let q = dash_total(dim, count, gap) / count;
    assert(0 <= i * (q + g) <= (count - 1) * (q + g)) by (nonlinear_arith)
        requires
            0 <= i <= count - 1,
            q + g >= 0,
    ;
    assert((count - 1) * (q + g) + (q + g) == count * q + count * g) by (nonlinear_arith);
}

/// Where the pattern has no room, the line is drawn through.
pub proof fn dashes_without_room_are_a_line(w: i32, h: i32, count: i32, thick: i32, gap: i32, vertical: bool, rects: Vec<Rect>)
    requires
        call_ensures(dash, (w, h, count, thick, gap, vertical), rects),
        0 <= w <= i32::MAX / 2,
        0 <= h <= i32::MAX / 2,
        1 <= thick <= i32::MAX / 2,
        2 * count > (if vertical { h } else { w }),
    ensures
        rects@.len() == 1,
        ({
            let (from, to, c0, c1) = span(rects@[0], vertical);
            from == 0 && to == (if vertical { h } else { w }) && c1 == c0 + thick
        }),
{
}

/// Dashed codepoints: how many dashes, across which way, and how thick.
#[verifier::spinoff_prover]
#[verifier::rlimit(40)]
pub proof fn dashed_codepoints_are_dashed(w: i32, h: i32, light: i32, cp: u32, shapes: Vec<Shape>, rects: Vec<Rect>, gap: i32)
    requires
        call_ensures(draw_box, (w, h, light, cp), shapes),
        drawable(w, h, light),
        0x2504 <= cp <= 0x250b || 0x254c <= cp <= 0x254f,
        gap == (if cp < 0x250c { if light > 4 { light as int } else { 4 } } else if cp == 0x254c { light as int } else { 2 * light }),
        call_ensures(
            dash,
            (
                w,
                h,
                if cp <= 0x2507 { 3i32 } else if cp <= 0x250b { 4i32 } else { 2i32 },
                (if cp % 2 == 1 { 2 * light } else { light as int }) as i32,
                gap,
                cp % 4 == 2 || cp % 4 == 3,
            ),
            rects,
        ),
    ensures
        shapes@.len() == rects@.len(),
        forall|i: int| 0 <= i < rects@.len() ==> #[trigger] shapes@[i] == (Shape::Fill { rect: rects@[i], alpha: 255 }),
{
    assert(dash_vertical(cp as int) == (cp % 4 == 2 || cp % 4 == 3));
}

/// Rounded corners join the sides they are named for, and diagonals slant as
/// theirs do.
pub proof fn arcs_and_diagonals_are_named(w: i32, h: i32, light: i32, cp: u32, shapes: Vec<Shape>)
    requires
        call_ensures(draw_box, (w, h, light, cp), shapes),
        0x256d <= cp <= 0x2573,
    ensures
        cp <= 0x2570 ==> shapes@.len() == 1 && (shapes@[0] matches Shape::Arc { right, down } && right == (cp == 0x256d || cp == 0x2570) && down == (cp
            == 0x256d || cp == 0x256e)),
        cp == 0x2571 || cp == 0x2572 ==> shapes@.len() == 1 && (shapes@[0] matches Shape::Diagonal { up } && up == (cp == 0x2571)),
        cp == 0x2573 ==> shapes@.len() == 2 && shapes@[0] == (Shape::Diagonal { up: true }) && shapes@[1] == (Shape::Diagonal { up: false }),
{
}

/// Every other codepoint of the block is its lines, opaque.
pub proof fn line_codepoints_are_their_lines(w: i32, h: i32, light: i32, cp: u32, shapes: Vec<Shape>, rects: Vec<Rect>)
    requires
        call_ensures(draw_box, (w, h, light, cp), shapes),
        0x2500 <= cp <= 0x257f,
        !(0x2504 <= cp <= 0x250b || 0x254c <= cp <= 0x254f || 0x256d <= cp <= 0x2573),
        call_ensures(lines_char, (w, h, light, LINES[cp - 0x2500]), rects),
    ensures
        shapes@.len() == rects@.len(),
        forall|i: int| 0 <= i < rects@.len() ==> #[trigger] shapes@[i] == (Shape::Fill { rect: rects@[i], alpha: 255 }),
{
}

/// Bit number `k` of a pattern is set.
pub open spec fn has_bit(pattern: int, k: int) -> bool
    decreases k,
{
    if k <= 0 {
        pattern % 2 == 1
    } else {
        has_bit(pattern / 2, k - 1)
    }
}

/// Set bits of a pattern below number `k`.
pub open spec fn bits_below(pattern: int, k: int) -> int
    decreases k,
{
    if k <= 0 {
        0
    } else {
        pattern % 2 + bits_below(pattern / 2, k - 1)
    }
}

proof fn squares_by_bits(g: BrailleGrid, pattern: int, bit: int, k: int)
    requires
        0 <= pattern,
        0 <= bit <= k < 8,
        has_bit(pattern, k - bit),
    ensures
        ({
            let all = braille_squares(g, pattern, bit);
            let at = bits_below(pattern, k - bit);
            0 <= at < all.len() && all[at] == g.square(DOT_COLUMNS[k] as int, DOT_ROWS[k] as int)
        }),
    decreases k - bit,
{
    if bit < k {
        squares_by_bits(g, pattern / 2, bit + 1, k);
    }
}

proof fn squares_count(g: BrailleGrid, pattern: int, bit: int)
    requires
        0 <= pattern,
        0 <= bit <= 8,
    ensures
        braille_squares(g, pattern, bit).len() == bits_below(pattern, 8 - bit),
    decreases 8 - bit,
{
    if bit < 8 {
        squares_count(g, pattern / 2, bit + 1);
    }
}

/// Each set bit of a braille pattern is one square dot, and no other is drawn:
/// the first three bits run down the left column and the next three down the
/// right one, and the last two are the bottom row. Dots of a column stand
/// below each other, those of a row beside each other.
pub proof fn braille_bits_are_dots(w: i32, h: i32, cp: u32, rects: Vec<Rect>, g: BrailleGrid, k: int)
    requires
        call_ensures(draw_braille, (w, h, cp), rects),
        call_ensures(braille_grid, (w, h), g),
        0 <= w <= i32::MAX / 2,
        0 <= h <= i32::MAX / 2,
        0x2800 <= cp <= 0x28ff,
        0 <= k < 8,
        has_bit(cp - 0x2800, k),
    ensures
        rects@.len() == bits_below(cp - 0x2800, 8),
        ({
            let at = bits_below(cp - 0x2800, k);
            let right = k == 3 || k == 4 || k == 5 || k == 7;
            let row = if k == 6 || k == 7 { 3 } else { k % 3 };
            &&& 0 <= at < rects@.len()
            &&& rects@[at].x0 == (if right { g.x_margin + g.dot + g.x_spacing } else { g.x_margin as int })
            &&& rects@[at].y0 == g.y_margin + row * (g.dot + g.y_spacing)
            &&& rects@[at].x1 == rects@[at].x0 + g.dot
            &&& rects@[at].y1 == rects@[at].y0 + g.dot
        }),
{
    squares_by_bits(g, cp - 0x2800, 0, k);
    squares_count(g, cp - 0x2800, 0);
    assert(k == 0 || k == 1 || k == 2 || k == 3 || k == 4 || k == 5 || k == 6 || k == 7);
    let right = k == 3 || k == 4 || k == 5 || k == 7;
    let col = if right { 1int } else { 0 };
    let row = if k == 6 || k == 7 { 3int } else { k % 3 };
    let s = g.dot + g.y_spacing;
    let t = g.dot + g.x_spacing;
    assert(0 <= row * s <= 3 * s) by (nonlinear_arith)
        requires
            0 <= row <= 3,
            s >= 0,
    ;
    assert(col * t == (if right { t } else { 0 })) by (nonlinear_arith)
        requires
            col == (if right { 1int } else { 0 }),
    ;
}

/// Braille dots are as large as a quarter of the width and an eighth of the
/// height allow, at least a pixel where the cell has two by four, and the
/// whole grid lies inside the cell, with as much left of it as right of it or
/// less.
pub proof fn braille_grids_use_the_cell(w: i32, h: i32, g: BrailleGrid)
    requires
        call_ensures(braille_grid, (w, h), g),
        0 <= w <= i32::MAX / 2,
        0 <= h <= i32::MAX / 2,
    ensures
        4 * (g.dot + 1) > w || 8 * (g.dot + 1) > h,
        w >= 2 && h >= 4 ==> g.dot >= 1,
        2 * g.x_margin + g.x_spacing + 2 * g.dot <= w,
        2 * g.y_margin + 3 * g.y_spacing + 4 * g.dot <= h,
        g.x_spacing >= w / 4 && g.y_spacing >= h / 8,
        g.x_margin >= w / 8 && g.y_margin >= h / 16,
{
}

/// A boundary is the pixel nearest to a fraction of the size, in 24ths, and
/// the upper one halfway between two.
pub open spec fn nearest(px: int, f: int, size: int) -> bool {
    -12 < 24 * px - f * size <= 12
}

proof fn px_is_nearest(f: int, size: int)
    requires
        0 <= f <= 24,
        0 <= size,
    ensures
        nearest(px(f, size), f, size),
        px(0, size) == 0,
        px(24, size) == size,
{
    px_bounds(f, size);
    assert(2 * f * size == 2 * (f * size)) by (nonlinear_arith);
    assert(2 * 24 * size == 48 * size && 2 * 0 * size == 0) by (nonlinear_arith);
}

/// Blocks fill their part of the cell from the side they are named for: lower
/// ones rise by eighths of the height and left ones shrink by eighths of the
/// width, the halves and the outermost eighths fill theirs, and shades all.
pub proof fn blocks_fill_their_part(w: i32, h: i32, cp: u32, rects: Vec<Rect>)
    requires
        call_ensures(draw_block, (w, h, cp), rects),
        0 <= w,
        0 <= h,
        0x2580 <= cp <= 0x2595,
    ensures
        rects@.len() == 1,
        ({
            let r = rects@[0];
            &&& 0x2581 <= cp <= 0x2588 ==> r.x0 == 0 && r.x1 == w && r.y1 == h && nearest(r.y0 as int, 24 - 3 * (cp - 0x2580), h as int)
            &&& 0x2588 <= cp <= 0x258f ==> r.x0 == 0 && r.y0 == 0 && r.y1 == h && nearest(r.x1 as int, 3 * (0x2590 - cp), w as int)
            &&& cp == 0x2580 ==> r.x0 == 0 && r.y0 == 0 && r.x1 == w && nearest(r.y1 as int, 12, h as int)
            &&& cp == 0x2590 ==> r.y0 == 0 && r.x1 == w && r.y1 == h && nearest(r.x0 as int, 12, w as int)
            &&& cp == 0x2594 ==> r.x0 == 0 && r.y0 == 0 && r.x1 == w && nearest(r.y1 as int, 3, h as int)
            &&& cp == 0x2595 ==> r.y0 == 0 && r.x1 == w && r.y1 == h && nearest(r.x0 as int, 21, w as int)
            &&& 0x2591 <= cp <= 0x2593 ==> r == (Rect { x0: 0, y0: 0, x1: w, y1: h })
        }),
{
    let parts = block_parts(cp as int);
    assert(parts.len() == 1);
    let p = parts[0];
    assert(rects@[0] == part_rect(p, w as int, h as int));
    px_bounds(p.x0 as int, w as int);
    px_bounds(p.x1 as int, w as int);
    px_bounds(p.y0 as int, h as int);
    px_bounds(p.y1 as int, h as int);
    px_is_nearest(p.x0 as int, w as int);
    px_is_nearest(p.x1 as int, w as int);
    px_is_nearest(p.y0 as int, h as int);
    px_is_nearest(p.y1 as int, h as int);
}

/// The rectangle of a part of a grid of two columns and some rows, each bound
/// at the pixel nearest to it.
pub open spec fn is_grid_part(r: Rect, col: int, row: int, rows: int, w: int, h: int) -> bool {
    &&& nearest(r.x0 as int, 12 * col, w)
    &&& nearest(r.x1 as int, 12 * col + 12, w)
    &&& nearest(r.y0 as int, 24int / rows * row, h)
    &&& nearest(r.y1 as int, 24int / rows * row + 24int / rows, h)
    &&& col == 0 ==> r.x0 == 0
    &&& col == 1 ==> r.x1 == w
    &&& row == 0 ==> r.y0 == 0
    &&& row == rows - 1 ==> r.y1 == h
}

proof fn parts_by_bits(bits: int, rows: int, from: int, k: int)
    requires
        0 <= bits,
        0 <= from <= k < 2 * rows,
        has_bit(bits, k - from),
    ensures
        ({
            let all = grid_parts(bits, rows, from);
            let at = bits_below(bits, k - from);
            let tall = 24int / rows;
            0 <= at < all.len() && all[at] == part(12 * (k % 2), tall * (k / 2), 12 * (k % 2) + 12, tall * (k / 2) + tall)
        }),
    decreases k - from,
{
    if from < k {
        parts_by_bits(bits / 2, rows, from + 1, k);
    }
}

proof fn parts_count(bits: int, rows: int, from: int)
    requires
        0 <= bits,
        0 <= from <= 2 * rows,
    ensures
        grid_parts(bits, rows, from).len() == bits_below(bits, 2 * rows - from),
    decreases 2 * rows - from,
{
    if from < 2 * rows {
        parts_count(bits / 2, rows, from + 1);
    }
}

proof fn part_is_placed(col: int, row: int, rows: int, w: int, h: int)
    requires
        rows == 2 || rows == 3,
        0 <= col <= 1,
        0 <= row < rows,
        0 <= w <= i32::MAX,
        0 <= h <= i32::MAX,
    ensures
        ({
            let tall = 24int / rows;
            is_grid_part(part_rect(part(12 * col, tall * row, 12 * col + 12, tall * row + tall), w, h), col, row, rows, w, h)
        }),
{
    let tall = 24int / rows;
    let y0 = tall * row;
    let y1 = tall * row + tall;
    assert(0 <= y0 && y1 <= 24 && (row == 0 ==> y0 == 0) && (row == rows - 1 ==> y1 == 24)) by (nonlinear_arith)
        requires
            (rows == 2 && tall == 12) || (rows == 3 && tall == 8),
            0 <= row < rows,
            y0 == tall * row,
            y1 == tall * row + tall,
    ;
    assert(tall > 0);
    px_is_nearest(12 * col, w);
    px_is_nearest(12 * col + 12, w);
    px_is_nearest(y0, h);
    px_is_nearest(y1, h);
    px_bounds(12 * col, w);
    px_bounds(12 * col + 12, w);
    px_bounds(y0, h);
    px_bounds(y1, h);
}

/// The quadrants that a codepoint is named for, as bits: upper left, upper
/// right, lower left and lower right.
pub open spec fn quadrants_of(cp: int) -> int {
    let ul = if 0x2598 <= cp <= 0x259c { 1int } else { 0 };
    let ur = if 0x259b <= cp <= 0x259f { 2int } else { 0 };
    let ll = if cp == 0x2596 || cp == 0x2599 || cp == 0x259b || cp == 0x259e || cp == 0x259f { 4int } else { 0 };
    let lr = if cp == 0x2597 || cp == 0x2599 || cp == 0x259a || cp == 0x259c || cp == 0x259f { 8int } else { 0 };
    ul + ur + ll + lr
}

/// Quadrants fill the quarters they are named for, and nothing else.
pub proof fn quadrants_fill_their_quarters(w: i32, h: i32, cp: u32, rects: Vec<Rect>, k: int)
    requires
        call_ensures(draw_block, (w, h, cp), rects),
        0 <= w,
        0 <= h,
        0x2596 <= cp <= 0x259f,
        0 <= k < 4,
        has_bit(quadrants_of(cp as int), k),
    ensures
        rects@.len() == bits_below(quadrants_of(cp as int), 4),
        0 <= bits_below(quadrants_of(cp as int), k) < rects@.len(),
        is_grid_part(rects@[bits_below(quadrants_of(cp as int), k)], k % 2, k / 2, 2, w as int, h as int),
{
    assert(QUADS[cp - 0x2596] as int == quadrants_of(cp as int));
    parts_by_bits(quadrants_of(cp as int), 2, 0, k);
    parts_count(quadrants_of(cp as int), 2, 0);
    part_is_placed(k % 2, k / 2, 2, w as int, h as int);
}

/// The sixths that a sextant is numbered for: its codepoints count up through
/// the patterns, without those that other characters show already.
pub open spec fn sixths_of(cp: int) -> int {
    let n = cp - 0x1fb00 + 1;
    if n < 21 {
        n
    } else if n < 41 {
        n + 1
    } else {
        n + 2
    }
}

/// Sextants fill the sixths that their number has bits for, row by row, and
/// nothing else.
pub proof fn sextants_fill_their_sixths(w: i32, h: i32, cp: u32, rects: Vec<Rect>, k: int)
    requires
        call_ensures(draw_block, (w, h, cp), rects),
        0 <= w,
        0 <= h,
        0x1fb00 <= cp <= 0x1fb3b,
        0 <= k < 6,
        has_bit(sixths_of(cp as int), k),
    ensures
        rects@.len() == bits_below(sixths_of(cp as int), 6),
        0 <= bits_below(sixths_of(cp as int), k) < rects@.len(),
        is_grid_part(rects@[bits_below(sixths_of(cp as int), k)], k % 2, k / 2, 3, w as int, h as int),
{
    assert(sextant_bits(cp - 0x1fb00) == sixths_of(cp as int));
    parts_by_bits(sixths_of(cp as int), 3, 0, k);
    parts_count(sixths_of(cp as int), 3, 0);
    part_is_placed(k % 2, k / 2, 3, w as int, h as int);
}

/// Which codepoints are drawn here: box drawing, block elements, the four
/// corner triangles, braille, the separators of prompts and the sextants.
pub proof fn sprites_are_drawn_here(w: i32, h: i32, thick: i32, cp: u32, shapes: Option<Vec<Shape>>)
    requires
        call_ensures(draw, (w, h, thick, cp), shapes),
    ensures
        shapes is Some <==> 0x2500 <= cp <= 0x259f || 0x25e2 <= cp <= 0x25e5 || 0x2800 <= cp <= 0x28ff || 0xe0b0 <= cp <= 0xe0bf || 0x1fb00 <= cp
            <= 0x1fb3b,
{
}

/// Box drawing codepoints are drawn with the stroke asked for, or one pixel
/// where that is thinner.
pub proof fn boxes_are_drawn_as_boxes(w: i32, h: i32, thick: i32, light: i32, cp: u32, shapes: Option<Vec<Shape>>, list: Vec<Shape>)
    requires
        call_ensures(draw, (w, h, thick, cp), shapes),
        light == (if thick >= 1 { thick as int } else { 1 }),
        0x2500 <= cp <= 0x257f,
        call_ensures(draw_box, (w, h, light, cp), list),
    ensures
        shapes is Some && shapes->0@ == list@,
{
}

/// Block elements are opaque but for the shades, which are a quarter, a half
/// and three quarters; braille is opaque.
pub proof fn fills_have_their_opacity(w: i32, h: i32, thick: i32, cp: u32, shapes: Option<Vec<Shape>>, rects: Vec<Rect>, i: int)
    requires
        call_ensures(draw, (w, h, thick, cp), shapes),
        0x2580 <= cp <= 0x259f || 0x1fb00 <= cp <= 0x1fb3b ==> call_ensures(draw_block, (w, h, cp), rects),
        0x2800 <= cp <= 0x28ff ==> call_ensures(draw_braille, (w, h, cp), rects),
        0x2580 <= cp <= 0x259f || 0x1fb00 <= cp <= 0x1fb3b || 0x2800 <= cp <= 0x28ff,
        0 <= i < rects@.len(),
    ensures
        shapes is Some && shapes->0@.len() == rects@.len(),
        shapes->0@[i] matches Shape::Fill { rect, alpha } && rect == rects@[i] && alpha == (if cp == 0x2591 {
            64int
        } else if cp == 0x2592 {
            128
        } else if cp == 0x2593 {
            192
        } else {
            255
        }),
{
}

/// A triangle has three of the cell's corners and leaves out this one.
pub open spec fn leaves_out(shape: Shape, x: int, y: int) -> bool {
    shape matches Shape::Triangle { a, b, c } && {
        &&& is_corner(a) && is_corner(b) && is_corner(c)
        &&& a != b && b != c && a != c
        &&& !(a.x == x && a.y == y) && !(b.x == x && b.y == y) && !(c.x == x && c.y == y)
    }
}

/// One of the cell's own corners, in halves of its sides.
pub open spec fn is_corner(c: Corner) -> bool {
    (c.x == 0 || c.x == 2) && (c.y == 0 || c.y == 2)
}

/// Corner triangles fill the half of the cell that they are named for: all
/// corners but the opposite one.
pub proof fn triangles_fill_their_corner(w: i32, h: i32, thick: i32, cp: u32, shapes: Option<Vec<Shape>>)
    requires
        call_ensures(draw, (w, h, thick, cp), shapes),
        0x25e2 <= cp <= 0x25e5 || cp == 0xe0b8 || cp == 0xe0ba || cp == 0xe0bc || cp == 0xe0be,
    ensures
        shapes is Some && shapes->0@.len() == 1,
        cp == 0x25e2 || cp == 0xe0ba ==> leaves_out(shapes->0@[0], 0, 0),
        cp == 0x25e3 || cp == 0xe0b8 ==> leaves_out(shapes->0@[0], 2, 0),
        cp == 0x25e4 || cp == 0xe0bc ==> leaves_out(shapes->0@[0], 2, 2),
        cp == 0x25e5 || cp == 0xe0be ==> leaves_out(shapes->0@[0], 0, 2),
{
}

/// Prompt separators: the solid arrows stand on a whole side and point to the
/// middle of the other, the outlined ones, the discs and the slanted lines
/// face the way they are named for.
pub proof fn separators_face_their_way(w: i32, h: i32, thick: i32, cp: u32, shapes: Option<Vec<Shape>>)
    requires
        call_ensures(draw, (w, h, thick, cp), shapes),
        0xe0b0 <= cp <= 0xe0bf,
    ensures
        shapes is Some && shapes->0@.len() == 1,
        cp == 0xe0b0 ==> (shapes->0@[0] matches Shape::Triangle { a, b, c } && a.x == 0 && c.x == 0 && a.y == 0 && c.y == 2 && b.x == 2 && b.y == 1),
        cp == 0xe0b2 ==> (shapes->0@[0] matches Shape::Triangle { a, b, c } && a.x == 2 && c.x == 2 && a.y == 0 && c.y == 2 && b.x == 0 && b.y == 1),
        cp == 0xe0b1 || cp == 0xe0b3 ==> (shapes->0@[0] matches Shape::Chevron { flip } && flip == (cp == 0xe0b3)),
        0xe0b4 <= cp <= 0xe0b7 ==> (shapes->0@[0] matches Shape::HalfDisc { flip, fill } && flip == (cp >= 0xe0b6) && fill == (cp % 2 == 0)),
        cp == 0xe0b9 || cp == 0xe0bb || cp == 0xe0bd || cp == 0xe0bf ==> (shapes->0@[0] matches Shape::Diagonal { up } && up == (cp == 0xe0bb || cp
            == 0xe0bd)),
{
}

/// How far a rectangle reaches into the cell from one of its sides.
pub open spec fn reach(r: Rect, side: int, w: int, h: int) -> int {
    if side == 0 {
        r.y1 as int
    } else if side == 1 {
        w - r.x0
    } else if side == 2 {
        h - r.y0
    } else {
        r.x1 as int
    }
}

/// How far a rectangle lies from a side of the cell.
pub open spec fn depth(r: Rect, side: int, w: int, h: int) -> int {
    if side == 0 {
        r.y0 as int
    } else if side == 1 {
        w - r.x1
    } else if side == 2 {
        h - r.y1
    } else {
        r.x0 as int
    }
}

/// The n-th strip of an arm.
pub open spec fn strip_at(rects: Seq<Rect>, spec: u8, side: int, n: int) -> Rect {
    rects[strips_before(spec, side) + n]
}

/// The strip of an arm that is farthest from a side of the cell, and the one
/// nearest to it; lines of a double stroke count from the top and from the
/// left.
pub open spec fn farthest(kind: int, side: int) -> int {
    if kind == 3 && (side == 0 || side == 3) {
        1
    } else {
        0
    }
}

pub open spec fn closest(kind: int, side: int) -> int {
    if kind == 3 && (side == 1 || side == 2) {
        1
    } else {
        0
    }
}

/// The line of a double stroke that runs on the side of a crossing arm.
pub open spec fn line_toward(other: int) -> int {
    if other == 0 || other == 3 {
        0
    } else {
        1
    }
}

spec fn arm_on(w: int, h: int, light: int, spec: u8, side: int) -> Seq<Rect> {
    let (up, right, down, left) = (up_of(spec), right_of(spec), down_of(spec), left_of(spec));
    if side == 0 {
        arm(true, true, up, down, left, right, w, h, light)
    } else if side == 1 {
        arm(false, false, right, left, up, down, h, w, light)
    } else if side == 2 {
        arm(true, false, down, up, left, right, w, h, light)
    } else {
        arm(false, true, left, right, up, down, h, w, light)
    }
}

proof fn strip_is(w: int, h: int, light: int, spec: u8, side: int, n: int)
    requires
        0 <= side < 4,
        0 <= n < strips_of(arm_kind(spec, side)),
    ensures
        strip_at(line_rects(w, h, light, spec), spec, side, n) == arm_on(w, h, light, spec, side)[n],
        arm_on(w, h, light, spec, side).len() == strips_of(arm_kind(spec, side)),
{
    let (up, right, down, left) = (up_of(spec), right_of(spec), down_of(spec), left_of(spec));
    assert(left as int == spec as int / 64);
    let a1 = arm(true, true, up, down, left, right, w, h, light);
    let a2 = arm(false, false, right, left, up, down, h, w, light);
    let a3 = arm(true, false, down, up, left, right, w, h, light);
    let a4 = arm(false, true, left, right, up, down, h, w, light);
    assert(a1.len() == strips_of(up as int) && a2.len() == strips_of(right as int) && a3.len() == strips_of(down as int) && a4.len() == strips_of(
        left as int,
    ));
}

/// What an arm and one that crosses it have to do with each other. `third` is
/// the arm opposite the crossing one.
pub open spec fn joined(rects: Seq<Rect>, spec: u8, side: int, n: int, other: int, w: int, h: int) -> bool {
    let kind = arm_kind(spec, side);
    let a = arm_kind(spec, other);
    let b = arm_kind(spec, (other + 2) % 4);
    let through = kind == arm_kind(spec, (side + 2) % 4);
    let mine = reach(strip_at(rects, spec, side, n), side, w, h);
    let far = reach(strip_at(rects, spec, other, farthest(a, side)), side, w, h);
    let near = reach(strip_at(rects, spec, other, closest(a, side)), side, w, h);
    let edge = depth(strip_at(rects, spec, other, 0), side, w, h);
    let toward = kind == 3 && n == line_toward(other);
    let away = kind == 3 && b == 3 && !toward;
    // A heavy arm is covered to its far edge, and so is any at a corner.
    &&& a == 2 && !away ==> mine == far
    &&& a == 1 && b == 0 ==> mine == far
    &&& a == 3 && b != 2 && b != 3 && !toward ==> mine == far
    // Where lines cross, they go through each other.
    &&& a == 1 && b == 1 && through ==> mine == far
    &&& a == 3 && b == 3 && through && kind != 3 ==> mine == far
    // A lone arm ends on the line that it stands on.
    &&& a == 1 && b == 1 && !through ==> mine == edge
    &&& a == 3 && b == 3 && !through ==> mine == near
    // The lines of double strokes turn into each other.
    &&& a == 3 && toward ==> mine == near
}

proof fn vertical_joins(w: int, h: int, light: int, spec: u8, side: int, n: int, other: int)
    requires
        1 <= light <= i32::MAX / 4,
        0 <= w <= i32::MAX / 2,
        0 <= h <= i32::MAX / 2,
        side == 0 || side == 2,
        other == 1 || other == 3,
        0 <= n < strips_of(arm_kind(spec, side)),
        arm_kind(spec, other) != 0,
    ensures
        joined(line_rects(w, h, light, spec), spec, side, n, other, w, h),
{
    assert(left_of(spec) as int == spec as int / 64);
    let a = arm_kind(spec, other);
    strip_is(w, h, light, spec, side, n);
    strip_is(w, h, light, spec, other, farthest(a, side));
    strip_is(w, h, light, spec, other, closest(a, side));
    strip_is(w, h, light, spec, other, 0);
}

proof fn horizontal_joins(w: int, h: int, light: int, spec: u8, side: int, n: int, other: int)
    requires
        1 <= light <= i32::MAX / 4,
        0 <= w <= i32::MAX / 2,
        0 <= h <= i32::MAX / 2,
        side == 1 || side == 3,
        other == 0 || other == 2,
        0 <= n < strips_of(arm_kind(spec, side)),
        arm_kind(spec, other) != 0,
    ensures
        joined(line_rects(w, h, light, spec), spec, side, n, other, w, h),
{
    assert(left_of(spec) as int == spec as int / 64);
    let a = arm_kind(spec, other);
    strip_is(w, h, light, spec, side, n);
    strip_is(w, h, light, spec, other, farthest(a, side));
    strip_is(w, h, light, spec, other, closest(a, side));
    strip_is(w, h, light, spec, other, 0);
}

/// Arms join without a hole and without sticking out, in cells of any size:
/// each ends exactly on an edge of the arms that cross it.
pub proof fn arms_join_what_they_meet(w: i32, h: i32, light: i32, spec: u8, rects: Vec<Rect>, side: int, n: int, other: int)
    requires
        call_ensures(lines_char, (w, h, light, spec), rects),
        drawable(w, h, light),
        0 <= side < 4,
        0 <= n < strips_of(arm_kind(spec, side)),
        other == (side + 1) % 4 || other == (side + 3) % 4,
        arm_kind(spec, other) != 0,
    ensures
        joined(rects@, spec, side, n, other, w as int, h as int),
{
    if side == 0 || side == 2 {
        vertical_joins(w as int, h as int, light as int, spec, side, n, other);
    } else {
        horizontal_joins(w as int, h as int, light as int, spec, side, n, other);
    }
}

/// Arms that nothing crosses cover the middle of the cell, as wide as a light
/// stroke: half lines meet there, and a line through the cell has no hole.
pub proof fn uncrossed_arms_cover_the_middle(w: i32, h: i32, light: i32, spec: u8, rects: Vec<Rect>, side: int, n: int)
    requires
        call_ensures(lines_char, (w, h, light, spec), rects),
        drawable(w, h, light),
        0 <= side < 4,
        0 <= n < strips_of(arm_kind(spec, side)),
        arm_kind(spec, (side + 1) % 4) == 0,
        arm_kind(spec, (side + 3) % 4) == 0,
        light <= w,
        light <= h,
    ensures
        ({
            let r = strip_at(rects@, spec, side, n);
            &&& side == 0 ==> r.y0 == 0 && r.y1 == (h - light) / 2 + light
            &&& side == 1 ==> r.x1 == w && r.x0 == (w - light) / 2
            &&& side == 2 ==> r.y1 == h && r.y0 == (h - light) / 2
            &&& side == 3 ==> r.x0 == 0 && r.x1 == (w - light) / 2 + light
        }),
{
    assert(left_of(spec) as int == spec as int / 64);
    strip_is(w as int, h as int, light as int, spec, side, n);
}

/// Strokes that outgrow the cell start at its edge and keep their thickness.
pub proof fn outgrown_strokes_start_at_the_edge(w: i32, h: i32, light: i32, spec: u8, rects: Vec<Rect>, side: int, n: int)
    requires
        call_ensures(lines_char, (w, h, light, spec), rects),
        drawable(w, h, light),
        0 <= side < 4,
        0 <= n < strips_of(arm_kind(spec, side)),
    ensures
        ({
            let r = strip_at(rects@, spec, side, n);
            let kind = arm_kind(spec, side);
            let across = if side == 0 || side == 2 { w as int } else { h as int };
            let (c0, c1) = if side == 0 || side == 2 { (r.x0 as int, r.x1 as int) } else { (r.y0 as int, r.y1 as int) };
            let middle = if light <= across { (across - light) / 2 } else { 0 };
            &&& kind == 1 ==> c0 == middle && c1 == middle + light
            &&& kind == 2 ==> c0 == (if 2 * light <= across { (across - 2 * light) / 2 } else { 0 }) && c1 == c0 + 2 * light
            &&& kind == 3 && n == 0 ==> c0 == (if middle >= light { middle - light } else { 0 }) && c1 == middle
            &&& kind == 3 && n == 1 ==> c0 == middle + light && c1 == middle + 2 * light
        }),
{
    assert(left_of(spec) as int == spec as int / 64);
    strip_is(w as int, h as int, light as int, spec, side, n);
}

/// Where there is no room for dashes, the line lies in the middle of the cell.
pub proof fn lines_without_dashes_lie_in_the_middle(w: i32, h: i32, count: i32, thick: i32, gap: i32, vertical: bool, rects: Vec<Rect>)
    requires
        call_ensures(dash, (w, h, count, thick, gap, vertical), rects),
        0 <= w <= i32::MAX / 2,
        0 <= h <= i32::MAX / 2,
        1 <= thick <= i32::MAX / 2,
        2 * count > (if vertical { h } else { w }),
    ensures
        ({
            let (cross, c0) = if vertical { (w as int, rects@[0].x0 as int) } else { (h as int, rects@[0].y0 as int) };
            &&& thick <= cross ==> c0 == (cross - thick) / 2
            &&& thick > cross ==> c0 == -((thick - cross) / 2)
        }),
{
}

/// Pixels that quarters and eighths of the cell leave over are spent on a
/// first margin, then on the space between dots, then on the margins, then on
/// the dots; each gets one at most, and no pixel that could be spent is left.
pub proof fn braille_pixels_are_spent_in_order(w: i32, h: i32, g: BrailleGrid)
    requires
        call_ensures(braille_grid, (w, h), g),
        0 <= w <= i32::MAX / 2,
        0 <= h <= i32::MAX / 2,
    ensures
        ({
            let x_left = w - 2 * g.x_margin - g.x_spacing - 2 * g.dot;
            let y_left = h - 2 * g.y_margin - 3 * g.y_spacing - 4 * g.dot;
            let x_more = g.x_margin - (if w >= 8 { w as int / 8 } else if g.x_margin > 0 { 1 } else { 0 });
            let y_more = g.y_margin - (if h >= 16 { h as int / 16 } else if g.y_margin > 0 { 1 } else { 0 });
            &&& g.x_spacing == w as int / 4 || g.x_spacing == w as int / 4 + 1
            &&& g.y_spacing == h as int / 8 || g.y_spacing == h as int / 8 + 1
            &&& 0 <= x_more <= 1 && 0 <= y_more <= 1
            &&& w < 8 && g.x_margin == 0 ==> x_left + (g.x_spacing - w as int / 4) < 2
            &&& h < 16 && g.y_margin == 0 ==> y_left + 3 * (g.y_spacing - h as int / 8) < 2
            &&& g.x_spacing == w as int / 4 ==> x_more == 0 && x_left == 0
            &&& g.y_spacing == h as int / 8 ==> 2 * y_more + y_left < 3
            &&& x_more == 0 ==> x_left < 2
            &&& y_more == 0 ==> y_left < 2
        }),
{
}

/// Dots grow by a pixel only once margins and spaces have, and then wherever
/// two pixels of the width and four of the height are left.
pub proof fn braille_dots_grow_last(w: i32, h: i32, g: BrailleGrid)
    requires
        call_ensures(braille_grid, (w, h), g),
        4 <= w <= i32::MAX / 2,
        8 <= h <= i32::MAX / 2,
    ensures
        ({
            let base = if w as int / 4 <= h as int / 8 { w as int / 4 } else { h as int / 8 };
            &&& g.dot == base || g.dot == base + 1
            &&& g.dot == base ==> w - 2 * g.x_margin - g.x_spacing - 2 * g.dot < 2 || h - 2 * g.y_margin - 3 * g.y_spacing - 4 * g.dot < 4
            &&& g.dot == base + 1 ==> g.x_spacing == w as int / 4 + 1 && g.y_spacing == h as int / 8 + 1 && g.x_margin > w as int / 8 && g.y_margin > h as int
                / 16
        }),
{
}

/// What an outline is drawn of: the points between two that lie on the cell's
/// boundary, as long as they go and in order.
pub proof fn outlines_leave_out_the_boundary(boundary: &Vec<bool>, runs: Vec<(usize, usize)>, k: int, i: int)
    requires
        call_ensures(outline_runs, (boundary,), runs),
        0 <= i < boundary@.len(),
    ensures
        0 <= k < runs@.len() ==> {
            let (from, to) = runs@[k];
            &&& from < to <= boundary@.len()
            &&& from <= i < to ==> !boundary@[i]
            &&& from > 0 ==> boundary@[from - 1]
            &&& to < boundary@.len() ==> boundary@[to as int]
            &&& k + 1 < runs@.len() ==> to < runs@[k + 1].0
        },
        !boundary@[i] ==> exists|j: int| 0 <= j < runs@.len() && (#[trigger] runs@[j]).0 <= i < runs@[j].1,
{
    if 0 <= k < runs@.len() {
        assert(runs_are_maximal(boundary@, runs@));
        assert(is_run(boundary@, runs@[k].0 as int, runs@[k].1 as int));
        if k + 1 < runs@.len() {
            assert(runs@[k].1 < runs@[k + 1].0);
        }
    }
    if !boundary@[i] {
        assert(runs_hold_all(boundary@, runs@));
    }
}

/// Separators are drawn the same in a cell of any size.
pub proof fn separators_ignore_the_cell(w: i32, h: i32, thick: i32, cp: u32, shapes: Option<Vec<Shape>>, list: Vec<Shape>)
    requires
        call_ensures(draw, (w, h, thick, cp), shapes),
        call_ensures(draw_powerline, (cp,), list),
        0xe0b0 <= cp <= 0xe0bf,
    ensures
        shapes is Some && shapes->0@ == list@,
{
}

} // verus!
