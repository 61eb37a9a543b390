//! A terminal palette generated from a few theme colors: ANSI hues keep their
//! identity, lightness is placed relative to the real background. Perceptual
//! color arithmetic is the caller's; here the candidates are judged and the
//! palette is put together. Non-negative single-precision numbers are compared
//! by their bit patterns, which order as the numbers do.

use vstd::prelude::*;

use crate::color::{rgb, Rgb};

verus! {

pub const SCHEME_AUTO: i32 = 0;
pub const SCHEME_DARK: i32 = 1;
pub const SCHEME_LIGHT: i32 = 2;

/// Readability floor, WCAG 3:1 for UI components, as a bit pattern.
pub const FLOOR_CONTRAST: u32 = 0x4040_0000;

/// Channel values of the color cube.
pub const STEPS: [u8; 6] = [0, 95, 135, 175, 215, 255];

#[derive(Clone, Copy, Debug, PartialEq, Eq, Structural)]
pub enum ColorScheme {
    Dark,
    Light,
}

pub struct Theme {
    pub scheme: ColorScheme,
    pub bg: Rgb,
    pub fg: Rgb,
    pub cursor: Rgb,
    pub palette: Vec<Rgb>,
}

/// The preference decides; left to itself the system's dark mode does, and
/// dark is taken where the system has none.
pub fn wants_dark(pref: i32, dark_mode_supported: bool, dark_mode: bool) -> (dark: bool)
    ensures
        dark == (if pref == SCHEME_DARK {
            true
        } else if pref == SCHEME_LIGHT {
            false
        } else {
            !dark_mode_supported || dark_mode
        }),
{
    match pref {
        SCHEME_DARK => true,
        SCHEME_LIGHT => false,
        _ => !dark_mode_supported || dark_mode,
    }
}

/// The scheme preferred: the node's property in games, the editor's setting
/// for editor terminals.
pub fn scheme_pref(run_in_editor: bool, node: i32, setting: Option<i32>) -> (pref: i32)
    ensures
        pref == (if !run_in_editor {
            node
        } else {
            match setting {
                Some(pref) => pref,
                None => SCHEME_AUTO,
            }
        }),
{
    if !run_in_editor {
        return node;
    }
    match setting {
        Some(pref) => pref,
        None => SCHEME_AUTO,
    }
}

/// Background and text of a neutral surface.
pub open spec fn neutral(dark: bool) -> (Rgb, Rgb) {
    if dark {
        (Rgb { r: 0x16, g: 0x18, b: 0x1d }, Rgb { r: 0xd8, g: 0xda, b: 0xde })
    } else {
        (Rgb { r: 0xfa, g: 0xfa, b: 0xf8 }, Rgb { r: 0x20, g: 0x22, b: 0x26 })
    }
}

pub fn neutral_surface(dark: bool) -> (surface: (Rgb, Rgb))
    ensures
        surface == neutral(dark),
{
    if dark {
        (rgb(0x16, 0x18, 0x1d), rgb(0xd8, 0xda, 0xde))
    } else {
        (rgb(0xfa, 0xfa, 0xf8), rgb(0x20, 0x22, 0x26))
    }
}

/// Background and text of an editor terminal: the editor's own, unless a
/// forced scheme is opposite the editor's. That cannot blend, so it takes a
/// neutral surface.
pub fn editor_surface(pref: i32, editor_dark: bool, bg: Rgb, fg: Rgb) -> (surface: (Rgb, Rgb))
    ensures
        surface == (if pref == SCHEME_DARK && !editor_dark {
            neutral(true)
        } else if pref == SCHEME_LIGHT && editor_dark {
            neutral(false)
        } else {
            (bg, fg)
        }),
{
    if pref == SCHEME_DARK && !editor_dark {
        neutral_surface(true)
    } else if pref == SCHEME_LIGHT && editor_dark {
        neutral_surface(false)
    } else {
        (bg, fg)
    }
}

// ---------------------------------------------------------------------------
// Slots
// ---------------------------------------------------------------------------

/// One lightness tried for a hue: the lightness, the contrast it achieves and
/// how far that is from the wished one, as bit patterns.
#[derive(Clone, Copy, Debug, PartialEq, Eq, Structural)]
pub struct Candidate {
    pub lightness: u32,
    pub contrast: u32,
    pub distance: u32,
}

pub open spec fn in_band(c: Candidate, lo: u32, hi: u32) -> bool {
    lo <= c.lightness <= hi
}

/// In the band and above the readability floor.
pub open spec fn readable(c: Candidate, lo: u32, hi: u32) -> bool {
    in_band(c, lo, hi) && c.contrast >= FLOOR_CONTRAST
}

/// The first of the readable candidates nearest the wish.
pub open spec fn is_nearest(list: Seq<Candidate>, lo: u32, hi: u32, at: int) -> bool {
    &&& 0 <= at < list.len()
    &&& readable(list[at], lo, hi)
    &&& forall|i: int| 0 <= i < list.len() && readable(#[trigger] list[i], lo, hi) ==> list[at].distance <= list[i].distance
    &&& forall|i: int| 0 <= i < at && readable(#[trigger] list[i], lo, hi) ==> list[at].distance < list[i].distance
}

/// The first of the candidates in the band with the most contrast.
pub open spec fn is_strongest(list: Seq<Candidate>, lo: u32, hi: u32, at: int) -> bool {
    &&& 0 <= at < list.len()
    &&& in_band(list[at], lo, hi)
    &&& forall|i: int| 0 <= i < list.len() && in_band(#[trigger] list[i], lo, hi) ==> list[i].contrast <= list[at].contrast
    &&& forall|i: int| 0 <= i < at && in_band(#[trigger] list[i], lo, hi) ==> list[i].contrast < list[at].contrast
}

pub open spec fn any_readable(list: Seq<Candidate>, lo: u32, hi: u32) -> bool {
    exists|i: int| 0 <= i < list.len() && readable(#[trigger] list[i], lo, hi)
}

pub open spec fn any_in_band(list: Seq<Candidate>, lo: u32, hi: u32) -> bool {
    exists|i: int| 0 <= i < list.len() && in_band(#[trigger] list[i], lo, hi)
}

/// The in-band candidate whose contrast is nearest the wish, subject to the
/// readability floor; the one with the best contrast where none clears the
/// floor. None where the band is empty.
pub fn slot(list: &Vec<Candidate>, lo: u32, hi: u32) -> (at: Option<usize>)
    ensures
        at is Some <==> any_in_band(list@, lo, hi),
        at matches Some(i) ==> if any_readable(list@, lo, hi) {
            is_nearest(list@, lo, hi, i as int)
        } else {
            is_strongest(list@, lo, hi, i as int)
        },
{
    let mut best: Option<usize> = None;
    let mut fallback: Option<usize> = None;
    let mut i: usize = 0;
    assert(list@.take(0).len() == 0);
    while i < list.len()
        invariant
            i <= list@.len(),
            best matches Some(b) ==> is_nearest(list@.take(i as int), lo, hi, b as int),
            best is Some <==> any_readable(list@.take(i as int), lo, hi),
            fallback matches Some(f) ==> f < i && in_band(list@[f as int], lo, hi) && !readable(list@[f as int], lo, hi),
            fallback is Some <==> exists|k: int|
                0 <= k < i && in_band(#[trigger] list@[k], lo, hi) && !readable(list@[k], lo, hi),
            fallback matches Some(f) ==> forall|k: int|
                0 <= k < i && in_band(#[trigger] list@[k], lo, hi) && !readable(list@[k], lo, hi) ==> list@[k].contrast <= list@[f as int].contrast && (k < f
                    ==> list@[k].contrast < list@[f as int].contrast),
        decreases list@.len() - i,
    {
        let c = list[i];
        let ghost seen = list@.take(i as int);
        let ghost next = list@.take(i + 1);
        proof {
            assert forall|k: int| 0 <= k < i implies #[trigger] next[k] == seen[k] by {}
            assert(next[i as int] == c);
            if any_readable(seen, lo, hi) {
                let k = choose|k: int| 0 <= k < seen.len() && readable(#[trigger] seen[k], lo, hi);
                assert(readable(next[k], lo, hi));
            }
            if any_readable(next, lo, hi) {
                let k = choose|k: int| 0 <= k < next.len() && readable(#[trigger] next[k], lo, hi);
                if k < i {
                    assert(readable(seen[k], lo, hi));
                }
            }
        }
        if lo <= c.lightness && c.lightness <= hi {
            if c.contrast >= FLOOR_CONTRAST {
                let better: bool = match best {
                    None => true,
                    Some(b) => c.distance < list[b].distance,
                };
                if better {
                    best = Some(i);
                }
            } else {
                let stronger: bool = match fallback {
                    None => true,
                    Some(f) => c.contrast > list[f].contrast,
                };
                if stronger {
                    fallback = Some(i);
                }
            }
        }
        proof {
            if let Some(b) = best {
                assert forall|k: int| 0 <= k < next.len() && readable(#[trigger] next[k], lo, hi) implies next[b as int].distance <= next[k].distance
                    && (k < b ==> next[b as int].distance < next[k].distance) by {
                    if k < i {
                        assert(readable(seen[k], lo, hi));
                    }
                }
                assert(is_nearest(next, lo, hi, b as int));
            }
        }
        i = i + 1;
    }
    assert(list@.take(i as int) == list@);
    match best {
        Some(b) => {
            assert(in_band(list@[b as int], lo, hi));
            Some(b)
        },
        None => fallback,
    }
}

/// What the accent color gives as a cursor.
#[derive(Clone, Copy, Debug, PartialEq, Eq, Structural)]
pub struct Accent {
    pub color: Rgb,
    /// Contrast against the background, as a bit pattern.
    pub contrast: u32,
    /// The color has a hue to keep.
    pub chromatic: bool,
    /// The hue placed readably against the background.
    pub placed: Rgb,
}

/// The accent where it is readable, else its hue placed readably, else the
/// text color.
pub open spec fn cursor_of(accent: Option<Accent>, fg: Rgb) -> Rgb {
    match accent {
        None => fg,
        Some(a) => if a.contrast >= FLOOR_CONTRAST {
            a.color
        } else if a.chromatic {
            a.placed
        } else {
            fg
        },
    }
}

fn cursor_color(accent: Option<Accent>, fg: Rgb) -> (c: Rgb)
    ensures
        c == cursor_of(accent, fg),
{
    match accent {
        None => fg,
        Some(a) => {
            if a.contrast >= FLOOR_CONTRAST {
                return a.color;
            }
            if !a.chromatic {
                return fg;
            }
            a.placed
        },
    }
}

// ---------------------------------------------------------------------------
// Palette
// ---------------------------------------------------------------------------

/// The sixteen ANSI colors' ingredients: neutrals from dark to light, and the
/// six hues red, green, yellow, blue, magenta and cyan, normal and bright.
pub struct Ansi {
    pub black: Rgb,
    pub bright_black: Rgb,
    pub white: Rgb,
    pub bright_white: Rgb,
    pub normal: Vec<Rgb>,
    pub bright: Vec<Rgb>,
}

impl Ansi {
    pub open spec fn wf(self) -> bool {
        self.normal@.len() == 6 && self.bright@.len() == 6
    }
}

/// Entry `i` of the color cube, from zero.
pub open spec fn cube(i: int) -> Rgb {
    Rgb { r: STEPS[i / 36], g: STEPS[i / 6 % 6], b: STEPS[i % 6] }
}

/// Entry `i` of the gray ramp, from zero.
pub open spec fn ramp(i: int) -> Rgb {
    let v = (8 + 10 * i) as u8;
    Rgb { r: v, g: v, b: v }
}

/// Entry `i` of the palette.
pub open spec fn palette_at(ansi: Ansi, i: int) -> Rgb {
    if i == 0 {
        ansi.black
    } else if i <= 6 {
        ansi.normal@[i - 1]
    } else if i == 7 {
        ansi.white
    } else if i == 8 {
        ansi.bright_black
    } else if i <= 14 {
        ansi.bright@[i - 9]
    } else if i == 15 {
        ansi.bright_white
    } else if i < 232 {
        cube(i - 16)
    } else {
        ramp(i - 232)
    }
}

/// Put a theme together.
pub fn generate(dark: bool, bg: Rgb, fg: Rgb, accent: Option<Accent>, ansi: &Ansi) -> (theme: Theme)
    requires
        ansi.wf(),
    ensures
        theme.scheme == (if dark { ColorScheme::Dark } else { ColorScheme::Light }),
        theme.bg == bg,
        theme.fg == fg,
        theme.cursor == cursor_of(accent, fg),
        theme.palette@ == Seq::new(256, |i: int| palette_at(*ansi, i)),
{
    let mut palette: Vec<Rgb> = Vec::new();
    let mut i: usize = 0;
    while i < 256
        invariant
            i <= 256,
            ansi.wf(),
            palette@.len() == i,
            forall|k: int| 0 <= k < i ==> #[trigger] palette@[k] == palette_at(*ansi, k),
        decreases 256 - i,
    {
        let color: Rgb = if i == 0 {
            ansi.black
        } else if i <= 6 {
            ansi.normal[i - 1]
        } else if i == 7 {
            ansi.white
        } else if i == 8 {
            ansi.bright_black
        } else if i <= 14 {
            ansi.bright[i - 9]
        } else if i == 15 {
            ansi.bright_white
        } else if i < 232 {
            let n: usize = i - 16;
            rgb(STEPS[n / 36], STEPS[n / 6 % 6], STEPS[n % 6])
        } else {
            let v: u8 = (8 + 10 * (i - 232)) as u8;
            rgb(v, v, v)
        };
        palette.push(color);
        i = i + 1;
    }
    let theme = Theme {
        scheme: if dark { ColorScheme::Dark } else { ColorScheme::Light },
        bg,
        fg,
        cursor: cursor_color(accent, fg),
        palette,
    };
    assert(theme.palette@ == Seq::new(256, |i: int| palette_at(*ansi, i)));
    theme
}

/// No two entries of the color cube are the same color.
pub proof fn cube_colors_are_distinct(i: int, j: int)
    requires
        0 <= i < 216,
        0 <= j < 216,
        cube(i) == cube(j),
    ensures
        i == j,
{
    assert(i / 36 == j / 36);
    assert(i / 6 % 6 == j / 6 % 6);
    assert(i % 6 == j % 6);
}

/// The gray ramp rises in even steps and stays between black and white.
pub proof fn ramp_rises(i: int, j: int)
    requires
        0 <= i < j < 24,
    ensures
        0 < ramp(i).r < ramp(j).r < 255,
{
}

/// A chosen candidate is readable wherever any candidate is.
pub proof fn slots_are_readable(list: Seq<Candidate>, lo: u32, hi: u32, at: int)
    requires
        any_readable(list, lo, hi),
        is_nearest(list, lo, hi, at),
    ensures
        list[at].contrast >= FLOOR_CONTRAST,
        in_band(list[at], lo, hi),
{
}

// ---------------------------------------------------------------------------
// Changes
// ---------------------------------------------------------------------------

impl Theme {
    /// All colors and the scheme agree.
    pub open spec fn equals(self, other: Theme) -> bool {
        &&& self.scheme == other.scheme
        &&& self.bg == other.bg
        &&& self.fg == other.fg
        &&& self.cursor == other.cursor
        &&& self.palette@ == other.palette@
    }

    pub fn same(&self, other: &Theme) -> (r: bool)
        ensures
            r == self.equals(*other),
    {
        if self.scheme != other.scheme || self.bg != other.bg || self.fg != other.fg || self.cursor != other.cursor {
            return false;
        }
        if self.palette.len() != other.palette.len() {
            return false;
        }
        let mut i: usize = 0;
        while i < self.palette.len()
            invariant
                i <= self.palette@.len(),
                self.palette@.len() == other.palette@.len(),
                forall|k: int| 0 <= k < i ==> self.palette@[k] == other.palette@[k],
            decreases self.palette@.len() - i,
        {
            if self.palette[i] != other.palette[i] {
                return false;
            }
            i = i + 1;
        }
        assert(self.palette@ == other.palette@);
        true
    }
}

/// The report of a changed scheme: `ESC [ ? 997 ; 1 n` for a dark one, else
/// with a 2. Only those who enabled such reports get it.
pub open spec fn report_bytes(from: ColorScheme, to: ColorScheme, reports: bool) -> Seq<u8> {
    if from != to && reports {
        seq![0x1bu8, 0x5b, 0x3f, 0x39, 0x39, 0x37, 0x3b, if to is Dark { 0x31 } else { 0x32 }, 0x6e]
    } else {
        seq![]
    }
}

/// The unsolicited report that a program gets when the scheme changes, if it
/// enabled color scheme reports.
pub fn scheme_report(from: ColorScheme, to: ColorScheme, reports: bool) -> (bytes: Vec<u8>)
    ensures
        bytes@ == report_bytes(from, to, reports),
{
    let mut bytes: Vec<u8> = Vec::new();
    if from != to && reports {
        let mode: u8 = match to {
            ColorScheme::Dark => 0x31,
            ColorScheme::Light => 0x32,
        };
        // ESC [ ? 9 9 7 ; mode n
        bytes.push(0x1b);
        bytes.push(0x5b);
        bytes.push(0x3f);
        bytes.push(0x39);
        bytes.push(0x39);
        bytes.push(0x37);
        bytes.push(0x3b);
        bytes.push(mode);
        bytes.push(0x6e);
    }
    assert(bytes@ == report_bytes(from, to, reports));
    bytes
}

/// Whether an editor terminal takes a theme: only where it differs from the
/// present one.
pub fn refresh_theme(run_in_editor: bool, present: &Theme, resolved: &Theme) -> (apply: bool)
    ensures
        apply == (run_in_editor && !resolved.equals(*present)),
{
    run_in_editor && !resolved.same(present)
}

// ---------------------------------------------------------------------------
// What themes come to
// ---------------------------------------------------------------------------

/// A forced scheme is taken; left to itself, light is taken only where the
/// system says so. Games go by their node and editor terminals by the setting.
pub proof fn preferences_decide(pref: i32, supported: bool, mode: bool, dark: bool, in_editor: bool, node: i32, setting: Option<i32>, chosen: i32)
    requires
        call_ensures(wants_dark, (pref, supported, mode), dark),
        call_ensures(scheme_pref, (in_editor, node, setting), chosen),
    ensures
        pref == 1 ==> dark,
        pref == 2 ==> !dark,
        pref != 1 && pref != 2 ==> (!dark <==> supported && !mode),
        !in_editor ==> chosen == node,
        in_editor && setting is Some ==> chosen == setting->0,
        in_editor && setting is None ==> chosen == 0,
{
}

/// An editor terminal blends in, unless a forced scheme is the opposite of the
/// editor's: then its surface is of that scheme, with text that stands out.
pub proof fn forced_schemes_get_their_surface(pref: i32, editor_dark: bool, bg: Rgb, fg: Rgb, surface: (Rgb, Rgb), dark: (Rgb, Rgb), light: (Rgb, Rgb))
    requires
        call_ensures(editor_surface, (pref, editor_dark, bg, fg), surface),
        call_ensures(neutral_surface, (true,), dark),
        call_ensures(neutral_surface, (false,), light),
    ensures
        pref == 1 && !editor_dark ==> surface == dark,
        pref == 2 && editor_dark ==> surface == light,
        !(pref == 1 && !editor_dark) && !(pref == 2 && editor_dark) ==> surface == (bg, fg),
        dark.0 == (Rgb { r: 22, g: 24, b: 29 }) && dark.1 == (Rgb { r: 216, g: 218, b: 222 }),
        light.0 == (Rgb { r: 250, g: 250, b: 248 }) && light.1 == (Rgb { r: 32, g: 34, b: 38 }),
{
}

/// The color chosen for a slot lies in its band. It is readable wherever one of
/// the band is, and then none that is readable is nearer the wish; else none
/// of the band has more contrast.
pub proof fn slots_take_the_best_candidate(list: &Vec<Candidate>, lo: u32, hi: u32, at: Option<usize>, i: int)
    requires
        call_ensures(slot, (list, lo, hi), at),
        0 <= i < list@.len(),
        lo <= list@[i].lightness <= hi,
    ensures
        at is Some && at->0 < list@.len(),
        lo <= list@[at->0 as int].lightness <= hi,
        list@[i].contrast >= 0x4040_0000 ==> list@[at->0 as int].contrast >= 0x4040_0000 && list@[at->0 as int].distance <= list@[i].distance,
        list@[at->0 as int].contrast < 0x4040_0000 ==> list@[i].contrast <= list@[at->0 as int].contrast,
        at->0 > i && list@[i].contrast >= 0x4040_0000 ==> list@[at->0 as int].distance < list@[i].distance,
{
    assert(in_band(list@[i], lo, hi));
    assert(any_in_band(list@, lo, hi));
    if list@[i].contrast >= 0x4040_0000 {
        assert(readable(list@[i], lo, hi));
        assert(any_readable(list@, lo, hi));
    }
}

/// A band without candidates gives no color.
pub proof fn empty_bands_give_nothing(list: &Vec<Candidate>, lo: u32, hi: u32, at: Option<usize>)
    requires
        call_ensures(slot, (list, lo, hi), at),
        forall|i: int| 0 <= i < list@.len() ==> !(lo <= (#[trigger] list@[i]).lightness <= hi),
    ensures
        at is None,
{
}

/// A theme keeps its surface, and its cursor is the accent color, or its hue
/// made readable, or the text color where the accent has no hue to keep.
pub proof fn themes_keep_their_surface(dark: bool, bg: Rgb, fg: Rgb, accent: Option<Accent>, ansi: &Ansi, theme: Theme)
    requires
        call_ensures(generate, (dark, bg, fg, accent, ansi), theme),
    ensures
        theme.bg == bg && theme.fg == fg,
        theme.scheme is Dark <==> dark,
        accent is None ==> theme.cursor == fg,
        accent is Some && accent->0.contrast >= 0x4040_0000 ==> theme.cursor == accent->0.color,
        accent is Some && accent->0.contrast < 0x4040_0000 && accent->0.chromatic ==> theme.cursor == accent->0.placed,
        accent is Some && accent->0.contrast < 0x4040_0000 && !accent->0.chromatic ==> theme.cursor == fg,
{
}

/// One of the six values that a channel of the color cube has.
pub open spec fn channel(n: int) -> int {
    if n == 0 {
        0
    } else {
        55 + 40 * n
    }
}

/// The palette holds black, the six hues and white, then their bright forms,
/// then the cube of six by six by six colors, then the gray ramp, as terminals
/// expect it.
pub proof fn palettes_are_laid_out_as_expected(dark: bool, bg: Rgb, fg: Rgb, accent: Option<Accent>, ansi: &Ansi, theme: Theme, hue: int, r: int, g: int, b: int, gray: int)
    requires
        call_ensures(generate, (dark, bg, fg, accent, ansi), theme),
        0 <= hue < 6,
        0 <= r < 6,
        0 <= g < 6,
        0 <= b < 6,
        0 <= gray < 24,
    ensures
        theme.palette@.len() == 256,
        theme.palette@[0] == ansi.black && theme.palette@[7] == ansi.white && theme.palette@[8] == ansi.bright_black && theme.palette@[15]
            == ansi.bright_white,
        theme.palette@[1 + hue] == ansi.normal@[hue] && theme.palette@[9 + hue] == ansi.bright@[hue],
        ({
            let c = theme.palette@[16 + 36 * r + 6 * g + b];
            c.r == channel(r) && c.g == channel(g) && c.b == channel(b)
        }),
        ({
            let c = theme.palette@[232 + gray];
            c.r == 8 + 10 * gray && c.g == c.r && c.b == c.r
        }),
{
    let i = 16 + 36 * r + 6 * g + b;
    assert((i - 16) / 36 == r && (i - 16) / 6 % 6 == g && (i - 16) % 6 == b);
    assert(STEPS[r] == channel(r) && STEPS[g] == channel(g) && STEPS[b] == channel(b)) by {
        assert(r == 0 || r == 1 || r == 2 || r == 3 || r == 4 || r == 5);
        assert(g == 0 || g == 1 || g == 2 || g == 3 || g == 4 || g == 5);
        assert(b == 0 || b == 1 || b == 2 || b == 3 || b == 4 || b == 5);
    }
}

/// Themes are the same exactly if no color and no scheme of theirs differs,
/// and only an editor terminal takes another one.
pub proof fn other_themes_are_taken(present: &Theme, resolved: &Theme, in_editor: bool, same: bool, apply: bool, i: int)
    requires
        call_ensures(Theme::same, (present, resolved), same),
        call_ensures(refresh_theme, (in_editor, present, resolved), apply),
    ensures
        same ==> present.bg == resolved.bg && present.fg == resolved.fg && present.cursor == resolved.cursor && present.scheme == resolved.scheme
            && present.palette@ == resolved.palette@,
        present.bg != resolved.bg || present.fg != resolved.fg || present.cursor != resolved.cursor || present.scheme != resolved.scheme ==> !same,
        0 <= i < present.palette@.len() && i < resolved.palette@.len() && present.palette@[i] != resolved.palette@[i] ==> !same,
        present.bg == resolved.bg && present.fg == resolved.fg && present.cursor == resolved.cursor && present.scheme == resolved.scheme
            && present.palette@ == resolved.palette@ ==> same,
        apply <==> in_editor && !same,
{
}

/// A change of scheme is reported to who asked for it, as `CSI ? 997 ; 1 n`
/// for dark and `2` for light; without a change, or unasked, nothing is sent.
pub proof fn scheme_changes_are_reported(from: ColorScheme, to: ColorScheme, reports: bool, bytes: Vec<u8>)
    requires
        call_ensures(scheme_report, (from, to, reports), bytes),
    ensures
        !reports || from == to ==> bytes@.len() == 0,
        reports && from != to ==> bytes@.len() == 9 && bytes@.take(7) == seq![0x1bu8, 0x5b, 0x3f, 0x39, 0x39, 0x37, 0x3b] && bytes@[8] == 0x6e
            && bytes@[7] == (if to is Dark { 0x31u8 } else { 0x32u8 }),
{
    if reports && from != to {
        assert(bytes@.take(7) =~= seq![0x1bu8, 0x5b, 0x3f, 0x39, 0x39, 0x37, 0x3b]);
    }
}

} // verus!
