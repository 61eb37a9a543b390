//! Explicit per-glyph font resolution. A flat list of fonts with first match
//! wins has no presentation logic, so the fallbacks are ordered here per
//! codepoint, by the cell width that the terminal computed.

use std::collections::HashMap;

use vstd::prelude::*;
use vstd::string::*;

verus! {

/// Fonts behind the four style fonts: monochrome emoji, symbols, color emoji,
/// then the system's.
pub const NOTO_MONO: usize = 4;
pub const JULIA: usize = 5;
pub const COLOR: usize = 6;
pub const SYSTEM: usize = 7;

/// Fonts loaded at the start.
pub const BASE_FONTS: usize = 9;

/// Style fonts come first, in the order regular, bold, italic, bold italic.
pub open spec fn style_of(bold: bool, italic: bool) -> u8 {
    if bold {
        if italic { 3 } else { 1 }
    } else {
        if italic { 2 } else { 0 }
    }
}

/// The message for an embedded font that does not load.
pub fn load_failure(name: &str) -> (message: String)
    ensures
        message@ == "font "@ + name@ + " failed to parse"@,
{
    let mut message = "font ".to_owned();
    message.append(name);
    message.append(" failed to parse");
    message
}

/// The order in which fonts are tried for a codepoint that its style font
/// lacks. Emoji cells prefer color; text cells prefer monochrome, taking the
/// mono emoji first and then the symbols; system fonts cover other scripts.
pub open spec fn fallback_order(wide: bool) -> Seq<usize> {
    if wide {
        seq![COLOR, NOTO_MONO, JULIA, SYSTEM, (SYSTEM + 1) as usize]
    } else {
        seq![NOTO_MONO, JULIA, COLOR, SYSTEM, (SYSTEM + 1) as usize]
    }
}

/// The first of a list of fonts that covers the codepoint.
pub open spec fn first_covering(order: Seq<usize>, covers: Seq<bool>, from: int) -> Option<usize>
    decreases order.len() - from,
{
    if from >= order.len() {
        None
    } else if covers[order[from] as int] {
        Some(order[from])
    } else {
        first_covering(order, covers, from + 1)
    }
}

/// The first discovered font that covers the codepoint, counted behind the
/// base fonts.
pub open spec fn first_extra(covers: Seq<bool>, from: int) -> Option<usize>
    decreases covers.len() - from,
{
    if from >= covers.len() {
        None
    } else if covers[from] {
        Some((BASE_FONTS + from) as usize)
    } else {
        first_extra(covers, from + 1)
    }
}

/// The font to fall back to, among those already loaded.
pub open spec fn loaded_fallback(wide: bool, base: Seq<bool>, extra: Seq<bool>) -> Option<usize> {
    match first_covering(fallback_order(wide), base, 0) {
        Some(i) => Some(i),
        None => first_extra(extra, 0),
    }
}

/// The font to fall back to, from which of the base fonts and of the
/// discovered ones cover the codepoint. None leaves it to discovery.
pub fn compute_fallback(wide: bool, base: &Vec<bool>, extra: &Vec<bool>) -> (font: Option<usize>)
    requires
        base@.len() == BASE_FONTS,
        extra@.len() <= usize::MAX - BASE_FONTS,
    ensures
        font == loaded_fallback(wide, base@, extra@),
{
    let order: [usize; 5] = if wide {
        [COLOR, NOTO_MONO, JULIA, SYSTEM, SYSTEM + 1]
    } else {
        [NOTO_MONO, JULIA, COLOR, SYSTEM, SYSTEM + 1]
    };
    assert(order@ == fallback_order(wide));
    let mut i: usize = 0;
    while i < 5
        invariant
            i <= 5,
            base@.len() == BASE_FONTS,
            order@ == fallback_order(wide),
            first_covering(fallback_order(wide), base@, 0) == first_covering(fallback_order(wide), base@, i as int),
        decreases 5 - i,
    {
        let at: usize = order[i];
        assert(at == fallback_order(wide)[i as int]);
        if base[at] {
            return Some(at);
        }
        i = i + 1;
    }
    let mut j: usize = 0;
    while j < extra.len()
        invariant
            j <= extra@.len(),
            extra@.len() <= usize::MAX - BASE_FONTS,
            first_covering(fallback_order(wide), base@, 0) is None,
            first_extra(extra@, 0) == first_extra(extra@, j as int),
        decreases extra@.len() - j,
    {
        if extra[j] {
            return Some(BASE_FONTS + j);
        }
        j = j + 1;
    }
    None
}

/// What is known of fonts and codepoints. Discovered fonts stand behind the
/// base fonts.
pub struct Fonts {
    pub extra: usize,
    /// Font files that were tried already.
    pub tried: Vec<String>,
    pub primary_cache: HashMap<u64, bool>,
    pub fallback_cache: HashMap<u64, Option<usize>>,
}

/// What to do to draw a codepoint.
#[derive(Clone, Copy, Debug, PartialEq, Eq, Structural)]
pub enum FontStep {
    /// Draw with this font.
    Draw(usize),
    /// Ask whether the style font has it.
    AskStyle,
    /// Ask which fallback font has it.
    AskFallback,
    /// Nothing covers it; the cell stays blank.
    Blank,
}

/// Keys of the caches: a codepoint and a style, or a codepoint and a width.
pub open spec fn style_key(cp: u32, style: u8) -> u64 {
    (cp * 256 + style) as u64
}

pub open spec fn width_key(cp: u32, wide: bool) -> u64 {
    (cp * 2 + (if wide { 1int } else { 0 })) as u64
}

/// No two codepoints and styles share a key, nor two codepoints and widths.
pub proof fn keys_are_apart(cp1: u32, style1: u8, wide1: bool, cp2: u32, style2: u8, wide2: bool)
    ensures
        style_key(cp1, style1) == style_key(cp2, style2) ==> cp1 == cp2 && style1 == style2,
        width_key(cp1, wide1) == width_key(cp2, wide2) ==> cp1 == cp2 && wide1 == wide2,
{
}

impl Fonts {
    pub open spec fn tried_paths(self) -> Seq<Seq<char>> {
        crate::text::texts(self.tried@)
    }

    /// The step for a codepoint: its style font wherever that has it, else the
    /// fallback found for its width.
    pub open spec fn step_for(self, cp: u32, style: u8, wide: bool) -> FontStep {
        let primary = self.primary_cache@;
        let fallback = self.fallback_cache@;
        if !primary.dom().contains(style_key(cp, style)) {
            FontStep::AskStyle
        } else if primary[style_key(cp, style)] {
            FontStep::Draw(style as usize)
        } else if !fallback.dom().contains(width_key(cp, wide)) {
            FontStep::AskFallback
        } else {
            match fallback[width_key(cp, wide)] {
                Some(i) => FontStep::Draw(i),
                None => FontStep::Blank,
            }
        }
    }

    pub fn new() -> (f: Fonts)
        ensures
            f.extra == 0,
            f.tried_paths().len() == 0,
            f.primary_cache@ == Map::<u64, bool>::empty(),
            f.fallback_cache@ == Map::<u64, Option<usize>>::empty(),
    {
        Fonts { extra: 0, tried: Vec::new(), primary_cache: HashMap::new(), fallback_cache: HashMap::new() }
    }

    /// Place of the font for a style.
    pub fn style_index(bold: bool, italic: bool) -> (style: u8)
        ensures
            style == style_of(bold, italic),
    {
        match (bold, italic) {
            (false, false) => 0,
            (true, false) => 1,
            (false, true) => 2,
            (true, true) => 3,
        }
    }

    /// The font to draw a codepoint with, as far as it is known.
    pub fn resolve(&self, cp: u32, style: u8, wide: bool) -> (step: FontStep)
        ensures
            step == self.step_for(cp, style, wide),
    {
        broadcast use vstd::std_specs::hash::group_hash_axioms;

        let key: u64 = cp as u64 * 256 + style as u64;
        match self.primary_cache.get(&key) {
            None => FontStep::AskStyle,
            Some(true) => FontStep::Draw(style as usize),
            Some(false) => {
                let key: u64 = cp as u64 * 2 + (if wide { 1 } else { 0 });
                match self.fallback_cache.get(&key) {
                    None => FontStep::AskFallback,
                    Some(Some(i)) => FontStep::Draw(*i),
                    Some(None) => FontStep::Blank,
                }
            },
        }
    }

    /// Remember whether a style font has a codepoint.
    pub fn note_style(&mut self, cp: u32, style: u8, covers: bool)
        ensures
            final(self).primary_cache@ == old(self).primary_cache@.insert(style_key(cp, style), covers),
            *final(self) == (Fonts { primary_cache: final(self).primary_cache, ..*old(self) }),
    {
        broadcast use vstd::std_specs::hash::group_hash_axioms;

        let key: u64 = cp as u64 * 256 + style as u64;
        self.primary_cache.insert(key, covers);
    }

    /// Remember the fallback font of a codepoint.
    pub fn note_fallback(&mut self, cp: u32, wide: bool, font: Option<usize>)
        ensures
            final(self).fallback_cache@ == old(self).fallback_cache@.insert(width_key(cp, wide), font),
            *final(self) == (Fonts { fallback_cache: final(self).fallback_cache, ..*old(self) }),
    {
        broadcast use vstd::std_specs::hash::group_hash_axioms;

        let key: u64 = cp as u64 * 2 + (if wide { 1 } else { 0 });
        self.fallback_cache.insert(key, font);
    }

    /// A font file that discovery came upon: tells whether to load it, which
    /// is once.
    pub fn take_path(&mut self, path: String) -> (load: bool)
        ensures
            load == !old(self).tried_paths().contains(path@),
            final(self).tried_paths() == (if load { old(self).tried_paths().push(path@) } else { old(self).tried_paths() }),
            *final(self) == (Fonts { tried: final(self).tried, ..*old(self) }),
    {
        let mut i: usize = 0;
        while i < self.tried.len()
            invariant
                i <= self.tried@.len(),
                *self == *old(self),
                forall|k: int| 0 <= k < i ==> self.tried_paths()[k] != path@,
            decreases self.tried@.len() - i,
        {
            assert(self.tried_paths()[i as int] == self.tried@[i as int]@);
            if self.tried[i] == path {
                assert(self.tried_paths().contains(path@));
                return false;
            }
            i = i + 1;
        }
        let ghost text = path@;
        let ghost before = self.tried_paths();
        self.tried.push(path);
        assert(self.tried_paths() == before.push(text));
        true
    }

    /// A discovered font was loaded. Every one is kept: it serves other
    /// codepoints even when the one asked for is missing from it. Tells its
    /// place where it covers the codepoint.
    pub fn keep_font(&mut self, covers: bool) -> (font: Option<usize>)
        requires
            old(self).extra < usize::MAX - BASE_FONTS,
        ensures
            *final(self) == (Fonts { extra: (old(self).extra + 1) as usize, ..*old(self) }),
            font == (if covers { Some((BASE_FONTS + old(self).extra) as usize) } else { None }),
    {
        let at: usize = BASE_FONTS + self.extra;
        self.extra = self.extra + 1;
        if covers {
            Some(at)
        } else {
            None
        }
    }
}

/// What was noted is found: a codepoint is asked about once per style and
/// once per width, and drawn the same way ever after.
pub proof fn answers_are_remembered(before: Fonts, after: Fonts, cp: u32, style: u8, wide: bool, font: Option<usize>)
    requires
        after.primary_cache@ == before.primary_cache@.insert(style_key(cp, style), false),
        after.fallback_cache@ == before.fallback_cache@.insert(width_key(cp, wide), font),
    ensures
        after.step_for(cp, style, wide) == (match font {
            Some(i) => FontStep::Draw(i),
            None => FontStep::Blank,
        }),
{
}

/// Wide cells get the color font and narrow ones a monochrome font wherever
/// both have the codepoint.
pub proof fn width_decides_the_presentation(base: Seq<bool>, extra: Seq<bool>)
    requires
        base.len() == BASE_FONTS,
        base[COLOR as int],
        base[NOTO_MONO as int] || base[JULIA as int],
    ensures
        loaded_fallback(true, base, extra) == Some(COLOR),
        loaded_fallback(false, base, extra) == Some(if base[NOTO_MONO as int] { NOTO_MONO } else { JULIA }),
{
    reveal_with_fuel(first_covering, 4);
}

/// Whether to ask the system for fonts: only for a codepoint that is a
/// character.
pub fn discoverable(cp: u32) -> (r: bool)
    ensures
        r == vstd::utf8::is_scalar(cp),
{
    cp <= 0xd7ff || (0xe000 <= cp && cp <= 0x10ffff)
}

/// Where a base font comes from.
#[derive(Clone, Copy, Debug)]
pub enum FontSource {
    /// Shipped with the extension, so it works in any project.
    Embedded(&'static str),
    /// A family of the system, for scripts that cannot be bundled.
    Family(&'static str),
}

/// The base fonts in their order: the styles, the fallbacks, the system's.
pub fn base_fonts() -> (list: Vec<FontSource>)
    ensures
        list@.len() == BASE_FONTS,
        list@[style_of(false, false) as int] == FontSource::Embedded("Regular"),
        list@[style_of(true, false) as int] == FontSource::Embedded("Bold"),
        list@[style_of(false, true) as int] == FontSource::Embedded("Italic"),
        list@[style_of(true, true) as int] == FontSource::Embedded("BoldItalic"),
        list@[NOTO_MONO as int] == FontSource::Embedded("NotoEmoji"),
        list@[JULIA as int] == FontSource::Embedded("JuliaMono"),
        list@[COLOR as int] == FontSource::Embedded("NotoColorEmoji"),
        list@[SYSTEM as int] == FontSource::Family("monospace"),
        list@[SYSTEM + 1] == FontSource::Family("sans-serif"),
{
    let mut list: Vec<FontSource> = Vec::new();
    list.push(FontSource::Embedded("Regular"));
    list.push(FontSource::Embedded("Bold"));
    list.push(FontSource::Embedded("Italic"));
    list.push(FontSource::Embedded("BoldItalic"));
    list.push(FontSource::Embedded("NotoEmoji"));
    list.push(FontSource::Embedded("JuliaMono"));
    list.push(FontSource::Embedded("NotoColorEmoji"));
    list.push(FontSource::Family("monospace"));
    list.push(FontSource::Family("sans-serif"));
    list
}

// ---------------------------------------------------------------------------
// What font resolution comes to
// ---------------------------------------------------------------------------

/// The four styles have four fonts, bold counting one and italic two.
pub proof fn styles_have_their_fonts(bold: bool, italic: bool, style: u8)
    requires
        call_ensures(Fonts::style_index, (bold, italic), style),
    ensures
        style == (if bold { 1int } else { 0 }) + (if italic { 2int } else { 0 }),
{
}

/// The order in which the base fonts behind the styles are asked: the color
/// font first for wide cells and third for others.
pub open spec fn rank(font: int, wide: bool) -> int {
    if font == 6 {
        if wide { 0 } else { 2 }
    } else if font == 4 {
        if wide { 1 } else { 0 }
    } else if font == 5 {
        if wide { 2 } else { 1 }
    } else {
        font - 4
    }
}

proof fn first_covering_is_first(order: Seq<usize>, covers: Seq<bool>, from: int)
    requires
        0 <= from <= order.len(),
    ensures
        match first_covering(order, covers, from) {
            Some(f) => exists|i: int|
                from <= i < order.len() && #[trigger] order[i] == f && covers[f as int] && forall|j: int| from <= j < i ==> !covers[#[trigger] order[j] as int],
            None => forall|j: int| from <= j < order.len() ==> !covers[#[trigger] order[j] as int],
        },
    decreases order.len() - from,
{
    if from < order.len() {
        if covers[order[from] as int] {
            assert(order[from] == first_covering(order, covers, from)->0);
        } else {
            first_covering_is_first(order, covers, from + 1);
            if let Some(f) = first_covering(order, covers, from + 1) {
                let i = choose|i: int|
                    from + 1 <= i < order.len() && #[trigger] order[i] == f && covers[f as int] && forall|j: int|
                        from + 1 <= j < i ==> !covers[#[trigger] order[j] as int];
                assert forall|j: int| from <= j < i implies !covers[#[trigger] order[j] as int] by {}
                assert(order[i] == f);
            }
        }
    }
}

proof fn first_extra_is_first(covers: Seq<bool>, from: int)
    requires
        0 <= from <= covers.len(),
        covers.len() <= usize::MAX - BASE_FONTS,
    ensures
        match first_extra(covers, from) {
            Some(f) => 9 + from <= f < 9 + covers.len() && covers[f - 9] && forall|j: int| from <= j < f - 9 ==> !#[trigger] covers[j],
            None => forall|j: int| from <= j < covers.len() ==> !#[trigger] covers[j],
        },
    decreases covers.len() - from,
{
    if from < covers.len() && !covers[from] {
        first_extra_is_first(covers, from + 1);
    }
}

/// A codepoint that a fallback font covers is drawn with one that does: with
/// the first by rank among the base fonts, and with a discovered font only
/// where none of those has it, the first that was discovered.
pub proof fn covered_codepoints_get_a_font(wide: bool, base: &Vec<bool>, extra: &Vec<bool>, font: Option<usize>, f: int)
    requires
        call_ensures(compute_fallback, (wide, base, extra), font),
        base@.len() == 9,
        extra@.len() <= usize::MAX - 9,
    ensures
        font is Some ==> 4 <= font->0 < 9 + extra@.len() && (font->0 < 9 ==> base@[font->0 as int]) && (font->0 >= 9 ==> extra@[font->0 - 9]),
        4 <= f < 9 && base@[f] ==> font is Some && font->0 < 9 && rank(font->0 as int, wide) <= rank(f, wide),
        0 <= f < extra@.len() && extra@[f] ==> font is Some && (font->0 >= 9 ==> font->0 - 9 <= f),
{
    let order = fallback_order(wide);
    first_covering_is_first(order, base@, 0);
    first_extra_is_first(extra@, 0);
    if 4 <= f < 9 && base@[f] {
        let j = rank(f, wide);
        assert(order[j] == f);
        if let Some(g) = first_covering(order, base@, 0) {
            let i = choose|i: int| 0 <= i < order.len() && #[trigger] order[i] == g && base@[g as int] && forall|j: int| 0 <= j < i ==> !base@[#[trigger] order[j] as int];
            assert(rank(g as int, wide) == i);
            assert(i <= j);
        }
    }
    if let Some(g) = first_covering(order, base@, 0) {
        let i = choose|i: int| 0 <= i < order.len() && #[trigger] order[i] == g && base@[g as int] && forall|j: int| 0 <= j < i ==> !base@[#[trigger] order[j] as int];
        assert(i == 0 || i == 1 || i == 2 || i == 3 || i == 4);
    }
}

/// A codepoint is asked about until it is known: the style font is taken
/// wherever it has it, else what was found for the width; what was noted of
/// one codepoint says nothing of another.
pub proof fn notes_are_kept_apart(fonts: &mut Fonts, then: &Fonts, cp: u32, style: u8, covers: bool, other: u32, other_style: u8, wide: bool, before: FontStep, after: FontStep)
    requires
        call_ensures(Fonts::note_style, (fonts, cp, style, covers), ()),
        *then == *final(fonts),
        call_ensures(Fonts::resolve, (&*old(fonts), other, other_style, wide), before),
        call_ensures(Fonts::resolve, (then, other, other_style, wide), after),
    ensures
        (other, other_style) == (cp, style) && covers ==> after == FontStep::Draw(style as usize),
        (other, other_style) == (cp, style) ==> after !is AskStyle,
        (other, other_style) == (cp, style) && !covers && before is AskStyle ==> after is AskFallback || after is Blank || after is Draw,
        (other, other_style) != (cp, style) ==> after == before,
{
    keys_are_apart(cp, style, wide, other, other_style, wide);
}

/// A codepoint that its style font lacks is drawn with the fallback that was
/// noted for its width, or left blank where nothing covers it.
pub proof fn noted_fallbacks_are_drawn(fonts: &mut Fonts, then: &Fonts, cp: u32, style: u8, wide: bool, font: Option<usize>, other: u32, other_wide: bool, before: FontStep, after: FontStep)
    requires
        call_ensures(Fonts::note_fallback, (fonts, cp, wide, font), ()),
        *then == *final(fonts),
        call_ensures(Fonts::resolve, (&*old(fonts), other, style, other_wide), before),
        call_ensures(Fonts::resolve, (then, other, style, other_wide), after),
    ensures
        (other, other_wide) == (cp, wide) && before is AskFallback && font is Some ==> after == FontStep::Draw(font->0),
        (other, other_wide) == (cp, wide) && before is AskFallback && font is None ==> after is Blank,
        before is AskStyle ==> after is AskStyle,
        (other, other_wide) != (cp, wide) ==> after == before,
{
    keys_are_apart(cp, style, wide, other, style, other_wide);
}

/// Nothing is known at first, so that everything is asked.
pub proof fn fresh_fonts_ask(fonts: &Fonts, cp: u32, style: u8, wide: bool, step: FontStep)
    requires
        call_ensures(Fonts::new, (), *fonts),
        call_ensures(Fonts::resolve, (fonts, cp, style, wide), step),
    ensures
        step is AskStyle,
{
}

/// A font file is loaded once.
pub proof fn font_files_are_loaded_once(first: &mut Fonts, then: &mut Fonts, a: String, b: String, load: bool, again: bool)
    requires
        call_ensures(Fonts::take_path, (first, a), load),
        call_ensures(Fonts::take_path, (then, b), again),
        *final(first) == *old(then),
    ensures
        a@ == b@ ==> !again,
        old(first).tried@.len() == 0 ==> load,
        a@ != b@ && old(first).tried@.len() == 0 ==> again,
{
    let paths = old(then).tried_paths();
    if load {
        assert(paths[paths.len() - 1] == a@);
    }
    assert(old(first).tried_paths().len() == old(first).tried@.len());
}

/// Discovered fonts stand behind the base fonts in the order they came, and
/// are told only where they have the codepoint.
pub proof fn discovered_fonts_are_kept(fonts: &mut Fonts, covers: bool, font: Option<usize>)
    requires
        call_ensures(Fonts::keep_font, (fonts, covers), font),
        old(fonts).extra < usize::MAX - 9,
    ensures
        final(fonts).extra == old(fonts).extra + 1,
        covers ==> font is Some && font->0 == 9 + old(fonts).extra,
        !covers ==> font is None,
{
}

/// Fonts are asked of the system only for characters.
pub proof fn only_characters_are_discovered(cp: u32, r: bool)
    requires
        call_ensures(discoverable, (cp,), r),
    ensures
        r <==> cp < 0xd800 || 0xdfff < cp < 0x11_0000,
{
}

/// A file per style, the two emoji fonts, the symbols, and two families of the
/// system stand in this order.
pub proof fn base_fonts_stand_in_order(list: Vec<FontSource>, regular: u8, bold: u8, italic: u8, both: u8)
    requires
        call_ensures(base_fonts, (), list),
        call_ensures(Fonts::style_index, (false, false), regular),
        call_ensures(Fonts::style_index, (true, false), bold),
        call_ensures(Fonts::style_index, (false, true), italic),
        call_ensures(Fonts::style_index, (true, true), both),
    ensures
        list@.len() == 9,
        list@[regular as int] == FontSource::Embedded("Regular") && regular == 0,
        list@[bold as int] == FontSource::Embedded("Bold") && bold == 1,
        list@[italic as int] == FontSource::Embedded("Italic") && italic == 2,
        list@[both as int] == FontSource::Embedded("BoldItalic") && both == 3,
        list@[4] == FontSource::Embedded("NotoEmoji"),
        list@[5] == FontSource::Embedded("JuliaMono"),
        list@[6] == FontSource::Embedded("NotoColorEmoji"),
        list@[7] == FontSource::Family("monospace"),
        list@[8] == FontSource::Family("sans-serif"),
{
}

/// A font that does not load is named.
pub proof fn failed_fonts_are_named(name: &str, message: String)
    requires
        call_ensures(load_failure, (name,), message),
    ensures
        message@ == "font "@ + name@ + " failed to parse"@,
{
}

} // verus!
