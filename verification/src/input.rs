//! Keyboard and mouse input: editor events become terminal key and mouse
//! events, and surface positions become cells.

use vstd::prelude::*;

use crate::fixed::{EXTENT, UNIT};

verus! {

/// Clicks closer together than this widen the selection, in milliseconds.
pub const CLICK_REPEAT_MS: u64 = 500;

// ---------------------------------------------------------------------------
// Geometry
// ---------------------------------------------------------------------------

/// Pixel geometry for mapping surface positions to cells.
#[derive(Clone, Copy, Debug, PartialEq, Eq, Structural)]
pub struct MouseGeometry {
    pub screen_width: u32,
    pub screen_height: u32,
    pub cell_width: u32,
    pub cell_height: u32,
    pub padding: u32,
}

/// Sizes the mouse encoder takes.
#[derive(Clone, Copy, Debug, PartialEq, Eq, Structural)]
pub struct EncoderSize {
    pub screen_width: u32,
    pub screen_height: u32,
    pub cell_width: u32,
    pub cell_height: u32,
    pub padding_top: u32,
    pub padding_bottom: u32,
    pub padding_left: u32,
    pub padding_right: u32,
}

/// Sizes a selection gesture takes.
#[derive(Clone, Copy, Debug, PartialEq, Eq, Structural)]
pub struct GestureGeometry {
    pub columns: u32,
    pub cell_width: u32,
    pub padding_left: u32,
    pub screen_height: u32,
}

/// A cell of the viewport.
#[derive(Clone, Copy, Debug, PartialEq, Eq, Structural)]
pub struct CellPoint {
    pub x: u16,
    pub y: u32,
}

pub open spec fn at_least_one(v: int) -> int {
    if v > 1 { v } else { 1 }
}

/// Cells along one axis; one where the terminal does not tell.
pub open spec fn cells(reported: Option<u16>) -> int {
    match reported {
        Some(n) => n as int,
        None => 1,
    }
}

/// The cell along one axis that a position falls into, the last one beyond the
/// grid and the first one before it.
pub open spec fn cell_at(pos: int, padding: int, cell: int, count: int) -> int {
    let last = if count > 0 { count - 1 } else { 0 };
    if pos <= padding * UNIT {
        0
    } else {
        let hit = (pos - padding * UNIT) / (at_least_one(cell) * UNIT);
        if hit < last { hit } else { last }
    }
}

fn cell_index(pos: i64, padding: u32, cell: u32, count: u16) -> (at: u16)
    requires
        -EXTENT <= pos <= EXTENT,
    ensures
        at == cell_at(pos as int, padding as int, cell as int, count as int),
        at == 0 || at < count,
{
    let pad: i64 = padding as i64 * UNIT;
    let size: i64 = cell.max(1) as i64 * UNIT;
    let last: i64 = count.saturating_sub(1) as i64;
    if pos > pad {
        let hit: i64 = (pos - pad) / size;
        assert(hit >= 0) by (nonlinear_arith)
            requires
                pos > pad,
                size > 0,
                hit == (pos - pad) / (size as int),
        ;
        (if hit < last { hit } else { last }) as u16
    } else {
        0
    }
}

impl MouseGeometry {
    pub fn encoder_size(self) -> (size: EncoderSize)
        ensures
            size == (EncoderSize {
                screen_width: self.screen_width,
                screen_height: self.screen_height,
                cell_width: self.cell_width,
                cell_height: self.cell_height,
                padding_top: self.padding,
                padding_bottom: self.padding,
                padding_left: self.padding,
                padding_right: self.padding,
            }),
    {
        EncoderSize {
            screen_width: self.screen_width,
            screen_height: self.screen_height,
            cell_width: self.cell_width,
            cell_height: self.cell_height,
            padding_top: self.padding,
            padding_bottom: self.padding,
            padding_left: self.padding,
            padding_right: self.padding,
        }
    }

    /// `cols` is the terminal's width, where it tells.
    pub fn gesture_geometry(self, cols: Option<u16>) -> (geo: GestureGeometry)
        ensures
            geo.columns == cells(cols),
            geo.cell_width == at_least_one(self.cell_width as int),
            geo.padding_left == self.padding,
            geo.screen_height == at_least_one(self.screen_height as int),
    {
        let columns: u32 = match cols {
            Some(n) => n as u32,
            None => 1,
        };
        GestureGeometry {
            columns,
            cell_width: self.cell_width.max(1),
            padding_left: self.padding,
            screen_height: self.screen_height.max(1),
        }
    }

    /// The cell under a position in fixed-point pixels, clamped to the
    /// viewport.
    pub fn viewport_point(self, cols: Option<u16>, rows: Option<u16>, x: i64, y: i64) -> (point: CellPoint)
        requires
            -EXTENT <= x <= EXTENT,
            -EXTENT <= y <= EXTENT,
        ensures
            point.x == cell_at(x as int, self.padding as int, self.cell_width as int, cells(cols)),
            point.y == cell_at(y as int, self.padding as int, self.cell_height as int, cells(rows)),
    {
        let cols: u16 = match cols {
            Some(n) => n,
            None => 1,
        };
        let rows: u16 = match rows {
            Some(n) => n,
            None => 1,
        };
        CellPoint {
            x: cell_index(x, self.padding, self.cell_width, cols),
            y: cell_index(y, self.padding, self.cell_height, rows) as u32,
        }
    }
}

/// Whatever the position, the cell lies in a grid that has any.
pub proof fn points_stay_in_the_grid(pos: int, padding: int, cell: int, count: int)
    requires
        0 <= padding,
        1 <= count,
    ensures
        0 <= cell_at(pos, padding, cell, count) < count,
{
    let size = at_least_one(cell) * UNIT;
    if pos > padding * UNIT {
        assert((pos - padding * UNIT) / size >= 0) by (nonlinear_arith)
            requires
                pos > padding * UNIT,
                size > 0,
        ;
    }
}

/// A position inside the area that a cell is painted on maps to that cell.
pub proof fn painted_cells_are_hit(m: crate::paint::Metrics, count: int, col: int, pos: int)
    requires
        m.valid(),
        0 <= col < count,
        crate::paint::column_x(m, col) * UNIT <= pos < crate::paint::column_x(m, col + 1) * UNIT,
    ensures
        cell_at(pos, crate::paint::PAD as int, m.cell_w as int, count) == col,
{
    let w = m.cell_w as int;
    let pad = crate::paint::PAD as int;
    let size = w * UNIT;
    let off = pos - pad * UNIT;
    assert((pad + col * w) * UNIT == pad * UNIT + col * size && (pad + (col + 1) * w) * UNIT == pad * UNIT + (col + 1) * size) by (nonlinear_arith)
        requires
            size == w * UNIT,
    ;
    assert(col * size <= off < (col + 1) * size);
    assert(size > 0);
    assert(off / size == col) by (nonlinear_arith)
        requires
            col * size <= off < (col + 1) * size,
            size > 0,
    ;
    if pos <= pad * UNIT {
        assert(col == 0) by (nonlinear_arith)
            requires
                col * size <= 0,
                size > 0,
                col >= 0,
        ;
    }
}

// ---------------------------------------------------------------------------
// Keys
// ---------------------------------------------------------------------------

/// Modifier keys held.
#[derive(Clone, Copy, Debug, PartialEq, Eq, Structural)]
pub struct Mods {
    pub shift: bool,
    pub ctrl: bool,
    pub alt: bool,
    pub logo: bool,
}

/// Modifiers of an editor event; its meta key is the terminal's super key.
pub fn event_mods(shift: bool, ctrl: bool, alt: bool, meta: bool) -> (mods: Mods)
    ensures
        mods == (Mods { shift, ctrl, alt, logo: meta }),
{
    Mods { shift, ctrl, alt, logo: meta }
}

/// A physical key as the terminal names it. Letters, digits, keypad digits and
/// function keys go by their number.
#[derive(Clone, Copy, Debug, PartialEq, Eq, Structural)]
pub enum VtKey {
    Unidentified,
    Letter(u8),
    Digit(u8),
    Numpad(u8),
    Function(u8),
    Space,
    Enter,
    NumpadEnter,
    NumpadDecimal,
    NumpadAdd,
    NumpadSubtract,
    NumpadMultiply,
    NumpadDivide,
    Tab,
    Backspace,
    Escape,
    ArrowUp,
    ArrowDown,
    ArrowLeft,
    ArrowRight,
    Home,
    End,
    PageUp,
    PageDown,
    Insert,
    Delete,
    Minus,
    Equal,
    BracketLeft,
    BracketRight,
    Backslash,
    Semicolon,
    Quote,
    Comma,
    Period,
    Slash,
    Backquote,
}

/// Editor keycodes that a key is looked up by.
pub const KEY_SPACE: i32 = 32;
pub const KEY_APOSTROPHE: i32 = 39;
pub const KEY_COMMA: i32 = 44;
pub const KEY_MINUS: i32 = 45;
pub const KEY_PERIOD: i32 = 46;
pub const KEY_SLASH: i32 = 47;
pub const KEY_0: i32 = 48;
pub const KEY_9: i32 = 57;
pub const KEY_SEMICOLON: i32 = 59;
pub const KEY_EQUAL: i32 = 61;
pub const KEY_A: i32 = 65;
pub const KEY_C: i32 = 67;
pub const KEY_V: i32 = 86;
pub const KEY_Z: i32 = 90;
pub const KEY_BRACKETLEFT: i32 = 91;
pub const KEY_BACKSLASH: i32 = 92;
pub const KEY_BRACKETRIGHT: i32 = 93;
pub const KEY_QUOTELEFT: i32 = 96;
pub const KEY_ESCAPE: i32 = 4194305;
pub const KEY_TAB: i32 = 4194306;
pub const KEY_BACKSPACE: i32 = 4194308;
pub const KEY_ENTER: i32 = 4194309;
pub const KEY_KP_ENTER: i32 = 4194310;
pub const KEY_INSERT: i32 = 4194311;
pub const KEY_DELETE: i32 = 4194312;
pub const KEY_HOME: i32 = 4194317;
pub const KEY_END: i32 = 4194318;
pub const KEY_LEFT: i32 = 4194319;
pub const KEY_UP: i32 = 4194320;
pub const KEY_RIGHT: i32 = 4194321;
pub const KEY_DOWN: i32 = 4194322;
pub const KEY_PAGEUP: i32 = 4194323;
pub const KEY_PAGEDOWN: i32 = 4194324;
pub const KEY_F1: i32 = 4194332;
pub const KEY_F12: i32 = 4194343;
pub const KEY_KP_MULTIPLY: i32 = 4194433;
pub const KEY_KP_DIVIDE: i32 = 4194434;
pub const KEY_KP_SUBTRACT: i32 = 4194435;
pub const KEY_KP_PERIOD: i32 = 4194436;
pub const KEY_KP_ADD: i32 = 4194437;
pub const KEY_KP_0: i32 = 4194438;
pub const KEY_KP_9: i32 = 4194447;

/// The key of a code, where the terminal knows it.
pub open spec fn key_of(code: i32) -> VtKey {
    if KEY_A <= code <= KEY_Z {
        VtKey::Letter((code - KEY_A) as u8)
    } else if KEY_0 <= code <= KEY_9 {
        VtKey::Digit((code - KEY_0) as u8)
    } else if KEY_KP_0 <= code <= KEY_KP_9 {
        VtKey::Numpad((code - KEY_KP_0) as u8)
    } else if KEY_F1 <= code <= KEY_F12 {
        VtKey::Function((code - KEY_F1 + 1) as u8)
    } else {
        match code {
            KEY_SPACE => VtKey::Space,
            KEY_ENTER => VtKey::Enter,
            KEY_KP_ENTER => VtKey::NumpadEnter,
            KEY_KP_PERIOD => VtKey::NumpadDecimal,
            KEY_KP_ADD => VtKey::NumpadAdd,
            KEY_KP_SUBTRACT => VtKey::NumpadSubtract,
            KEY_KP_MULTIPLY => VtKey::NumpadMultiply,
            KEY_KP_DIVIDE => VtKey::NumpadDivide,
            KEY_TAB => VtKey::Tab,
            KEY_BACKSPACE => VtKey::Backspace,
            KEY_ESCAPE => VtKey::Escape,
            KEY_UP => VtKey::ArrowUp,
            KEY_DOWN => VtKey::ArrowDown,
            KEY_LEFT => VtKey::ArrowLeft,
            KEY_RIGHT => VtKey::ArrowRight,
            KEY_HOME => VtKey::Home,
            KEY_END => VtKey::End,
            KEY_PAGEUP => VtKey::PageUp,
            KEY_PAGEDOWN => VtKey::PageDown,
            KEY_INSERT => VtKey::Insert,
            KEY_DELETE => VtKey::Delete,
            KEY_MINUS => VtKey::Minus,
            KEY_EQUAL => VtKey::Equal,
            KEY_BRACKETLEFT => VtKey::BracketLeft,
            KEY_BRACKETRIGHT => VtKey::BracketRight,
            KEY_BACKSLASH => VtKey::Backslash,
            KEY_SEMICOLON => VtKey::Semicolon,
            KEY_APOSTROPHE => VtKey::Quote,
            KEY_COMMA => VtKey::Comma,
            KEY_PERIOD => VtKey::Period,
            KEY_SLASH => VtKey::Slash,
            KEY_QUOTELEFT => VtKey::Backquote,
            _ => VtKey::Unidentified,
        }
    }
}

/// What a key types without shift; zero for keys that type nothing. Printable
/// keycodes are their own character, letters as capitals.
pub open spec fn unshifted_of(code: i32) -> char {
    if KEY_A <= code <= KEY_Z {
        (code + 32) as char
    } else if code < 128 {
        code as char
    } else if KEY_KP_0 <= code <= KEY_KP_9 {
        (code - KEY_KP_0 + '0' as int) as char
    } else {
        match code {
            KEY_KP_PERIOD => '.',
            KEY_KP_ADD => '+',
            KEY_KP_SUBTRACT => '-',
            KEY_KP_MULTIPLY => '*',
            KEY_KP_DIVIDE => '/',
            _ => '\0',
        }
    }
}

/// Editor keycode to the terminal's key plus its unshifted character.
pub fn map_key(code: i32) -> (mapped: Option<(VtKey, char)>)
    ensures
        mapped is None <==> key_of(code) is Unidentified,
        mapped matches Some((key, ch)) ==> key == key_of(code) && ch == unshifted_of(code),
{
    if KEY_A <= code && code <= KEY_Z {
        let ch: char = (code - KEY_A + 97) as u8 as char;
        return Some((VtKey::Letter((code - KEY_A) as u8), ch));
    }
    if KEY_0 <= code && code <= KEY_9 {
        let ch: char = code as u8 as char;
        return Some((VtKey::Digit((code - KEY_0) as u8), ch));
    }
    if KEY_KP_0 <= code && code <= KEY_KP_9 {
        let ch: char = (code - KEY_KP_0 + 48) as u8 as char;
        return Some((VtKey::Numpad((code - KEY_KP_0) as u8), ch));
    }
    if KEY_F1 <= code && code <= KEY_F12 {
        return Some((VtKey::Function((code - KEY_F1 + 1) as u8), '\0'));
    }
    match code {
        KEY_SPACE => Some((VtKey::Space, ' ')),
        KEY_ENTER => Some((VtKey::Enter, '\0')),
        KEY_KP_ENTER => Some((VtKey::NumpadEnter, '\0')),
        KEY_KP_PERIOD => Some((VtKey::NumpadDecimal, '.')),
        KEY_KP_ADD => Some((VtKey::NumpadAdd, '+')),
        KEY_KP_SUBTRACT => Some((VtKey::NumpadSubtract, '-')),
        KEY_KP_MULTIPLY => Some((VtKey::NumpadMultiply, '*')),
        KEY_KP_DIVIDE => Some((VtKey::NumpadDivide, '/')),
        KEY_TAB => Some((VtKey::Tab, '\0')),
        KEY_BACKSPACE => Some((VtKey::Backspace, '\0')),
        KEY_ESCAPE => Some((VtKey::Escape, '\0')),
        KEY_UP => Some((VtKey::ArrowUp, '\0')),
        KEY_DOWN => Some((VtKey::ArrowDown, '\0')),
        KEY_LEFT => Some((VtKey::ArrowLeft, '\0')),
        KEY_RIGHT => Some((VtKey::ArrowRight, '\0')),
        KEY_HOME => Some((VtKey::Home, '\0')),
        KEY_END => Some((VtKey::End, '\0')),
        KEY_PAGEUP => Some((VtKey::PageUp, '\0')),
        KEY_PAGEDOWN => Some((VtKey::PageDown, '\0')),
        KEY_INSERT => Some((VtKey::Insert, '\0')),
        KEY_DELETE => Some((VtKey::Delete, '\0')),
        KEY_MINUS => Some((VtKey::Minus, '-')),
        KEY_EQUAL => Some((VtKey::Equal, '=')),
        KEY_BRACKETLEFT => Some((VtKey::BracketLeft, '[')),
        KEY_BRACKETRIGHT => Some((VtKey::BracketRight, ']')),
        KEY_BACKSLASH => Some((VtKey::Backslash, '\\')),
        KEY_SEMICOLON => Some((VtKey::Semicolon, ';')),
        KEY_APOSTROPHE => Some((VtKey::Quote, '\'')),
        KEY_COMMA => Some((VtKey::Comma, ',')),
        KEY_PERIOD => Some((VtKey::Period, '.')),
        KEY_SLASH => Some((VtKey::Slash, '/')),
        KEY_QUOTELEFT => Some((VtKey::Backquote, '`')),
        _ => None,
    }
}

/// No two keycodes share a key.
pub proof fn keys_are_distinct(a: i32, b: i32)
    requires
        key_of(a) == key_of(b),
        key_of(a) !is Unidentified,
    ensures
        a == b,
{
}

#[derive(Clone, Copy, Debug, PartialEq, Eq, Structural)]
pub enum KeyAction {
    Press,
    Repeat,
    Release,
}

/// What a key event of the editor tells.
#[derive(Clone, Copy, Debug, PartialEq, Eq, Structural)]
pub struct KeyPress {
    pub echo: bool,
    pub pressed: bool,
    pub keycode: i32,
    /// Codepoint the key produced, zero for none.
    pub unicode: u32,
    pub mods: Mods,
}

/// What the key encoder is handed.
#[derive(Clone, Copy, Debug, PartialEq, Eq, Structural)]
pub struct KeyEvent {
    pub action: KeyAction,
    pub key: VtKey,
    pub unshifted: char,
    pub mods: Mods,
    pub consumed: Mods,
    /// Codepoint of the text produced; a Unicode scalar value.
    pub text: Option<u32>,
}

pub open spec fn action_of(ev: KeyPress) -> KeyAction {
    if ev.echo {
        KeyAction::Repeat
    } else if ev.pressed {
        KeyAction::Press
    } else {
        KeyAction::Release
    }
}

/// Windows reports AltGr as Ctrl+Alt.
pub open spec fn is_altgr(windows: bool, mods: Mods) -> bool {
    windows && mods.ctrl && mods.alt
}

/// The text a key event carries: printable, not on release, and not in control
/// combos, whose text the encoder derives itself. AltGr combos do carry text.
pub open spec fn text_of(windows: bool, ev: KeyPress) -> Option<u32> {
    if vstd::utf8::is_scalar(ev.unicode) && !(action_of(ev) is Release) && ev.unicode >= 0x20 && ev.unicode != 0x7f && (!ev.mods.ctrl
        || is_altgr(windows, ev.mods)) && !ev.mods.logo {
        Some(ev.unicode)
    } else {
        None
    }
}

/// Modifiers that already shaped the produced text.
pub open spec fn consumed_of(windows: bool, ev: KeyPress) -> Mods {
    let text = text_of(windows, ev) is Some;
    let altgr = is_altgr(windows, ev.mods);
    Mods {
        shift: text && ev.mods.shift,
        ctrl: text && altgr,
        alt: text && altgr,
        logo: false,
    }
}

/// Input translation for one platform.
pub struct Input {
    pub windows: bool,
}

#[derive(Clone, Copy, Debug, PartialEq, Eq, Structural)]
pub enum MouseKey {
    Left,
    Right,
    Middle,
    Four,
    Five,
}

#[derive(Clone, Copy, Debug, PartialEq, Eq, Structural)]
pub enum MouseAction {
    Press,
    Release,
    Motion,
}

/// What the mouse encoder is handed, at the event's position.
#[derive(Clone, Copy, Debug, PartialEq, Eq, Structural)]
pub struct MouseEvent {
    pub button: Option<MouseKey>,
    pub action: MouseAction,
    pub mods: Mods,
    /// Set on motion: a button is held, and repeats within a cell are merged.
    pub any_pressed: Option<bool>,
    pub track_last_cell: bool,
}

impl Input {
    pub fn new(windows: bool) -> (input: Input)
        ensures
            input.windows == windows,
    {
        Input { windows }
    }

    /// Key event of the editor to the terminal's.
    pub fn encode_key(&self, ev: &KeyPress) -> (event: KeyEvent)
        ensures
            event.action == action_of(*ev),
            event.key == key_of(ev.keycode),
            event.unshifted == (if key_of(ev.keycode) is Unidentified { '\0' } else { unshifted_of(ev.keycode) }),
            event.mods == ev.mods,
            event.consumed == consumed_of(self.windows, *ev),
            event.text == text_of(self.windows, *ev),
    {
        let action = if ev.echo {
            KeyAction::Repeat
        } else if ev.pressed {
            KeyAction::Press
        } else {
            KeyAction::Release
        };
        let mods = ev.mods;
        let (key, unshifted) = match map_key(ev.keycode) {
            Some(mapped) => mapped,
            None => (VtKey::Unidentified, '\0'),
        };
        // Control combos carry no text; the encoder derives them itself.
        // Windows reports AltGr as Ctrl+Alt, and those combos do carry text.
        let unicode: u32 = ev.unicode;
        let scalar: bool = unicode <= 0xd7ff || (0xe000 <= unicode && unicode <= 0x10ffff);
        let altgr: bool = self.windows && mods.ctrl && mods.alt;
        let text: Option<u32> = if scalar && action != KeyAction::Release && unicode >= 0x20 && unicode != 0x7f && (!mods.ctrl || altgr)
            && !mods.logo {
            Some(unicode)
        } else {
            None
        };
        // Modifiers that already shaped the produced text are consumed.
        let consumed: Mods = match text {
            Some(_) => Mods { shift: mods.shift, ctrl: altgr, alt: altgr, logo: false },
            None => Mods { shift: false, ctrl: false, alt: false, logo: false },
        };
        KeyEvent { action, key, unshifted, mods, consumed, text }
    }

    pub fn encode_button(&self, button: MouseKey, pressed: bool, mods: Mods) -> (event: MouseEvent)
        ensures
            event == (MouseEvent {
                button: Some(button),
                action: if pressed { MouseAction::Press } else { MouseAction::Release },
                mods,
                any_pressed: None,
                track_last_cell: false,
            }),
    {
        MouseEvent {
            button: Some(button),
            action: if pressed { MouseAction::Press } else { MouseAction::Release },
            mods,
            any_pressed: None,
            track_last_cell: false,
        }
    }

    pub fn encode_motion(&self, held: Option<MouseKey>, mods: Mods) -> (event: MouseEvent)
        ensures
            event == (MouseEvent {
                button: held,
                action: MouseAction::Motion,
                mods,
                any_pressed: Some(held is Some),
                track_last_cell: true,
            }),
    {
        let pressed: bool = match held {
            Some(_) => true,
            None => false,
        };
        MouseEvent { button: held, action: MouseAction::Motion, mods, any_pressed: Some(pressed), track_last_cell: true }
    }

    /// Wheel tick as mouse button four or five, press then release.
    pub fn encode_scroll(&self, up: bool, mods: Mods) -> (events: Vec<MouseEvent>)
        ensures
            ({
                let button = Some(if up { MouseKey::Four } else { MouseKey::Five });
                events@ == seq![
                    MouseEvent { button, action: MouseAction::Press, mods, any_pressed: None, track_last_cell: false },
                    MouseEvent { button, action: MouseAction::Release, mods, any_pressed: None, track_last_cell: false },
                ]
            }),
    {
        let button = if up { MouseKey::Four } else { MouseKey::Five };
        let mut events: Vec<MouseEvent> = Vec::new();
        events.push(self.encode_button(button, true, mods));
        events.push(self.encode_button(button, false, mods));
        events
    }
}

/// Modifiers are consumed only where text was produced, and only ones that
/// were held.
pub proof fn consumed_modifiers_were_held(windows: bool, ev: KeyPress)
    ensures
        ({
            let c = consumed_of(windows, ev);
            &&& c.shift ==> ev.mods.shift
            &&& c.ctrl ==> ev.mods.ctrl
            &&& c.alt ==> ev.mods.alt
            &&& text_of(windows, ev) is None ==> !c.shift && !c.ctrl && !c.alt
        }),
{
}

// ---------------------------------------------------------------------------
// What typing and pointing come to
// ---------------------------------------------------------------------------

/// A key that is held goes on typing: an echo carries the text, the consumed
/// modifiers and the key that its press carried, and is told as a repeat.
pub proof fn held_keys_go_on_typing(input: &Input, press: &KeyPress, echo: &KeyPress, first: KeyEvent, next: KeyEvent)
    requires
        call_ensures(Input::encode_key, (input, press), first),
        call_ensures(Input::encode_key, (input, echo), next),
        press.pressed,
        !press.echo,
        *echo == (KeyPress { echo: true, ..*press }),
    ensures
        next == (KeyEvent { action: KeyAction::Repeat, ..first }),
        first.action is Press,
{
}

/// A printable character that a press or a repeat produced without control and
/// super is the text of the event, and shift went into it where it was held.
/// On release the key types nothing.
pub proof fn printable_keys_type_themselves(input: &Input, ev: &KeyPress, event: KeyEvent)
    requires
        call_ensures(Input::encode_key, (input, ev), event),
        0x20 <= ev.unicode <= 0xd7ff || 0xe000 <= ev.unicode <= 0x10ffff,
        ev.unicode != 0x7f,
        !ev.mods.ctrl,
        !ev.mods.logo,
    ensures
        ev.pressed || ev.echo ==> event.text == Some(ev.unicode) && event.consumed.shift == ev.mods.shift,
        !ev.pressed && !ev.echo ==> event.text is None && !event.consumed.shift,
        !event.consumed.ctrl && !event.consumed.alt && !event.consumed.logo,
{
}

/// On Windows control and alt together are AltGr, which types: both went into
/// the text. Anywhere else control leaves the text to the encoder, and so does
/// super everywhere.
pub proof fn only_altgr_types_with_control(input: &Input, ev: &KeyPress, event: KeyEvent)
    requires
        call_ensures(Input::encode_key, (input, ev), event),
        ev.mods.ctrl || ev.mods.logo,
    ensures
        ev.mods.logo || !input.windows || !ev.mods.alt ==> event.text is None,
        input.windows && ev.mods.ctrl && ev.mods.alt && !ev.mods.logo && (ev.pressed || ev.echo) && 0x20 <= ev.unicode < 0x7f ==> event.text == Some(
            ev.unicode,
        ) && event.consumed == (Mods { shift: ev.mods.shift, ctrl: true, alt: true, logo: false }),
        event.text is None ==> event.consumed == (Mods { shift: false, ctrl: false, alt: false, logo: false }),
{
}

/// Control characters and numbers that are no characters are never text, and
/// a text is always the codepoint that the key produced.
pub proof fn texts_are_characters(input: &Input, ev: &KeyPress, event: KeyEvent)
    requires
        call_ensures(Input::encode_key, (input, ev), event),
    ensures
        event.text matches Some(cp) ==> cp == ev.unicode && 0x20 <= cp <= 0x10ffff && cp != 0x7f && !(0xd800 <= cp <= 0xdfff),
        event.mods == ev.mods,
        event.action is Release <==> !ev.pressed && !ev.echo,
        event.action is Repeat <==> ev.echo,
{
}

/// The keycode that the editor gives a key.
pub open spec fn keycode_of(key: VtKey) -> int {
    match key {
        VtKey::Unidentified => 0,
        VtKey::Letter(n) => 65 + n,
        VtKey::Digit(n) => 48 + n,
        VtKey::Numpad(n) => 0x400086 + n,
        VtKey::Function(n) => 0x40001b + n,
        VtKey::Space => 0x20,
        VtKey::Enter => 0x400005,
        VtKey::NumpadEnter => 0x400006,
        VtKey::NumpadDecimal => 0x400084,
        VtKey::NumpadAdd => 0x400085,
        VtKey::NumpadSubtract => 0x400083,
        VtKey::NumpadMultiply => 0x400081,
        VtKey::NumpadDivide => 0x400082,
        VtKey::Tab => 0x400002,
        VtKey::Backspace => 0x400004,
        VtKey::Escape => 0x400001,
        VtKey::ArrowUp => 0x400010,
        VtKey::ArrowDown => 0x400012,
        VtKey::ArrowLeft => 0x40000f,
        VtKey::ArrowRight => 0x400011,
        VtKey::Home => 0x40000d,
        VtKey::End => 0x40000e,
        VtKey::PageUp => 0x400013,
        VtKey::PageDown => 0x400014,
        VtKey::Insert => 0x400007,
        VtKey::Delete => 0x400008,
        VtKey::Minus => 0x2d,
        VtKey::Equal => 0x3d,
        VtKey::BracketLeft => 0x5b,
        VtKey::BracketRight => 0x5d,
        VtKey::Backslash => 0x5c,
        VtKey::Semicolon => 0x3b,
        VtKey::Quote => 0x27,
        VtKey::Comma => 0x2c,
        VtKey::Period => 0x2e,
        VtKey::Slash => 0x2f,
        VtKey::Backquote => 0x60,
    }
}

/// The key exists: letters, digits and function keys go only so far.
pub open spec fn exists_on_keyboards(key: VtKey) -> bool {
    match key {
        VtKey::Unidentified => false,
        VtKey::Letter(n) => n < 26,
        VtKey::Digit(n) => n < 10,
        VtKey::Numpad(n) => n < 10,
        VtKey::Function(n) => 1 <= n <= 12,
        _ => true,
    }
}

/// Every key is found under its own keycode, and every keycode that finds a
/// key is that key's.
pub proof fn keys_are_found_by_their_codes(code: i32, key: VtKey, mapped: Option<(VtKey, char)>)
    requires
        call_ensures(map_key, (code,), mapped),
    ensures
        exists_on_keyboards(key) && code == keycode_of(key) ==> (mapped matches Some((found, _)) && found == key),
        mapped matches Some((found, _)) ==> exists_on_keyboards(found) && code == keycode_of(found),
{
}

/// A key with a plain ASCII keycode types that character without shift, in
/// lower case; the keypad types what its keys show; the others type nothing.
pub proof fn unshifted_characters_are_on_the_keys(code: i32, mapped: Option<(VtKey, char)>)
    requires
        call_ensures(map_key, (code,), mapped),
        mapped is Some,
    ensures
        ({
            let (key, ch) = mapped->0;
            &&& code < 0x80 && !(0x41 <= code <= 0x5a) ==> ch as u32 == code
            &&& 0x41 <= code <= 0x5a ==> ch as u32 == code + 0x20
            &&& key matches VtKey::Numpad(n) ==> ch as u32 == 0x30 + n
            &&& key is NumpadDecimal ==> ch == '.'
            &&& key is NumpadAdd ==> ch == '+'
            &&& key is NumpadSubtract ==> ch == '-'
            &&& key is NumpadMultiply ==> ch == '*'
            &&& key is NumpadDivide ==> ch == '/'
            &&& code >= 0x80 && !(key is Numpad) && !(0x400081 <= code <= 0x400085) ==> ch == '\0'
        }),
{
}

/// An event names the key of its code with what that types, or no key at all.
pub proof fn events_name_their_key(input: &Input, ev: &KeyPress, event: KeyEvent, mapped: Option<(VtKey, char)>)
    requires
        call_ensures(Input::encode_key, (input, ev), event),
        call_ensures(map_key, (ev.keycode,), mapped),
    ensures
        mapped matches Some((key, ch)) ==> event.key == key && event.unshifted == ch,
        mapped is None ==> event.key is Unidentified && event.unshifted == '\0',
{
}

/// A position inside the pixels of a cell maps to that cell; before the grid
/// it maps to the first one and behind the grid to the last.
pub proof fn positions_find_their_cell(geo: MouseGeometry, cols: u16, rows: u16, x: i64, y: i64, col: int, row: int, point: CellPoint)
    requires
        call_ensures(MouseGeometry::viewport_point, (geo, Some(cols), Some(rows), x, y), point),
        geo.cell_width > 0,
        geo.cell_height > 0,
        0 <= col < cols,
        0 <= row < rows,
    ensures
        col * (geo.cell_width * UNIT) <= x - geo.padding * UNIT < (col + 1) * (geo.cell_width * UNIT) ==> point.x == col,
        row * (geo.cell_height * UNIT) <= y - geo.padding * UNIT < (row + 1) * (geo.cell_height * UNIT) ==> point.y == row,
        x <= geo.padding * UNIT ==> point.x == 0,
        y <= geo.padding * UNIT ==> point.y == 0,
        x - geo.padding * UNIT >= cols * (geo.cell_width * UNIT) ==> point.x == cols - 1,
        y - geo.padding * UNIT >= rows * (geo.cell_height * UNIT) ==> point.y == rows - 1,
{
    axis_finds_its_cell(x as int, geo.padding as int, geo.cell_width as int, cols as int, col);
    axis_finds_its_cell(y as int, geo.padding as int, geo.cell_height as int, rows as int, row);
}

proof fn axis_finds_its_cell(pos: int, padding: int, cell: int, count: int, at: int)
    requires
        cell > 0,
        0 <= padding,
        0 <= at < count,
    ensures
        at * (cell * UNIT) <= pos - padding * UNIT < (at + 1) * (cell * UNIT) ==> cell_at(pos, padding, cell, count) == at,
        pos <= padding * UNIT ==> cell_at(pos, padding, cell, count) == 0,
        pos - padding * UNIT >= count * (cell * UNIT) ==> cell_at(pos, padding, cell, count) == count - 1,
{
    let size = cell * UNIT;
    let off = pos - padding * UNIT;
    assert(size > 0);
    if at * size <= off < (at + 1) * size {
        assert(off / size == at) by (nonlinear_arith)
            requires
                at * size <= off < (at + 1) * size,
                size > 0,
        ;
        if off <= 0 {
            assert(at == 0) by (nonlinear_arith)
                requires
                    at * size <= 0,
                    size > 0,
                    at >= 0,
            ;
        }
    }
    if off >= count * size {
        assert(off / size >= count) by (nonlinear_arith)
            requires
                off >= count * size,
                size > 0,
        ;
        assert(off > 0) by (nonlinear_arith)
            requires
                off >= count * size,
                size > 0,
                count > 0,
        ;
    }
}

/// What a selection gesture measures with agrees with the grid, and no size in
/// it is zero where the terminal tells its width.
pub proof fn gestures_measure_the_grid(geo: MouseGeometry, cols: Option<u16>, gesture: GestureGeometry, size: EncoderSize)
    requires
        call_ensures(MouseGeometry::gesture_geometry, (geo, cols), gesture),
        call_ensures(MouseGeometry::encoder_size, (geo,), size),
    ensures
        cols matches Some(n) ==> gesture.columns == n,
        cols is None ==> gesture.columns == 1,
        gesture.cell_width >= 1 && gesture.screen_height >= 1,
        geo.cell_width > 0 ==> gesture.cell_width == geo.cell_width && size.cell_width == geo.cell_width,
        geo.screen_height > 0 ==> gesture.screen_height == geo.screen_height && size.screen_height == geo.screen_height,
        gesture.padding_left == geo.padding,
        size.padding_left == geo.padding && size.padding_right == geo.padding && size.padding_top == geo.padding && size.padding_bottom
            == geo.padding,
        size.screen_width == geo.screen_width && size.cell_height == geo.cell_height,
{
}

/// A wheel tick is a click: the button goes down and up again, and up and down
/// ticks are different buttons. A click is told like any other button's.
pub proof fn wheel_ticks_are_clicks(input: &Input, mods: Mods, up: Vec<MouseEvent>, down: Vec<MouseEvent>, button: MouseKey, press: MouseEvent, release: MouseEvent)
    requires
        call_ensures(Input::encode_scroll, (input, true, mods), up),
        call_ensures(Input::encode_scroll, (input, false, mods), down),
        call_ensures(Input::encode_button, (input, button, true, mods), press),
        call_ensures(Input::encode_button, (input, button, false, mods), release),
    ensures
        button is Four ==> up@ == seq![press, release],
        button is Five ==> down@ == seq![press, release],
        press.button == Some(button) && press.mods == mods && press.action is Press,
        release == (MouseEvent { action: MouseAction::Release, ..press }),
        press.any_pressed is None && !press.track_last_cell,
{
}

/// A motion tells the button held, and that one is.
pub proof fn motions_tell_the_button_held(input: &Input, held: Option<MouseKey>, mods: Mods, event: MouseEvent)
    requires
        call_ensures(Input::encode_motion, (input, held, mods), event),
    ensures
        event.action is Motion,
        event.button == held,
        event.any_pressed == Some(true) <==> held is Some,
        event.any_pressed is Some && event.track_last_cell && event.mods == mods,
{
}

/// Modifiers of the editor's event are the terminal's, meta being super.
pub proof fn modifiers_are_kept_apart(shift: bool, ctrl: bool, alt: bool, meta: bool, mods: Mods)
    requires
        call_ensures(event_mods, (shift, ctrl, alt, meta), mods),
    ensures
        mods.shift == shift && mods.ctrl == ctrl && mods.alt == alt && mods.logo == meta,
{
}

/// The platform that keys are read for is the one that was asked for.
pub proof fn inputs_keep_their_platform(windows: bool, input: Input)
    requires
        call_ensures(Input::new, (windows,), input),
    ensures
        input.windows == windows,
{
}

} // verus!
