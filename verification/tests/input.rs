use godot::global::{Key, MouseButton, MouseButtonMask};
use godot::obj::{EngineBitfield, EngineEnum};
use godotty::fixed::UNIT;
use godotty::input::{
    event_mods, map_key, CellPoint, Input, KeyAction, KeyPress, Mods, MouseAction, MouseGeometry, MouseKey, VtKey, CLICK_REPEAT_MS,
};
use godotty::terminal;

const NONE: Mods = Mods { shift: false, ctrl: false, alt: false, logo: false };

fn geometry() -> MouseGeometry {
    MouseGeometry { screen_width: 648, screen_height: 392, cell_width: 8, cell_height: 16, padding: 4 }
}

fn at(x: i64, y: i64) -> CellPoint {
    geometry().viewport_point(Some(80), Some(24), x, y)
}

fn press(keycode: i32, unicode: u32, mods: Mods) -> KeyPress {
    KeyPress { echo: false, pressed: true, keycode, unicode, mods }
}

#[test]
fn positions_map_to_cells() {
    assert_eq!(at(4 * UNIT, 4 * UNIT), CellPoint { x: 0, y: 0 });
    assert_eq!(at(12 * UNIT - 1, 20 * UNIT - 1), CellPoint { x: 0, y: 0 });
    assert_eq!(at(12 * UNIT, 20 * UNIT), CellPoint { x: 1, y: 1 });
    assert_eq!(at(100 * UNIT + UNIT / 2, 100 * UNIT), CellPoint { x: 12, y: 6 });
}

#[test]
fn positions_outside_are_clamped() {
    assert_eq!(at(-50 * UNIT, 2 * UNIT), CellPoint { x: 0, y: 0 });
    assert_eq!(at(5000 * UNIT, 5000 * UNIT), CellPoint { x: 79, y: 23 });
    let g = MouseGeometry { cell_width: 0, cell_height: 0, ..geometry() };
    assert_eq!(g.viewport_point(None, Some(0), 100 * UNIT, 100 * UNIT), CellPoint { x: 0, y: 0 });
    assert_eq!(g.viewport_point(Some(10), Some(10), 9 * UNIT, 7 * UNIT), CellPoint { x: 5, y: 3 });
}

#[test]
fn painted_cells_are_hit_by_their_pixels() {
    for col in 0..80i64 {
        let left = (4 + col * 8) * UNIT;
        assert_eq!(at(left, 4 * UNIT).x as i64, col);
        assert_eq!(at(left + 8 * UNIT - 1, 4 * UNIT).x as i64, col);
    }
}

#[test]
fn sizes_for_encoder_and_gesture() {
    let size = geometry().encoder_size();
    assert_eq!((size.screen_width, size.screen_height, size.cell_width, size.cell_height), (648, 392, 8, 16));
    assert_eq!((size.padding_top, size.padding_bottom, size.padding_left, size.padding_right), (4, 4, 4, 4));
    let gesture = geometry().gesture_geometry(Some(80));
    assert_eq!((gesture.columns, gesture.cell_width, gesture.padding_left, gesture.screen_height), (80, 8, 4, 392));
    let empty = MouseGeometry { screen_width: 0, screen_height: 0, cell_width: 0, cell_height: 0, padding: 4 };
    let gesture = empty.gesture_geometry(None);
    assert_eq!((gesture.columns, gesture.cell_width, gesture.screen_height), (1, 1, 1));
    assert_eq!(CLICK_REPEAT_MS, 500);
}

#[test]
fn modifiers_are_taken_over() {
    assert_eq!(event_mods(true, false, true, false), Mods { shift: true, ctrl: false, alt: true, logo: false });
    assert_eq!(event_mods(false, true, false, true), Mods { shift: false, ctrl: true, alt: false, logo: true });
}

#[test]
fn editor_keys_map_to_terminal_keys() {
    let expect = [
        (Key::A, VtKey::Letter(0), 'a'),
        (Key::Z, VtKey::Letter(25), 'z'),
        (Key::KEY_0, VtKey::Digit(0), '0'),
        (Key::KEY_9, VtKey::Digit(9), '9'),
        (Key::SPACE, VtKey::Space, ' '),
        (Key::ENTER, VtKey::Enter, '\0'),
        (Key::KP_ENTER, VtKey::NumpadEnter, '\0'),
        (Key::KP_0, VtKey::Numpad(0), '0'),
        (Key::KP_9, VtKey::Numpad(9), '9'),
        (Key::KP_PERIOD, VtKey::NumpadDecimal, '.'),
        (Key::KP_ADD, VtKey::NumpadAdd, '+'),
        (Key::KP_SUBTRACT, VtKey::NumpadSubtract, '-'),
        (Key::KP_MULTIPLY, VtKey::NumpadMultiply, '*'),
        (Key::KP_DIVIDE, VtKey::NumpadDivide, '/'),
        (Key::TAB, VtKey::Tab, '\0'),
        (Key::BACKSPACE, VtKey::Backspace, '\0'),
        (Key::ESCAPE, VtKey::Escape, '\0'),
        (Key::UP, VtKey::ArrowUp, '\0'),
        (Key::DOWN, VtKey::ArrowDown, '\0'),
        (Key::LEFT, VtKey::ArrowLeft, '\0'),
        (Key::RIGHT, VtKey::ArrowRight, '\0'),
        (Key::HOME, VtKey::Home, '\0'),
        (Key::END, VtKey::End, '\0'),
        (Key::PAGEUP, VtKey::PageUp, '\0'),
        (Key::PAGEDOWN, VtKey::PageDown, '\0'),
        (Key::INSERT, VtKey::Insert, '\0'),
        (Key::DELETE, VtKey::Delete, '\0'),
        (Key::MINUS, VtKey::Minus, '-'),
        (Key::EQUAL, VtKey::Equal, '='),
        (Key::BRACKETLEFT, VtKey::BracketLeft, '['),
        (Key::BRACKETRIGHT, VtKey::BracketRight, ']'),
        (Key::BACKSLASH, VtKey::Backslash, '\\'),
        (Key::SEMICOLON, VtKey::Semicolon, ';'),
        (Key::APOSTROPHE, VtKey::Quote, '\''),
        (Key::COMMA, VtKey::Comma, ','),
        (Key::PERIOD, VtKey::Period, '.'),
        (Key::SLASH, VtKey::Slash, '/'),
        (Key::QUOTELEFT, VtKey::Backquote, '`'),
        (Key::F1, VtKey::Function(1), '\0'),
        (Key::F12, VtKey::Function(12), '\0'),
    ];
    for (key, vt, ch) in expect {
        assert_eq!(map_key(key.ord()), Some((vt, ch)), "{key:?}");
    }
    for (i, key) in [Key::F2, Key::F3, Key::F4, Key::F5, Key::F6, Key::F7, Key::F8, Key::F9, Key::F10, Key::F11].into_iter().enumerate() {
        assert_eq!(map_key(key.ord()), Some((VtKey::Function(i as u8 + 2), '\0')));
    }
}

#[test]
fn other_keys_are_unidentified() {
    for key in [Key::NONE, Key::SHIFT, Key::CTRL, Key::CAPSLOCK, Key::F13, Key::MENU, Key::PRINT] {
        assert_eq!(map_key(key.ord()), None, "{key:?}");
    }
    let event = Input::new(false).encode_key(&press(Key::F13.ord(), 0, NONE));
    assert_eq!((event.key, event.unshifted), (VtKey::Unidentified, '\0'));
}

#[test]
fn no_two_codes_share_a_key() {
    let mut seen: Vec<VtKey> = Vec::new();
    for code in (0..200).chain(4194300..4194460) {
        if let Some((key, _)) = map_key(code) {
            assert!(!seen.contains(&key), "{code}");
            seen.push(key);
        }
    }
    assert_eq!(seen.len(), 90);
}

#[test]
fn actions_tell_press_repeat_release() {
    let input = Input::new(false);
    let mut ev = press(65, 97, NONE);
    assert_eq!(input.encode_key(&ev).action, KeyAction::Press);
    ev.echo = true;
    assert_eq!(input.encode_key(&ev).action, KeyAction::Repeat);
    ev.echo = false;
    ev.pressed = false;
    let released = input.encode_key(&ev);
    assert_eq!(released.action, KeyAction::Release);
    assert_eq!(released.text, None);
}

#[test]
fn printable_keys_carry_text() {
    let input = Input::new(false);
    assert_eq!(input.encode_key(&press(65, 97, NONE)).text, Some(97));
    let shifted = input.encode_key(&press(65, 65, Mods { shift: true, ..NONE }));
    assert_eq!(shifted.text, Some(65));
    assert_eq!(shifted.consumed, Mods { shift: true, ..NONE });
    assert_eq!(shifted.unshifted, 'a');
    for unicode in [0, 9, 0x1f, 0x7f, 0xd800, 0xdfff, 0x11_0000] {
        assert_eq!(input.encode_key(&press(65, unicode, NONE)).text, None, "{unicode:x}");
    }
    assert_eq!(input.encode_key(&press(0, 0x10_ffff, NONE)).text, Some(0x10_ffff));
}

#[test]
fn control_and_super_combos_carry_no_text() {
    let input = Input::new(false);
    let ctrl = input.encode_key(&press(67, 99, Mods { ctrl: true, shift: true, ..NONE }));
    assert_eq!(ctrl.text, None);
    assert_eq!(ctrl.consumed, NONE);
    assert_eq!(ctrl.mods, Mods { ctrl: true, shift: true, ..NONE });
    assert_eq!(input.encode_key(&press(67, 99, Mods { logo: true, ..NONE })).text, None);
    assert_eq!(input.encode_key(&press(67, 99, Mods { alt: true, ..NONE })).text, Some(99));
}

#[test]
fn altgr_text_survives_on_windows() {
    let altgr = Mods { ctrl: true, alt: true, ..NONE };
    let on_windows = Input::new(true).encode_key(&press(81, '@' as u32, altgr));
    assert_eq!(on_windows.text, Some('@' as u32));
    assert_eq!(on_windows.consumed, altgr);
    assert_eq!(Input::new(false).encode_key(&press(81, '@' as u32, altgr)).text, None);
    let with_super = Mods { logo: true, ..altgr };
    assert_eq!(Input::new(true).encode_key(&press(81, '@' as u32, with_super)).text, None);
}

#[test]
fn mouse_events_are_translated() {
    let input = Input::new(false);
    let mods = Mods { alt: true, ..NONE };
    let down = input.encode_button(MouseKey::Middle, true, mods);
    assert_eq!((down.button, down.action, down.mods), (Some(MouseKey::Middle), MouseAction::Press, mods));
    assert_eq!((down.any_pressed, down.track_last_cell), (None, false));
    assert_eq!(input.encode_button(MouseKey::Left, false, NONE).action, MouseAction::Release);
    let motion = input.encode_motion(Some(MouseKey::Right), NONE);
    assert_eq!((motion.action, motion.any_pressed, motion.track_last_cell), (MouseAction::Motion, Some(true), true));
    assert_eq!(input.encode_motion(None, NONE).any_pressed, Some(false));
}

#[test]
fn wheel_ticks_press_and_release() {
    let up = Input::new(false).encode_scroll(true, NONE);
    let actions: Vec<MouseAction> = up.iter().map(|e| e.action).collect();
    assert_eq!(actions, vec![MouseAction::Press, MouseAction::Release]);
    assert!(up.iter().all(|e| e.button == Some(MouseKey::Four)));
    assert!(Input::new(false).encode_scroll(false, NONE).iter().all(|e| e.button == Some(MouseKey::Five)));
}

#[test]
fn button_numbers_are_the_editors() {
    assert_eq!(MouseButton::LEFT.ord(), terminal::BUTTON_LEFT);
    assert_eq!(MouseButton::RIGHT.ord(), terminal::BUTTON_RIGHT);
    assert_eq!(MouseButton::MIDDLE.ord(), terminal::BUTTON_MIDDLE);
    assert_eq!(MouseButton::WHEEL_UP.ord(), terminal::BUTTON_WHEEL_UP);
    assert_eq!(MouseButton::WHEEL_DOWN.ord(), terminal::BUTTON_WHEEL_DOWN);
    assert_eq!(MouseButtonMask::LEFT.ord(), 1);
    assert_eq!(MouseButtonMask::RIGHT.ord(), 2);
    assert_eq!(MouseButtonMask::MIDDLE.ord(), 4);
}
