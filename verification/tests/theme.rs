use godotty::color::{rgb, Rgb};
use godotty::theme::{
    editor_surface, generate, neutral_surface, refresh_theme, scheme_pref, scheme_report, slot, wants_dark, Accent, Ansi, Candidate,
    ColorScheme, Theme, FLOOR_CONTRAST, SCHEME_AUTO, SCHEME_DARK, SCHEME_LIGHT,
};

fn candidate(lightness: f32, contrast: f32, target: f32) -> Candidate {
    Candidate { lightness: lightness.to_bits(), contrast: contrast.to_bits(), distance: (contrast - target).abs().to_bits() }
}

fn ansi() -> Ansi {
    Ansi {
        black: rgb(1, 1, 1),
        bright_black: rgb(2, 2, 2),
        white: rgb(3, 3, 3),
        bright_white: rgb(4, 4, 4),
        normal: (0..6).map(|i| rgb(10 + i, 0, 0)).collect(),
        bright: (0..6).map(|i| rgb(20 + i, 0, 0)).collect(),
    }
}

fn theme(dark: bool, accent: Option<Accent>) -> Theme {
    generate(dark, rgb(9, 9, 9), rgb(200, 200, 200), accent, &ansi())
}

#[test]
fn preference_decides_the_scheme() {
    assert!(wants_dark(SCHEME_DARK, true, false));
    assert!(!wants_dark(SCHEME_LIGHT, true, true));
    assert!(wants_dark(SCHEME_AUTO, true, true));
    assert!(!wants_dark(SCHEME_AUTO, true, false));
    assert!(wants_dark(SCHEME_AUTO, false, false));
    assert!(wants_dark(7, false, false));
}

#[test]
fn editor_terminals_read_the_setting() {
    assert_eq!(scheme_pref(false, SCHEME_LIGHT, Some(SCHEME_DARK)), SCHEME_LIGHT);
    assert_eq!(scheme_pref(true, SCHEME_LIGHT, Some(SCHEME_DARK)), SCHEME_DARK);
    assert_eq!(scheme_pref(true, SCHEME_LIGHT, None), SCHEME_AUTO);
}

#[test]
fn forced_schemes_take_a_neutral_surface() {
    let (bg, fg) = (rgb(40, 40, 40), rgb(220, 220, 220));
    assert_eq!(editor_surface(SCHEME_AUTO, true, bg, fg), (bg, fg));
    assert_eq!(editor_surface(SCHEME_DARK, true, bg, fg), (bg, fg));
    assert_eq!(editor_surface(SCHEME_LIGHT, true, bg, fg), (rgb(0xfa, 0xfa, 0xf8), rgb(0x20, 0x22, 0x26)));
    assert_eq!(editor_surface(SCHEME_DARK, false, bg, fg), neutral_surface(true));
    assert_eq!(neutral_surface(true), (rgb(0x16, 0x18, 0x1d), rgb(0xd8, 0xda, 0xde)));
}

#[test]
fn floor_is_three_to_one() {
    assert_eq!(FLOOR_CONTRAST, 3.0f32.to_bits());
}

#[test]
fn slots_prefer_the_nearest_readable() {
    let list = vec![candidate(0.3, 2.0, 5.0), candidate(0.4, 4.0, 5.0), candidate(0.5, 5.5, 5.0), candidate(0.6, 9.0, 5.0)];
    assert_eq!(slot(&list, 0.05f32.to_bits(), 0.95f32.to_bits()), Some(2));
    // The band leaves the nearest out.
    assert_eq!(slot(&list, 0.05f32.to_bits(), 0.45f32.to_bits()), Some(1));
    assert_eq!(slot(&list, 0.55f32.to_bits(), 0.95f32.to_bits()), Some(3));
}

#[test]
fn first_of_equal_slots_wins() {
    let list = vec![candidate(0.3, 4.0, 5.0), candidate(0.4, 6.0, 5.0)];
    assert_eq!(slot(&list, 0, u32::MAX), Some(0));
    let weak = vec![candidate(0.3, 2.0, 5.0), candidate(0.4, 2.0, 5.0)];
    assert_eq!(slot(&weak, 0, u32::MAX), Some(0));
}

#[test]
fn unreadable_hues_fall_back_to_the_best_contrast() {
    let list = vec![candidate(0.3, 1.2, 5.0), candidate(0.4, 2.9, 5.0), candidate(0.5, 2.0, 5.0)];
    assert_eq!(slot(&list, 0, u32::MAX), Some(1));
    assert_eq!(slot(&list, 0.6f32.to_bits(), u32::MAX), None);
    assert_eq!(slot(&vec![], 0, u32::MAX), None);
}

#[test]
fn palette_is_assembled() {
    let t = theme(true, None);
    assert_eq!(t.palette.len(), 256);
    assert_eq!(t.scheme, ColorScheme::Dark);
    let at = |i: usize| t.palette[i];
    assert_eq!((at(0), at(7), at(8), at(15)), (rgb(1, 1, 1), rgb(3, 3, 3), rgb(2, 2, 2), rgb(4, 4, 4)));
    assert_eq!((at(1), at(6), at(9), at(14)), (rgb(10, 0, 0), rgb(15, 0, 0), rgb(20, 0, 0), rgb(25, 0, 0)));
    assert_eq!((at(16), at(21), at(46), at(196), at(231)), (rgb(0, 0, 0), rgb(0, 0, 255), rgb(0, 255, 0), rgb(255, 0, 0), rgb(255, 255, 255)));
    assert_eq!(at(16 + 36 + 12 + 3), rgb(95, 135, 175));
    assert_eq!((at(232), at(255)), (rgb(8, 8, 8), rgb(238, 238, 238)));
}

#[test]
fn cube_has_no_color_twice() {
    let t = theme(false, None);
    assert_eq!(t.scheme, ColorScheme::Light);
    for i in 16..232 {
        for j in i + 1..232 {
            assert_ne!(t.palette[i], t.palette[j]);
        }
    }
    for i in 232..255 {
        assert!(t.palette[i].r < t.palette[i + 1].r);
    }
}

#[test]
fn cursor_is_a_readable_accent() {
    let accent = |contrast: f32, chromatic| {
        Some(Accent { color: rgb(5, 6, 7), contrast: contrast.to_bits(), chromatic, placed: rgb(7, 7, 7) })
    };
    let fg: Rgb = rgb(200, 200, 200);
    assert_eq!(theme(true, None).cursor, fg);
    assert_eq!(theme(true, accent(3.0, false)).cursor, rgb(5, 6, 7));
    assert_eq!(theme(true, accent(2.9, true)).cursor, rgb(7, 7, 7));
    assert_eq!(theme(true, accent(2.9, false)).cursor, fg);
}

#[test]
fn scheme_changes_are_reported_on_request() {
    assert_eq!(scheme_report(ColorScheme::Light, ColorScheme::Dark, true), b"\x1b[?997;1n".to_vec());
    assert_eq!(scheme_report(ColorScheme::Dark, ColorScheme::Light, true), b"\x1b[?997;2n".to_vec());
    assert!(scheme_report(ColorScheme::Dark, ColorScheme::Light, false).is_empty());
    assert!(scheme_report(ColorScheme::Dark, ColorScheme::Dark, true).is_empty());
}

#[test]
fn themes_are_applied_when_they_differ() {
    let a = theme(true, None);
    let mut b = theme(true, None);
    assert!(a.same(&b));
    assert!(!refresh_theme(true, &a, &b));
    b.palette[200] = rgb(0, 0, 1);
    assert!(!a.same(&b));
    assert!(refresh_theme(true, &a, &b));
    assert!(!refresh_theme(false, &a, &b));
    assert!(refresh_theme(true, &a, &theme(false, None)));
}
