use godotty::font::{
    base_fonts, compute_fallback, discoverable, load_failure, FontSource, FontStep, Fonts, BASE_FONTS, COLOR, JULIA, NOTO_MONO,
    SYSTEM,
};

fn coverage(fonts: &[usize]) -> Vec<bool> {
    (0..BASE_FONTS).map(|i| fonts.contains(&i)).collect()
}

#[test]
fn styles_are_numbered() {
    assert_eq!(Fonts::style_index(false, false), 0);
    assert_eq!(Fonts::style_index(true, false), 1);
    assert_eq!(Fonts::style_index(false, true), 2);
    assert_eq!(Fonts::style_index(true, true), 3);
}

#[test]
fn emoji_cells_prefer_color() {
    let all = coverage(&[NOTO_MONO, JULIA, COLOR, SYSTEM]);
    assert_eq!(compute_fallback(true, &all, &vec![]), Some(COLOR));
    assert_eq!(compute_fallback(false, &all, &vec![]), Some(NOTO_MONO));
    let some = coverage(&[JULIA, COLOR]);
    assert_eq!(compute_fallback(true, &some, &vec![]), Some(COLOR));
    assert_eq!(compute_fallback(false, &some, &vec![]), Some(JULIA));
    assert_eq!(compute_fallback(false, &coverage(&[COLOR]), &vec![]), Some(COLOR));
}

#[test]
fn system_and_discovered_fonts_come_last() {
    assert_eq!(compute_fallback(true, &coverage(&[SYSTEM, SYSTEM + 1]), &vec![true]), Some(SYSTEM));
    assert_eq!(compute_fallback(true, &coverage(&[SYSTEM + 1]), &vec![true]), Some(SYSTEM + 1));
    assert_eq!(compute_fallback(false, &coverage(&[]), &vec![false, true, true]), Some(BASE_FONTS + 1));
    assert_eq!(compute_fallback(false, &coverage(&[]), &vec![false]), None);
    // Style fonts are no fallback.
    assert_eq!(compute_fallback(false, &coverage(&[0, 1, 2, 3]), &vec![]), None);
}

#[test]
fn answers_are_cached() {
    let mut f = Fonts::new();
    assert_eq!(f.resolve(65, 0, false), FontStep::AskStyle);
    f.note_style(65, 0, true);
    assert_eq!(f.resolve(65, 0, true), FontStep::Draw(0));
    assert_eq!(f.resolve(65, 1, false), FontStep::AskStyle);
    f.note_style(0x1f600, 1, false);
    assert_eq!(f.resolve(0x1f600, 1, true), FontStep::AskFallback);
    f.note_fallback(0x1f600, true, Some(COLOR));
    assert_eq!(f.resolve(0x1f600, 1, true), FontStep::Draw(COLOR));
    assert_eq!(f.resolve(0x1f600, 1, false), FontStep::AskFallback);
    f.note_fallback(0x1f600, false, None);
    assert_eq!(f.resolve(0x1f600, 1, false), FontStep::Blank);
}

#[test]
fn font_files_are_tried_once() {
    let mut f = Fonts::new();
    assert!(f.take_path("/a.ttf".to_string()));
    assert!(f.take_path("/b.ttf".to_string()));
    assert!(!f.take_path("/a.ttf".to_string()));
    assert_eq!(f.keep_font(false), None);
    assert_eq!(f.keep_font(true), Some(BASE_FONTS + 1));
    assert_eq!(f.extra, 2);
}

#[test]
fn only_characters_are_discovered() {
    for cp in [0, 65, 0xd7ff, 0xd800, 0xdfff, 0xe000, 0x10_ffff, 0x11_0000] {
        assert_eq!(discoverable(cp), char::from_u32(cp).is_some());
    }
}

#[test]
fn base_fonts_stand_at_their_places() {
    let list = base_fonts();
    assert_eq!(list.len(), BASE_FONTS);
    assert!(matches!(list[COLOR], FontSource::Embedded("NotoColorEmoji")));
    assert!(matches!(list[Fonts::style_index(true, true) as usize], FontSource::Embedded("BoldItalic")));
    assert!(matches!(list[SYSTEM], FontSource::Family("monospace")));
    assert_eq!(load_failure("Bold"), "font Bold failed to parse");
}
