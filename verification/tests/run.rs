use godotty::run::{Run, RunCache, RunStep};

fn run(style: u8, text: &str) -> Run<[f32; 4]> {
    Run { text: text.to_string(), style, fg: [0.1, 0.2, 0.3, 0.6], x: 4 }
}

#[test]
fn single_cells_skip_shaping() {
    let mut cache: RunCache<u32> = RunCache::new();
    assert_eq!(cache.draw(&run(0, "a")), RunStep::Char(97));
    assert_eq!(cache.draw(&run(0, "\u{e9}")), RunStep::Shape);
    assert_eq!(cache.draw(&run(0, "")), RunStep::Shape);
    assert!(cache.entries.is_empty());
}

#[test]
fn runs_keep_their_color_and_are_found_without_it() {
    let mut cache: RunCache<u32> = RunCache::new();
    let faint = run(0, "->");
    cache.add_run(0, "->".to_string(), 7);
    assert_eq!(cache.draw(&faint), RunStep::Cached(0));
    assert_eq!((faint.fg, faint.x), ([0.1, 0.2, 0.3, 0.6], 4));
    let opaque = Run { fg: [1.0; 4], ..faint };
    assert_eq!(cache.draw(&opaque), RunStep::Cached(0));
}

#[test]
fn runs_are_found_by_content_and_style() {
    let mut cache: RunCache<u32> = RunCache::new();
    assert_eq!(cache.draw(&run(0, "->")), RunStep::Shape);
    assert_eq!(cache.add_run(0, "->".to_string(), 7), 0);
    assert_eq!(cache.draw(&run(0, "->")), RunStep::Cached(0));
    assert_eq!(cache.entries[0].glyphs, 7);
    assert_eq!(cache.draw(&run(1, "->")), RunStep::Shape);
    assert_eq!(cache.draw(&run(0, "=>")), RunStep::Shape);
}

#[test]
fn cache_is_as_large_as_the_last_recording() {
    let mut cache: RunCache<u32> = RunCache::new();
    for (i, text) in ["ab", "cd", "ef"].iter().enumerate() {
        cache.draw(&run(0, text));
        cache.add_run(0, text.to_string(), i as u32);
    }
    cache.end_frame();
    assert_eq!(cache.entries.len(), 3);
    cache.draw(&run(0, "cd"));
    cache.draw(&run(2, "gh"));
    cache.add_run(2, "gh".to_string(), 9);
    cache.end_frame();
    let left: Vec<(u8, &str)> = cache.entries.iter().map(|e| (e.style, e.text.as_str())).collect();
    assert_eq!(left, vec![(0, "cd"), (2, "gh")]);
    cache.end_frame();
    assert!(cache.entries.is_empty());
    assert_eq!(cache.generation, 3);
}

#[test]
fn recordings_keep_exactly_what_they_draw() {
    let mut cache: RunCache<u32> = RunCache::new();
    let mut shaped = 0;
    let recordings: [&[(u8, &str)]; 4] =
        [&[(0, "ab"), (0, ""), (1, "ab"), (0, "ab")], &[(1, "ab"), (2, "cd"), (1, "x")], &[(2, "cd"), (3, "cd"), (2, "cd")], &[]];
    for drawn in recordings {
        for (style, text) in drawn {
            if cache.draw(&run(*style, text)) == RunStep::Shape {
                shaped += 1;
                cache.add_run(*style, text.to_string(), shaped);
            }
        }
        cache.end_frame();
        for style in 0..4 {
            for text in ["", "ab", "cd", "x"] {
                let held = cache.entries.iter().filter(|e| e.style == style && e.text == text).count();
                let kept = text.len() != 1 && drawn.contains(&(style, text));
                assert_eq!(held, if kept { 1 } else { 0 }, "{style} {text}");
            }
        }
    }
    // Found again where the recording before had them.
    assert_eq!(shaped, 5);
}

#[test]
fn idle_recordings_leave_the_cache_empty() {
    let mut cache: RunCache<u32> = RunCache::new();
    cache.add_run(0, "ab".to_string(), 1);
    cache.end_frame();
    assert_eq!(cache.entries.len(), 1);
    cache.end_frame();
    assert!(cache.entries.is_empty());
}
