use godotty::color::rgb;
use godotty::fixed::UNIT;
use godotty::input::MouseKey;
use godotty::pty::Drained;
use godotty::terminal::{
    copy_selection, is_chord, is_editor_passthrough, passthrough_chords, paste_next, paste_start, resolve_cwd, resolve_spawn,
    ButtonOutcome, Chord, CopyTarget, Cwd, CwdFacts, FrameInput, KeyOutcome, MotionOutcome, NodeConfig, PassthroughFacts, PasteResult,
    PasteStep, PtyPlan, SharedGeo, Size, Spawn, StartError, StartStep, State, REPAINT_MIN, RESIZE_SETTLE, TITLE_POLL,
};
use godotty::theme::ColorScheme;

const MS: u64 = 1_000_000;

fn size(x: i64, y: i64) -> Size {
    Size { x: x * UNIT, y: y * UNIT }
}

fn spawn(shell: &str) -> Spawn {
    Spawn { font_size: 14, scrollback: 1000, shell: shell.to_string(), login: true }
}

fn start() -> (State, PtyPlan) {
    State::new(&spawn(""), rgb(1, 2, 3), size(648, 392), 8, 16, 12).ok().unwrap()
}

fn state() -> State {
    start().0
}

fn idle(delta: u64) -> FrameInput {
    FrameInput { delta, visible: true, resized: false, drained: Some(Drained::Empty), exit: None, osc_title: None, process_name: None }
}

fn chord(keycode: i32) -> Chord {
    Chord { keycode, shift: false, ctrl: false, alt: false, meta: false }
}

#[test]
fn grids_fit_between_the_paddings() {
    let (st, plan) = start();
    assert_eq!((st.geo.cols, st.geo.rows), (80, 24));
    assert_eq!((plan.cols, plan.rows, plan.cell_w, plan.cell_h), (80, 24, 8, 16));
    assert_eq!(plan.shell, None);
    assert!(plan.login);
}

#[test]
fn tiny_and_huge_controls_have_countable_grids() {
    let tiny = State::new(&spawn("fish"), rgb(0, 0, 0), size(3, 0), 8, 16, 12).ok().unwrap();
    assert_eq!((tiny.0.geo.cols, tiny.0.geo.rows), (1, 1));
    assert_eq!(tiny.1.shell.as_deref(), Some("fish"));
    let huge = State::new(&spawn(""), rgb(0, 0, 0), size(100_000, 15), 1, 70_000, 0).ok().unwrap();
    assert_eq!((huge.0.geo.cols, huge.0.geo.rows), (65535, 1));
    assert_eq!(huge.1.cell_h, 65535);
}

#[test]
fn grids_round_down() {
    let mut geo = state().geo;
    geo.fit(Size { x: 648 * UNIT - 1, y: 392 * UNIT - 1 });
    assert_eq!((geo.cols, geo.rows), (79, 23));
    assert!((geo.cols as i64 * 8 + 8) * UNIT <= geo.size.x);
}

#[test]
fn zero_cells_do_not_start() {
    for (w, h) in [(0, 16), (8, 0), (-1, 16)] {
        let failed = State::new(&spawn(""), rgb(0, 0, 0), size(648, 392), w, h, 12).err().unwrap();
        assert_eq!(failed, StartError::EmptyCell);
        assert_eq!(failed.message(), "font produced zero cell size");
    }
}

#[test]
fn failures_name_their_step() {
    let mut labels = Vec::new();
    let mut step = StartStep::Pty;
    while step != StartStep::Done {
        labels.push(step.failure("no"));
        step = step.next();
    }
    assert_eq!(
        labels,
        vec!["pty: no", "terminal: no", "terminal resize: no", "theme: no", "effect: no", "input: no", "render: no"]
    );
    assert_eq!(StartStep::Done.next(), StartStep::Done);
}

#[test]
fn geometry_is_shared_in_whole_pixels() {
    let mut geo = state().geo;
    geo.fit(Size { x: 100 * UNIT + UNIT / 3, y: -UNIT });
    let mouse = geo.mouse();
    assert_eq!((mouse.screen_width, mouse.screen_height), (100, 0));
    assert_eq!((mouse.cell_width, mouse.cell_height, mouse.padding), (8, 16, 4));
    assert_eq!(geo.shared(), SharedGeo { cols: geo.cols, rows: geo.rows, cell_w: 8, cell_h: 16 });
}

#[test]
fn node_settings_are_bounded() {
    let config = |scrollback| NodeConfig { scrollback, shell: String::new(), login: false };
    let spawn = resolve_spawn(config(5_000_000), 0);
    assert_eq!((spawn.scrollback, spawn.font_size, spawn.login), (100_000, 1, false));
    let spawn = resolve_spawn(config(1000), 21);
    assert_eq!((spawn.scrollback, spawn.font_size), (1000, 21));
}

#[test]
fn shells_start_in_the_first_place_there_is() {
    let all = CwdFacts { configured: Some(true), project_exists: true, home_set: true, user_profile_set: true, current_known: true };
    assert_eq!(resolve_cwd(all), (Cwd::Configured, false));
    let missing = CwdFacts { configured: Some(false), ..all };
    assert_eq!(resolve_cwd(missing), (Cwd::Project, true));
    let unset = CwdFacts { configured: None, project_exists: false, ..all };
    assert_eq!(resolve_cwd(unset), (Cwd::Home, false));
    assert_eq!(resolve_cwd(CwdFacts { home_set: false, ..unset }).0, Cwd::UserProfile);
    assert_eq!(resolve_cwd(CwdFacts { home_set: false, user_profile_set: false, ..unset }).0, Cwd::Current);
    let nothing = CwdFacts { home_set: false, user_profile_set: false, current_known: false, ..unset };
    assert_eq!(resolve_cwd(nothing).0, Cwd::Dot);
}

#[test]
fn resizes_wait_until_they_settle() {
    let mut st = state();
    assert!(!st.follow_size(size(648, 392), 16 * MS));
    assert!(!st.follow_size(size(700, 392), 16 * MS));
    assert!(!st.follow_size(size(710, 392), 16 * MS));
    assert!(!st.follow_size(size(710, 392), RESIZE_SETTLE - 1));
    assert_eq!(st.geo.cols, 80);
    assert!(st.follow_size(size(710, 392), 1));
    assert_eq!(st.geo.cols, 87);
    assert_eq!(st.pending_size, None);
}

#[test]
fn resizes_within_a_cell_keep_the_grid() {
    let mut st = state();
    assert!(!st.refit(size(650, 395)));
    assert_eq!((st.geo.cols, st.geo.rows), (80, 24));
    assert_eq!(st.geo.size, size(650, 395));
    assert!(st.refit(size(650, 500)));
    assert_eq!(st.geo.rows, 30);
}

#[test]
fn first_frame_paints() {
    let mut st = state();
    let plan = st.process(idle(0));
    assert!(plan.repaint);
    assert!(!st.needs_paint);
    assert!(!st.process(idle(16 * MS)).repaint);
}

#[test]
fn recordings_keep_their_distance() {
    let mut st = state();
    assert!(st.process(idle(0)).repaint);
    let data = |delta| FrameInput { drained: Some(Drained::Data), ..idle(delta) };
    assert!(!st.process(data(10 * MS)).repaint);
    assert!(st.needs_paint);
    assert!(!st.process(idle(REPAINT_MIN - 10 * MS - 1)).repaint);
    assert!(st.process(idle(1)).repaint);
}

#[test]
fn hidden_terminals_owe_their_recording() {
    let mut st = state();
    for _ in 0..10 {
        assert!(!st.process(FrameInput { visible: false, ..idle(100 * MS) }).repaint);
    }
    assert!(st.process(idle(0)).repaint);
}

#[test]
fn output_is_drained_to_its_end() {
    let mut st = state();
    assert!(st.wants_output());
    st.process(FrameInput { drained: Some(Drained::Eof), ..idle(0) });
    assert!(!st.wants_output());
    assert!(st.wants_exit());
}

#[test]
fn exit_is_told_once() {
    let mut st = state();
    st.process(idle(0));
    let plan = st.process(FrameInput { exit: Some(3), ..idle(REPAINT_MIN) });
    assert_eq!(plan.exited, Some(3));
    assert!(plan.repaint);
    assert!(!st.wants_exit());
    assert_eq!(st.process(FrameInput { exit: Some(3), ..idle(0) }).exited, None);
}

#[test]
fn titles_are_polled() {
    let mut st = state();
    assert!(st.wants_title(0));
    let named = |osc: Option<&str>, process: Option<&str>, delta| FrameInput {
        osc_title: osc.map(str::to_string),
        process_name: process.map(str::to_string),
        ..idle(delta)
    };
    assert_eq!(st.process(named(None, Some("zsh"), 0)).title.as_deref(), Some("zsh"));
    assert!(!st.wants_title(TITLE_POLL - 1));
    assert_eq!(st.process(named(Some("vim"), Some("nvim"), TITLE_POLL - 1)).title, None);
    assert_eq!(st.process(named(Some("vim"), Some("nvim"), 1)).title.as_deref(), Some("vim"));
    assert_eq!(st.process(named(Some("vim"), None, TITLE_POLL)).title, None);
    assert_eq!(st.process(named(Some(""), Some("zsh"), TITLE_POLL)).title.as_deref(), Some("zsh"));
    assert_eq!(st.process(named(None, None, TITLE_POLL)).title, None);
    st.retitle();
    assert_eq!(st.process(named(None, Some("zsh"), 0)).title.as_deref(), Some("zsh"));
}

#[test]
fn failed_recordings_are_owed_again() {
    let mut st = state();
    st.process(idle(0));
    assert!(!st.painted(Some(rgb(1, 2, 3)), true));
    assert!(st.painted(Some(rgb(9, 9, 9)), true));
    assert!(!st.needs_paint);
    assert!(!st.painted(None, false));
    assert!(st.needs_paint);
    assert!(!st.painted(Some(rgb(5, 5, 5)), false));
    assert_eq!(st.bg, rgb(5, 5, 5));
}

#[test]
fn copy_and_paste_chords() {
    let ctrl_shift = |code| Chord { ctrl: true, shift: true, ..chord(code) };
    assert!(is_chord(false, ctrl_shift(67), 67));
    assert!(!is_chord(false, Chord { ctrl: true, ..chord(67) }, 67));
    assert!(!is_chord(true, ctrl_shift(67), 67));
    assert!(is_chord(true, Chord { meta: true, ..chord(67) }, 67));
    assert!(!is_chord(true, Chord { meta: true, ..chord(86) }, 67));

    let mut st = state();
    st.needs_paint = false;
    assert_eq!(st.handle_key(false, ctrl_shift(67), true, false), KeyOutcome::Copy);
    assert!(!st.needs_paint);
    assert_eq!(st.handle_key(false, ctrl_shift(86), true, false), KeyOutcome::Paste);
    assert!(st.needs_paint);
    assert_eq!(st.handle_key(false, ctrl_shift(86), false, false), KeyOutcome::Encode);
    assert_eq!(st.handle_key(false, chord(65), true, true), KeyOutcome::Pass);
}

#[test]
fn exited_terminals_take_no_keys() {
    let mut st = state();
    st.exited = true;
    let ctrl_shift = |code| Chord { ctrl: true, shift: true, ..chord(code) };
    assert_eq!(st.handle_key(false, ctrl_shift(67), true, false), KeyOutcome::Copy);
    assert_eq!(st.handle_key(false, ctrl_shift(86), true, false), KeyOutcome::Swallow);
    assert_eq!(st.handle_key(false, chord(65), true, false), KeyOutcome::Pass);
}

#[test]
fn sent_keys_repaint() {
    let mut st = state();
    st.needs_paint = false;
    assert!(!st.key_sent(0));
    assert!(!st.needs_paint);
    assert!(st.key_sent(3));
    assert!(st.needs_paint);
}

#[test]
fn passthrough_belongs_to_the_editor() {
    let facts = |toggles_panel, listed: Vec<i64>| PassthroughFacts { in_editor: true, settings: true, toggles_panel, listed, combo: 7 };
    let ctrl = Chord { ctrl: true, ..chord(80) };
    assert!(is_editor_passthrough(ctrl, &facts(true, vec![])));
    assert!(is_editor_passthrough(ctrl, &facts(false, vec![1, 7])));
    assert!(!is_editor_passthrough(ctrl, &facts(false, vec![1, 2])));
    assert!(!is_editor_passthrough(chord(80), &facts(true, vec![7])));
    assert!(!is_editor_passthrough(Chord { shift: true, ..chord(80) }, &facts(true, vec![7])));
    assert!(is_editor_passthrough(Chord { alt: true, ..chord(80) }, &facts(false, vec![7])));
    assert!(!is_editor_passthrough(ctrl, &PassthroughFacts { in_editor: false, ..facts(true, vec![7]) }));
    assert!(!is_editor_passthrough(ctrl, &PassthroughFacts { settings: false, ..facts(true, vec![7]) }));
    assert_eq!(passthrough_chords(" Ctrl+Shift+P ,, Alt+X"), vec!["Ctrl+Shift+P", "Alt+X"]);
}

#[test]
fn wheel_scrolls_or_is_sent() {
    let mut st = state();
    assert_eq!(st.handle_mouse_button(4, true, false, false).outcome, ButtonOutcome::Scroll { lines: -3 });
    assert_eq!(st.handle_mouse_button(5, true, false, false).outcome, ButtonOutcome::Scroll { lines: 3 });
    assert_eq!(st.handle_mouse_button(4, true, false, true).outcome, ButtonOutcome::SendScroll { up: true });
    assert_eq!(st.handle_mouse_button(5, true, true, true).outcome, ButtonOutcome::Scroll { lines: 3 });
    st.needs_paint = false;
    assert_eq!(st.handle_mouse_button(5, false, false, true).outcome, ButtonOutcome::Pass);
    assert!(!st.needs_paint);
}

#[test]
fn selections_complete_on_release() {
    let mut st = state();
    let press = st.handle_mouse_button(1, true, true, true);
    assert!(press.grab_focus);
    assert_eq!(press.outcome, ButtonOutcome::StartSelection);
    assert!(st.selecting);
    assert_eq!(st.handle_mouse_motion(1, true, true), MotionOutcome::Drag { rectangle: true });
    // Shift was let go first, and the program tracks the mouse.
    let release = st.handle_mouse_button(1, false, false, true);
    assert!(!release.grab_focus);
    assert_eq!(release.outcome, ButtonOutcome::FinishSelection);
    assert!(!st.selecting);
    assert_eq!(st.handle_mouse_button(1, false, false, false).outcome, ButtonOutcome::Swallow);
}

#[test]
fn tracked_buttons_go_to_the_program() {
    let mut st = state();
    let sent = |st: &mut State, index, pressed| st.handle_mouse_button(index, pressed, false, true).outcome;
    assert_eq!(sent(&mut st, 1, true), ButtonOutcome::SendButton { button: MouseKey::Left, pressed: true });
    assert_eq!(sent(&mut st, 1, false), ButtonOutcome::SendButton { button: MouseKey::Left, pressed: false });
    assert_eq!(sent(&mut st, 2, true), ButtonOutcome::SendButton { button: MouseKey::Right, pressed: true });
    assert_eq!(sent(&mut st, 3, false), ButtonOutcome::SendButton { button: MouseKey::Middle, pressed: false });
    assert_eq!(sent(&mut st, 8, true), ButtonOutcome::Pass);
    assert_eq!(st.handle_mouse_button(2, true, false, false).outcome, ButtonOutcome::Pass);
    st.exited = true;
    assert_eq!(sent(&mut st, 3, true), ButtonOutcome::Pass);
    assert_eq!(sent(&mut st, 1, true), ButtonOutcome::StartSelection);
}

#[test]
fn motion_reports_the_held_button() {
    let mut st = state();
    assert_eq!(st.handle_mouse_motion(7, false, true), MotionOutcome::SendMotion { held: Some(MouseKey::Left) });
    assert_eq!(st.handle_mouse_motion(6, false, true), MotionOutcome::SendMotion { held: Some(MouseKey::Right) });
    assert_eq!(st.handle_mouse_motion(4, false, true), MotionOutcome::SendMotion { held: Some(MouseKey::Middle) });
    assert_eq!(st.handle_mouse_motion(8, false, true), MotionOutcome::SendMotion { held: None });
    assert_eq!(st.handle_mouse_motion(1, false, false), MotionOutcome::Ignore);
    st.exited = true;
    assert_eq!(st.handle_mouse_motion(1, false, true), MotionOutcome::Ignore);
}

#[test]
fn selections_are_copied_as_text() {
    let text = "caf\u{e9}".as_bytes().to_vec();
    assert_eq!(copy_selection(Some(&text), false, false), CopyTarget::Clipboard);
    assert_eq!(copy_selection(Some(&text), true, true), CopyTarget::Primary);
    assert_eq!(copy_selection(Some(&text), true, false), CopyTarget::Nowhere);
    assert_eq!(copy_selection(None, false, true), CopyTarget::Nowhere);
    assert_eq!(copy_selection(Some(&vec![]), false, true), CopyTarget::Nowhere);
    assert_eq!(copy_selection(Some(&vec![0x66, 0xff]), false, true), CopyTarget::Nowhere);
}

#[test]
fn pastes_retry_once() {
    assert_eq!(paste_start(0), PasteStep::Drop);
    assert_eq!(paste_start(10), PasteStep::Encode(26));
    assert_eq!(paste_next(PasteResult::Written(12), false), PasteStep::Send(12));
    assert_eq!(paste_next(PasteResult::NeedsSpace(99), false), PasteStep::Encode(99));
    assert_eq!(paste_next(PasteResult::NeedsSpace(99), true), PasteStep::Drop);
    assert_eq!(paste_next(PasteResult::Written(99), true), PasteStep::Send(99));
    assert_eq!(paste_next(PasteResult::Failed, false), PasteStep::Drop);
}

#[test]
fn new_themes_are_painted_and_reported() {
    let mut st = state();
    st.needs_paint = false;
    st.selecting = true;
    let report = st.apply_theme(ColorScheme::Light, ColorScheme::Dark, true);
    assert_eq!(report, b"\x1b[?997;1n".to_vec());
    assert!(st.needs_paint && st.selecting && !st.exited);
    assert_eq!(st.bg, rgb(1, 2, 3));
    st.needs_paint = false;
    assert!(st.apply_theme(ColorScheme::Dark, ColorScheme::Dark, true).is_empty());
    assert!(st.needs_paint);
    assert!(st.apply_theme(ColorScheme::Dark, ColorScheme::Light, false).is_empty());
}
