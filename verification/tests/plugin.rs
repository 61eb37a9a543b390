use godot::classes::editor_plugin::DockSlot;
use godot::obj::EngineEnum;
use godotty::plugin::{
    commands, configured_shell, default_title, dock_slot, editor_only_libraries, ensure_setting, export_file, font_size, is_descendant,
    on_focus_changed, on_title_changed, settings, shortcut_input, shortcuts, tabs_setup, toggle_terminal_focus,
    update_sync, FocusStep, Hint, SyncChange, TerminalPanel, TerminalTabs, TitleTarget, ToggleStep, Value,
};

fn text(s: &str) -> Option<String> {
    Some(s.to_string())
}

fn tabs(ids: &[i64]) -> TerminalTabs {
    let mut t = TerminalTabs::new();
    for id in ids {
        t.add_terminal(*id);
    }
    t
}

#[test]
fn terminals_get_tabs_at_the_end() {
    let mut t = TerminalTabs::new();
    assert!(t.update_empty());
    assert!(t.autocreate(true));
    assert!(!t.autocreate(false));
    assert_eq!(t.add_terminal(11), 0);
    assert_eq!(t.add_terminal(12), 1);
    assert_eq!((t.bar.clone(), t.stack.clone()), (vec![11, 12], vec![11, 12]));
    assert!(!t.update_empty());
    assert!(!t.autocreate(true));
}

#[test]
fn closing_frees_the_tabs_terminal() {
    let mut t = tabs(&[1, 2, 3]);
    assert_eq!(t.close_tab(1), Some(2));
    assert_eq!((t.bar.clone(), t.stack.clone()), (vec![1, 3], vec![1, 3]));
    assert_eq!(t.close_tab(-1), None);
    assert_eq!(t.close_tab(2), None);
    assert_eq!(t.bar, vec![1, 3]);
}

#[test]
fn dragged_tabs_take_their_terminals_along() {
    let orders = [vec![2, 3, 4, 1], vec![4, 1, 2, 3], vec![1, 2, 3, 4], vec![4, 3, 2, 1], vec![1, 3, 2, 4]];
    for order in orders {
        let mut t = tabs(&[1, 2, 3, 4]);
        let mut applied = t.stack.clone();
        for (from, to) in t.on_tab_rearranged(order.clone()) {
            let id = applied.remove(from);
            applied.insert(to, id);
        }
        assert_eq!(t.bar, order);
        assert_eq!(t.stack, order);
        assert_eq!(applied, order);
    }
}

#[test]
fn one_drag_to_the_front_is_one_move() {
    let mut t = tabs(&[1, 2, 3, 4]);
    assert_eq!(t.on_tab_rearranged(vec![4, 1, 2, 3]), vec![(3, 0)]);
    assert_eq!(t.on_tab_rearranged(vec![4, 1, 2, 3]), vec![]);
}

#[test]
fn tabs_without_a_terminal_are_skipped() {
    let mut t = tabs(&[1, 2, 3]);
    assert_eq!(t.on_tab_rearranged(vec![9, 3, 1]), vec![(2, 1)]);
    assert_eq!(t.stack, vec![1, 3, 2]);
}

#[test]
fn only_the_current_terminal_shows() {
    let t = tabs(&[1, 2, 3]);
    assert_eq!(t.show_only(1), vec![false, true, false]);
    assert_eq!(t.show_only(-1), vec![false, false, false]);
    assert_eq!(t.show_only(3), vec![false, false, false]);
}

#[test]
fn focusing_creates_the_first_terminal() {
    let t = tabs(&[1, 2]);
    assert_eq!(t.focus_active(-1), FocusStep::AddTerminal);
    assert_eq!(t.focus_active(1), FocusStep::Focus(1));
    assert_eq!(t.focus_active(5), FocusStep::Nothing);
}

#[test]
fn titles_go_to_existing_tabs() {
    let t = tabs(&[1, 2]);
    assert_eq!(t.on_title_changed("vim", 1), Some(1));
    assert_eq!(t.on_title_changed("", 1), None);
    assert_eq!(t.on_title_changed("vim", -1), None);
    assert_eq!(t.on_title_changed("vim", 2), None);
}

#[test]
fn tab_area_is_built_once() {
    assert!(tabs_setup(true, true).is_none());
    let with_icon = tabs_setup(false, true).unwrap();
    assert_eq!(with_icon.add_text, None);
    assert_eq!((with_icon.add_tooltip, with_icon.empty_label, with_icon.new_text), ("New terminal", "No open terminals", "New Terminal"));
    assert_eq!(tabs_setup(false, false).unwrap().add_text, Some("+"));
}

#[test]
fn dock_terminals_are_numbered() {
    let mut p = TerminalPanel::new();
    assert_eq!(p.new_dock_terminal(1, "zsh"), "zsh");
    assert_eq!(p.new_dock_terminal(2, "zsh"), "zsh (2)");
    for id in 3..=12 {
        p.new_dock_terminal(id, "zsh");
    }
    p.on_exited(5);
    assert_eq!(p.new_dock_terminal(13, "fish"), "fish (13)");
    assert_eq!(p.terminals, vec![1, 2, 3, 4, 6, 7, 8, 9, 10, 11, 12, 13]);
    p.count = 4_000_000_000;
    assert_eq!(p.new_dock_terminal(14, "sh"), "sh (4000000001)");
}

#[test]
fn numbering_restarts_when_none_is_left() {
    let mut p = TerminalPanel::new();
    p.new_dock_terminal(1, "zsh");
    p.new_dock_terminal(2, "zsh");
    p.on_exited(1);
    p.on_exited(9);
    assert_eq!(p.new_dock_terminal(3, "zsh"), "zsh (3)");
    p.on_exited(2);
    p.on_exited(3);
    p.count = u32::MAX;
    assert_eq!(p.new_dock_terminal(4, "zsh"), "zsh");
    assert_eq!(p.count, 1);
}

#[test]
fn focus_outside_the_tabs_is_remembered() {
    assert!(is_descendant(&vec![5, 4, 3], 4));
    assert!(!is_descendant(&vec![5, 4, 3], 7));
    assert!(!is_descendant(&vec![], 7));
    assert!(!on_focus_changed(&vec![5, 4], Some(4), Some(9)));
    assert!(!on_focus_changed(&vec![5, 9], Some(4), Some(9)));
    assert!(on_focus_changed(&vec![5, 6], Some(4), Some(9)));
    assert!(on_focus_changed(&vec![5, 6], None, None));
}

#[test]
fn toggling_hides_from_inside_and_shows_from_outside() {
    assert_eq!(toggle_terminal_focus(None, None, true), ToggleStep::Nothing);
    assert_eq!(toggle_terminal_focus(Some(4), Some(&vec![5, 4]), true), ToggleStep::Hide { refocus: true });
    assert_eq!(toggle_terminal_focus(Some(4), Some(&vec![4]), false), ToggleStep::Hide { refocus: false });
    assert_eq!(toggle_terminal_focus(Some(4), Some(&vec![5]), true), ToggleStep::Show);
    assert_eq!(toggle_terminal_focus(Some(4), None, true), ToggleStep::Show);
    assert!(shortcut_input(true, false, true));
    assert!(!shortcut_input(true, true, true));
    assert!(!shortcut_input(false, false, true));
    assert!(!shortcut_input(true, false, false));
}

#[test]
fn watcher_follows_the_setting() {
    assert_eq!(update_sync(None, false), SyncChange::Start);
    assert_eq!(update_sync(Some(true), true), SyncChange::Keep);
    assert_eq!(update_sync(Some(false), true), SyncChange::Stop);
    assert_eq!(update_sync(Some(false), false), SyncChange::Keep);
}

#[test]
fn docked_titles_go_to_the_nearest_container() {
    assert_eq!(on_title_changed("vim", &vec![false, true, true], true), TitleTarget::Dock(1));
    assert_eq!(on_title_changed("vim", &vec![false, false], true), TitleTarget::Window);
    assert_eq!(on_title_changed("vim", &vec![], false), TitleTarget::Nowhere);
    assert_eq!(on_title_changed("", &vec![true], true), TitleTarget::Nowhere);
}

#[test]
fn dock_slots_are_the_editors() {
    for ord in -300..300 {
        let named = DockSlot::try_from_ord(ord).is_some();
        assert_eq!(named, -1 <= ord && ord <= 9, "{ord}");
        assert_eq!(dock_slot(Some(ord as i64)), if named { ord } else { 0 });
    }
    for ord in [i32::MIN, i32::MAX] {
        assert!(DockSlot::try_from_ord(ord).is_none());
        assert_eq!(dock_slot(Some(ord as i64)), 0);
    }
    assert_eq!(dock_slot(Some(1 << 40)), 0);
    assert_eq!(dock_slot(Some((1 << 32) + 5)), 5);
    assert_eq!(dock_slot(None), 0);
}

#[test]
fn font_sizes_are_kept_sensible() {
    assert_eq!(font_size(14), 14);
    assert_eq!(font_size(1), 6);
    assert_eq!(font_size(500), 72);
    assert_eq!(font_size((1 << 32) + 20), 20);
}

#[test]
fn titles_start_as_the_shells_name() {
    assert_eq!(configured_shell(text("")), None);
    assert_eq!(configured_shell(text("fish")).as_deref(), Some("fish"));
    assert_eq!(configured_shell(None), None);
    assert_eq!(default_title(text("C:\\tools\\nu.exe"), text("/bin/zsh")), "nu.exe");
    assert_eq!(default_title(None, text("/bin/zsh")), "zsh");
    assert_eq!(default_title(None, None), "shell");
    assert_eq!(default_title(text("/bin/"), None), "shell");
}

#[test]
fn settings_are_registered_in_display_order() {
    let list = settings(false);
    let names: Vec<&str> = list.iter().map(|s| s.name).collect();
    assert_eq!(
        names,
        vec![
            "godotty/terminal/shell",
            "godotty/terminal/font_size",
            "godotty/terminal/color_scheme",
            "godotty/terminal/ligatures",
            "godotty/terminal/default_dock_slot",
            "godotty/terminal/passthrough_shortcuts",
            "godotty/terminal/sync_external_changes",
        ]
    );
    assert!(matches!(&list[5].default, Value::Text(s) if s == "Ctrl+Shift+P"));
    assert!(matches!(&settings(true)[5].default, Value::Text(s) if s == "Meta+Shift+P"));
    assert!(matches!(list[1].default, Value::Number(14)));
    assert_eq!((list[1].hint, list[1].hint_text), (Hint::Range, "6,32,1"));
    assert_eq!(list[4].hint_text.split(',').count(), 8);
}

#[test]
fn values_of_the_right_type_survive() {
    assert!(matches!(ensure_setting(Some(Value::Number(20)), Value::Number(14)), Value::Number(20)));
    assert!(matches!(ensure_setting(Some(Value::Flag(true)), Value::Number(14)), Value::Number(14)));
    assert!(matches!(ensure_setting(Some(Value::Flag(false)), Value::Flag(true)), Value::Flag(false)));
    assert!(matches!(ensure_setting(Some(Value::Text("zsh".to_string())), Value::Text(String::new())), Value::Text(s) if s == "zsh"));
    assert!(matches!(ensure_setting(None, Value::Flag(true)), Value::Flag(true)));
}

#[test]
fn shortcuts_and_commands() {
    let list = shortcuts(false);
    let bound: Vec<(&str, i32, bool, bool)> = list.iter().map(|b| (b.path, b.keycode, b.ctrl, b.meta)).collect();
    assert_eq!(
        bound,
        vec![
            ("godotty/toggle_terminal_panel", 96, true, false),
            ("godotty/increase_font_size", 61, true, false),
            ("godotty/decrease_font_size", 45, true, false),
            ("godotty/reset_font_size", 48, true, false),
        ]
    );
    let mac = shortcuts(true);
    assert_eq!((mac[0].ctrl, mac[0].meta, mac[1].ctrl, mac[1].meta), (true, false, false, true));
    let keys: Vec<&str> = commands().iter().map(|c| c.key).collect();
    assert_eq!(keys, vec!["godotty/new_dock", "godotty/new_panel", "godotty/new_main"]);
}

#[test]
fn exports_leave_the_addon_out() {
    let tagged = vec!["linux.editor.x86_64".to_string(), "macos.editor".to_string()];
    let untagged = vec!["linux.editor.x86_64".to_string(), "windows.x86_64".to_string()];
    assert!(editor_only_libraries(None));
    assert!(editor_only_libraries(Some(&tagged)));
    assert!(!editor_only_libraries(Some(&untagged)));
    assert!(editor_only_libraries(Some(&vec![])));
    assert!(!editor_only_libraries(Some(&vec!["linux.editors".to_string()])));
    assert!(editor_only_libraries(Some(&vec!["editor".to_string()])));
    assert!(export_file("res://addons/godotty/godotty.gdextension", Some(&tagged)));
    assert!(export_file("res://addons/godotty/", None));
    assert!(!export_file("res://addons/godotty/godotty.gdextension", Some(&untagged)));
    assert!(!export_file("res://addons/other/x.gd", Some(&tagged)));
    assert!(!export_file("res://addons/godotty", Some(&tagged)));
}
