use godotty::path::FilePath;
use godotty::pathset::{PathMap, PathSet};
use godotty::sync::{
    autoreload_enabled, editor_node, extension_map, is_own, modal_open, restore_focus, shader_buffer_unsaved, watched, DiskState,
    ExtensionConfig, ExternalSync, ScriptFacts, Stamp, SyncStep, WatchEvent, WindowState, DELIVERED_CAP, RETRY, SETTLE,
};
use std::path::Path;

fn path(text: &str) -> FilePath {
    FilePath { parts: Path::new(text).components().map(|c| c.as_os_str().to_str().unwrap().as_bytes().to_vec()).collect() }
}

fn set(list: &[&str]) -> PathSet {
    PathSet::from_list(list.iter().map(|p| path(p)).collect())
}

fn paths(list: &[&str]) -> Vec<FilePath> {
    list.iter().map(|p| path(p)).collect()
}

fn texts(list: &[FilePath]) -> Vec<String> {
    list.iter()
        .map(|p| {
            let parts: Vec<String> = p.parts.iter().map(|b| String::from_utf8(b.clone()).unwrap()).collect();
            parts.join("/").replacen("//", "/", 1)
        })
        .collect()
}

fn in_set(s: &PathSet) -> Vec<String> {
    let mut list = texts(&s.items);
    list.sort();
    list
}

fn sync() -> ExternalSync {
    ExternalSync::new(path("/p"), Some(path("/real/p")), PathMap::new())
}

fn change(list: &[&str]) -> WatchEvent {
    WatchEvent::Change(paths(list))
}

fn disk(facts: &[(bool, Stamp)]) -> DiskState {
    DiskState { found: facts.iter().map(|f| f.0).collect(), stamps: facts.iter().map(|f| f.1).collect() }
}

fn facts(unsaved: &[&str], stamps: &[Stamp], modal: bool) -> ScriptFacts {
    ScriptFacts { autoreload: true, unsaved: Some(set(unsaved)), stamps: stamps.to_vec(), modal }
}

/// A sync that has delivered these paths at stamp 1 and queued them for the
/// script editor.
fn with_pending(list: &[&str]) -> ExternalSync {
    let mut s = sync();
    let batch = set(list);
    let stamps = vec![Some(1); list.len()];
    let fresh = s.deliver(&batch, &stamps);
    s.queue_scripts(&fresh);
    s
}

#[test]
fn editor_churn_is_not_watched() {
    assert!(watched(&path("/p/a.gd")));
    assert!(!watched(&path("/p/a.png.import")));
    assert!(!watched(&path("/p/a.gd.uid")));
    assert!(!watched(&path("/p/.godot/editor/x")));
    assert!(!watched(&path("/p/.git/HEAD")));
    assert!(watched(&path("/p/.gitignore")));
    assert!(watched(&path("/p/.import")));
}

#[test]
fn own_files_carry_the_crate_name() {
    assert!(is_own(&path("/p/addons/godotty/libgodotty.so")));
    assert!(is_own(&path("/p/addons/godotty/godotty.gdextension")));
    assert!(!is_own(&path("/p/addons/godotty/readme.md")));
    assert!(!is_own(&FilePath { parts: vec![] }));
    let broken = FilePath { parts: vec![b"\xffgodotty".to_vec()] };
    assert!(!is_own(&broken));
}

#[test]
fn resolved_paths_move_under_the_editors_root() {
    let s = sync();
    assert_eq!(texts(&[s.rooted(&path("/real/p/a.gd"))]), vec!["/p/a.gd"]);
    assert_eq!(texts(&[s.rooted(&path("/elsewhere/a.gd"))]), vec!["/elsewhere/a.gd"]);
    let plain = ExternalSync::new(path("/p"), None, PathMap::new());
    assert_eq!(texts(&[plain.rooted(&path("/p/a.gd"))]), vec!["/p/a.gd"]);
}

#[test]
fn bursts_settle_into_one_batch() {
    let mut s = sync();
    let polled = s.poll(&vec![change(&["/real/p/a.gd", "/real/p/x.uid"]), WatchEvent::Access], 10_000_000);
    assert!(polled.batch.is_none());
    // A second write starts the wait over.
    assert!(s.poll(&vec![change(&["/real/p/b.gd", "/real/p/a.gd"])], SETTLE - 1).batch.is_none());
    let polled = s.poll(&vec![], 1);
    assert_eq!(in_set(&polled.batch.unwrap()), vec!["/p/a.gd", "/p/b.gd"]);
    assert!(s.changed.is_empty());
    assert!(s.poll(&vec![], SETTLE).batch.is_none());
}

#[test]
fn reads_do_not_feed_back() {
    let mut s = sync();
    assert!(s.poll(&vec![WatchEvent::Access, change(&["/real/p/.godot/cache"])], SETTLE).batch.is_none());
    assert!(s.changed.is_empty());
}

#[test]
fn watcher_errors_are_told_once() {
    let mut s = sync();
    assert!(s.poll(&vec![WatchEvent::Failed, WatchEvent::Failed], 0).warn);
    assert!(!s.poll(&vec![WatchEvent::Failed], 0).warn);
    assert!(!s.poll(&vec![], 0).warn);
}

#[test]
fn held_work_is_retried_slowly() {
    let mut s = with_pending(&["/p/a.gd"]);
    assert!(s.has_held_work());
    assert!(s.poll(&vec![], 1).batch.unwrap().is_empty());
    assert!(s.poll(&vec![], RETRY - 1).batch.is_none());
    assert!(s.poll(&vec![], 1).batch.is_some());
    let mut idle = sync();
    assert!(!idle.has_held_work());
    assert!(idle.poll(&vec![], RETRY).batch.is_none());
}

#[test]
fn writes_are_delivered_once() {
    let mut s = sync();
    let batch = set(&["/p/a.gd", "/p/b.gd"]);
    assert_eq!(texts(&s.deliver(&batch, &vec![Some(1), None])), vec!["/p/a.gd", "/p/b.gd"]);
    assert!(s.deliver(&batch, &vec![Some(1), None]).is_empty());
    assert_eq!(texts(&s.deliver(&batch, &vec![Some(1), Some(5)])), vec!["/p/b.gd"]);
    assert_eq!(texts(&s.deliver(&batch, &vec![None, Some(5)])), vec!["/p/a.gd"]);
}

#[test]
fn missing_files_are_forgotten() {
    let mut s = sync();
    let names: Vec<String> = (0..DELIVERED_CAP + 1).map(|i| format!("/p/{i}.tmp")).collect();
    let list: Vec<&str> = names.iter().map(String::as_str).collect();
    let batch = PathSet { items: paths(&list) };
    assert!(!s.overgrown());
    s.deliver(&batch, &vec![Some(1); list.len()]);
    assert!(s.overgrown());
    let exists: Vec<bool> = (0..list.len()).map(|i| i % 100 == 0).collect();
    s.forget_missing(&exists);
    assert_eq!(s.delivered.len(), 21);
    assert!(s.delivered.get(&path("/p/100.tmp")).is_some());
    assert!(s.delivered.get(&path("/p/101.tmp")).is_none());
}

#[test]
fn libraries_belong_to_extensions() {
    let configs = vec![
        ExtensionConfig { extension: "res://a.gdextension".to_string(), readable: true, libraries: Some(paths(&["/p/liba.so", "/p/common.so"])) },
        ExtensionConfig { extension: "res://b.gdextension".to_string(), readable: true, libraries: Some(paths(&["/p/common.so"])) },
        ExtensionConfig { extension: "res://c.gdextension".to_string(), readable: false, libraries: Some(paths(&["/p/libc.so"])) },
        ExtensionConfig { extension: "res://d.gdextension".to_string(), readable: true, libraries: None },
    ];
    let map = extension_map(&configs);
    assert_eq!(map.len(), 2);
    assert_eq!(map.get(&path("/p/liba.so")).unwrap(), "res://a.gdextension");
    assert_eq!(map.get(&path("/p/common.so")).unwrap(), "res://b.gdextension");
}

#[test]
fn rebuilt_extensions_are_found() {
    let mut s = sync();
    s.extensions.insert(path("/p/liba.so"), "res://a.gdextension".to_string());
    s.extensions.insert(path("/p/libgodotty.so"), "res://godotty.gdextension".to_string());
    let change = s.extension_for(&path("/p/liba.so"), None).unwrap();
    assert_eq!((change.extension.as_str(), change.remap), ("res://a.gdextension", false));
    assert!(s.extension_for(&path("/p/libgodotty.so"), None).is_none());
    assert!(s.extension_for(&path("/p/x.gd"), Some("res://x.gd".to_string())).is_none());
    let config = s.extension_for(&path("/p/a.gdextension"), Some("res://a.gdextension".to_string())).unwrap();
    assert!(config.remap);
    assert!(s.extension_for(&path("/p/a.gdextension"), None).is_none());
    s.remap_extensions(&change, PathMap::new());
    assert_eq!(s.extensions.len(), 2);
    s.remap_extensions(&config, PathMap::new());
    assert_eq!(s.extensions.len(), 0);
}

#[test]
fn clean_scenes_reload_and_conflicts_wait() {
    let mut s = sync();
    let fresh = paths(&["/p/clean.tscn", "/p/edited.tscn", "/p/closed.tscn", "/p/gone.tscn", "/p/project.godot"]);
    let open = set(&["/p/clean.tscn", "/p/edited.tscn", "/p/gone.tscn"]);
    let facts = disk(&[(true, Some(1)), (true, Some(1)), (true, Some(1)), (false, None), (true, Some(1))]);
    let reloads = s.reload_scenes(&fresh, &open, &set(&["/p/edited.tscn"]), &facts);
    assert_eq!(texts(&reloads), vec!["/p/clean.tscn"]);
    assert_eq!(in_set(&s.scene_dialog_pending), vec!["/p/edited.tscn"]);
    assert!(s.project_pending);
}

#[test]
fn own_saves_are_left_alone() {
    let mut s = sync();
    s.note_scene_saved(path("/p/a.tscn"), Some(7));
    let fresh = paths(&["/p/a.tscn"]);
    let open = set(&["/p/a.tscn"]);
    assert!(s.reload_scenes(&fresh, &open, &set(&[]), &disk(&[(true, Some(7))])).is_empty());
    assert!(s.scene_saves.get(&path("/p/a.tscn")).is_some());
    // A later external write counts again.
    assert_eq!(s.reload_scenes(&fresh, &open, &set(&[]), &disk(&[(true, Some(8))])).len(), 1);
    assert!(s.scene_saves.get(&path("/p/a.tscn")).is_none());
}

#[test]
fn resolved_scene_conflicts_are_pruned() {
    let mut s = sync();
    for p in ["/p/held.tscn", "/p/undone.tscn", "/p/closed.tscn", "/p/saved.tscn"] {
        s.scene_conflicts.insert(path(p));
        s.delivered.insert(path(p), Some(1));
    }
    s.note_scene_saved(path("/p/saved.tscn"), Some(1));
    let open = set(&["/p/held.tscn", "/p/undone.tscn", "/p/saved.tscn"]);
    let all = (true, Some(1));
    let reloads = s.prune_scene_conflicts(&open, &set(&["/p/held.tscn"]), &disk(&[all, all, all, all]));
    assert_eq!(texts(&reloads), vec!["/p/undone.tscn"]);
    assert_eq!(in_set(&s.scene_conflicts), vec!["/p/held.tscn"]);
}

/// Whether the open scripts are to be reloaded, and whether that prompts.
fn flush(s: &mut ExternalSync, facts: &ScriptFacts) -> (bool, bool) {
    let flush = s.flush_scripts(facts);
    (flush.reload, flush.presented)
}

#[test]
fn clean_scripts_flush_silently() {
    let mut s = with_pending(&["/p/a.gd"]);
    assert_eq!(flush(&mut s, &facts(&[], &[Some(1)], false)), (true, false));
    assert!(!s.has_held_work());
    assert_eq!(flush(&mut s, &facts(&[], &[], false)), (false, false));
}

#[test]
fn script_conflicts_prompt_once_per_write() {
    let mut s = with_pending(&["/p/a.gd"]);
    assert_eq!(flush(&mut s, &facts(&["/p/a.gd"], &[Some(1)], false)), (true, true));
    assert_eq!(in_set(&s.script_conflicts), vec!["/p/a.gd"]);
    assert!(s.script_pending.is_empty());
    // Idle: no prompt, conflict held.
    assert_eq!(flush(&mut s, &facts(&["/p/a.gd"], &[], false)), (false, false));
    assert!(s.has_held_work());
    // Another write prompts again.
    let fresh = s.deliver(&set(&["/p/a.gd"]), &vec![Some(2)]);
    s.queue_scripts(&fresh);
    assert_eq!(flush(&mut s, &facts(&["/p/a.gd"], &[Some(2)], false)), (true, true));
    // Saved: the conflict dissolves with one last reload.
    assert_eq!(flush(&mut s, &facts(&[], &[], false)), (true, false));
    assert!(!s.has_held_work());
}

#[test]
fn nothing_is_presented_over_a_modal() {
    let mut s = with_pending(&["/p/a.gd"]);
    assert_eq!(flush(&mut s, &facts(&["/p/a.gd"], &[Some(1)], true)), (false, false));
    assert_eq!(in_set(&s.script_pending), vec!["/p/a.gd"]);
    assert_eq!(flush(&mut s, &facts(&[], &[Some(1)], true)), (false, false));
    assert_eq!(in_set(&s.script_pending), vec!["/p/a.gd"]);
    s.project_pending = true;
    let dialog = s.present_scene_dialog(true, &set(&[]), &set(&[]), &disk(&[]));
    assert!(!dialog.notify);
    assert!(s.project_pending);
}

#[test]
fn outstanding_conflicts_hold_clean_changes() {
    let mut s = with_pending(&["/p/a.gd"]);
    assert_eq!(flush(&mut s, &facts(&["/p/a.gd"], &[Some(1)], false)), (true, true));
    let fresh = s.deliver(&set(&["/p/b.gd"]), &vec![Some(1)]);
    s.queue_scripts(&fresh);
    assert_eq!(flush(&mut s, &facts(&["/p/a.gd"], &[Some(1)], false)), (false, false));
    assert_eq!(in_set(&s.script_pending), vec!["/p/b.gd"]);
}

#[test]
fn outdated_changes_are_no_conflict() {
    let mut s = with_pending(&["/p/a.gd"]);
    // The file moved on since it was delivered.
    assert_eq!(flush(&mut s, &facts(&["/p/a.gd"], &[Some(9)], false)), (true, false));
    assert!(s.script_conflicts.is_empty());
}

#[test]
fn without_autoreload_scripts_wait_for_the_real_focus() {
    let mut s = with_pending(&["/p/a.gd"]);
    let off = ScriptFacts { autoreload: false, ..facts(&["/p/a.gd"], &[Some(1)], false) };
    assert_eq!(flush(&mut s, &off), (false, false));
    assert!(!s.has_held_work());
    let mut s = with_pending(&["/p/a.gd"]);
    let no_editor = ScriptFacts { unsaved: None, ..facts(&[], &[Some(1)], false) };
    assert_eq!(flush(&mut s, &no_editor), (false, false));
    assert!(s.has_held_work());
    assert!(autoreload_enabled(None));
    assert!(!autoreload_enabled(Some(false)));
}

#[test]
fn scene_conflicts_raise_the_prompt() {
    let mut s = sync();
    for p in ["/p/edited.tscn", "/p/undone.tscn", "/p/moved.tscn"] {
        s.scene_dialog_pending.insert(path(p));
        s.delivered.insert(path(p), Some(1));
    }
    let open = set(&["/p/edited.tscn", "/p/undone.tscn", "/p/moved.tscn"]);
    let unsaved = set(&["/p/edited.tscn", "/p/moved.tscn"]);
    let dialog = s.present_scene_dialog(false, &open, &unsaved, &disk(&[(true, Some(1)), (true, Some(1)), (true, Some(2))]));
    assert!(dialog.notify);
    assert_eq!(texts(&dialog.reloads), vec!["/p/undone.tscn"]);
    assert_eq!(in_set(&s.scene_conflicts), vec!["/p/edited.tscn"]);
    assert!(s.scene_dialog_pending.is_empty());
    // Idle conflicts stay silent.
    assert!(!s.present_scene_dialog(false, &open, &unsaved, &disk(&[])).notify);
}

#[test]
fn project_changes_raise_the_prompt_once() {
    let mut s = sync();
    s.project_pending = true;
    assert!(s.present_scene_dialog(false, &set(&[]), &set(&[]), &disk(&[])).notify);
    assert!(!s.project_pending);
    assert!(!s.present_scene_dialog(false, &set(&[]), &set(&[]), &disk(&[])).notify);
}

#[test]
fn dissolved_conflicts_raise_no_prompt() {
    let mut s = sync();
    s.scene_dialog_pending.insert(path("/p/closed.tscn"));
    let dialog = s.present_scene_dialog(false, &set(&[]), &set(&[]), &disk(&[(true, Some(1))]));
    assert!(!dialog.notify);
    assert!(dialog.reloads.is_empty());
    assert!(!s.has_held_work());
}

#[test]
fn shaders_are_handed_over_once() {
    let mut s = sync();
    let fresh = paths(&["/p/a.gdshader", "/p/b.gdshaderinc", "/p/c.gd", "/p/gone.gdshader"]);
    s.queue_shaders(&fresh, &vec![true, true, true, false]);
    assert_eq!(in_set(&s.shader_pending), vec!["/p/a.gdshader", "/p/b.gdshaderinc"]);
    assert!(s.flush_shaders(true));
    assert!(!s.flush_shaders(true));
    s.queue_shaders(&fresh, &vec![true, true, true, false]);
    assert!(!s.flush_shaders(false));
    assert!(s.shader_pending.is_empty());
    assert!(shader_buffer_unsaved(None));
    assert!(shader_buffer_unsaved(Some((3, 2))));
    assert!(!shader_buffer_unsaved(Some((3, 3))));
}

fn steps(fresh: bool, presented: bool) -> Vec<SyncStep> {
    let mut list = Vec::new();
    let mut step = SyncStep::CaptureFocus;
    while step != SyncStep::Done {
        list.push(step);
        step = step.next(fresh, presented);
    }
    list
}

#[test]
fn syncs_run_in_order() {
    assert_eq!(
        steps(true, false),
        vec![
            SyncStep::CaptureFocus, SyncStep::Deliver, SyncStep::ScanSources, SyncStep::ReloadExtensions, SyncStep::ReloadScenes, SyncStep::QueueShaders, SyncStep::QueueScripts, SyncStep::PruneSceneConflicts, SyncStep::FlushScripts,
            SyncStep::PresentSceneDialog, SyncStep::FlushShaders, SyncStep::RestoreFocus,
        ]
    );
    assert_eq!(steps(false, true), vec![SyncStep::CaptureFocus, SyncStep::Deliver, SyncStep::PruneSceneConflicts, SyncStep::FlushScripts, SyncStep::FlushShaders, SyncStep::RestoreFocus]);
}

#[test]
fn editor_node_is_found_above() {
    let classes: Vec<String> = ["Panel", "Control", "EditorNode", "Window"].iter().map(|s| s.to_string()).collect();
    assert_eq!(editor_node(&classes), Some(2));
    assert_eq!(editor_node(&classes[..2].to_vec()), None);
}

#[test]
fn visible_exclusive_windows_are_modal() {
    let window = |visible, exclusive| WindowState { visible, exclusive };
    assert!(modal_open(&vec![window(true, false), window(true, true)]));
    assert!(!modal_open(&vec![window(true, false), window(false, true)]));
    assert!(!modal_open(&vec![]));
}

#[test]
fn focus_returns_where_it_was() {
    assert!(restore_focus(Some(1), true, Some(2)));
    assert!(!restore_focus(Some(1), true, Some(1)));
    assert!(!restore_focus(Some(1), false, Some(2)));
    assert!(!restore_focus(Some(1), true, None));
    assert!(!restore_focus(None, true, Some(2)));
}
