//! Keeps the editor in sync with external edits to the project.
//!
//! The editor reconciles the filesystem, open scripts, scenes, shaders and
//! extensions only when it regains focus. With a terminal living inside it,
//! focus never leaves, so edits made there stay invisible. A watch over the
//! project reloads everything that is safe to reload silently and live.
//!
//! Conflicts (unsaved editor state whose file also changed on disk) need a
//! human decision, so they surface the editor's own prompts: the script
//! editor's for scripts, the main one for scenes and project.godot. Both are
//! exclusive modals sharing one slot, so presentations are serialized, one at
//! a time and never over another modal. A prompt fires once per external
//! write: editing the file again on disk prompts again, but an idle
//! unresolved conflict never loops.
//!
//! The functions here decide; what they need to know of the disk and the
//! editor comes in as arguments, and what is to be done goes out.

use vstd::prelude::*;
use vstd::string::*;
use vstd::utf8::valid_utf8;

use crate::path::{contains_bytes, is_utf8, same_bytes, FilePath};
use crate::pathset::{PathMap, PathSet};

verus! {

/// Coalesce a burst of writes into one sync once the writes stop for this
/// long, in nanoseconds.
pub const SETTLE: u64 = 200_000_000;

/// Re-check held work while a conflict prompt waits on the user.
pub const RETRY: u64 = 500_000_000;

/// Delivered paths that are remembered before missing ones are dropped.
pub const DELIVERED_CAP: usize = 2048;

/// A file's modification time; none where it cannot be read.
pub type Stamp = Option<i128>;

/// The components of a path.
pub type Key = Seq<Seq<u8>>;

/// What the file watcher reports.
pub enum WatchEvent {
    /// The backend dropped events.
    Failed,
    /// A file was opened or read.
    Access,
    Change(Vec<FilePath>),
}

/// One batch of watch work.
pub struct Polled {
    /// Warn of the first watcher error.
    pub warn: bool,
    /// The batch to sync, where one is due.
    pub batch: Option<PathSet>,
}

/// Which extension a changed file belongs to.
pub struct ExtensionChange {
    pub extension: String,
    /// The extension's own description changed.
    pub remap: bool,
}

/// A loaded extension and the libraries its description names. Unreadable
/// descriptions and those without libraries name none.
pub struct ExtensionConfig {
    pub extension: String,
    pub readable: bool,
    pub libraries: Option<Vec<FilePath>>,
}

/// Outcome of flushing changes to the script editor.
#[derive(Clone, Copy, Debug, PartialEq, Eq, Structural)]
pub struct ScriptFlush {
    /// Reload the open scripts.
    pub reload: bool,
    /// Reloading them presents a prompt.
    pub presented: bool,
}

/// Outcome of offering the scene prompt.
pub struct SceneDialog {
    /// Scenes to reload silently.
    pub reloads: Vec<FilePath>,
    /// Raise the editor's prompt.
    pub notify: bool,
}

/// The order of one sync.
#[derive(Clone, Copy, Debug, PartialEq, Eq, Structural)]
pub enum SyncStep {
    CaptureFocus,
    Deliver,
    ScanSources,
    ReloadExtensions,
    ReloadScenes,
    QueueShaders,
    QueueScripts,
    PruneSceneConflicts,
    FlushScripts,
    PresentSceneDialog,
    FlushShaders,
    RestoreFocus,
    Done,
}

pub struct ExternalSync {
    /// Project root as the editor spells it, and its canonical form for
    /// remapping the resolved paths the watcher reports.
    pub root: FilePath,
    pub canonical_root: FilePath,
    pub changed: PathSet,
    pub settle: u64,
    pub retry: u64,
    /// Modification time last acted on per path.
    pub delivered: PathMap<Stamp>,
    /// Modification time right after the editor itself saved a scene.
    pub scene_saves: PathMap<Stamp>,
    /// Changes not yet flushed to the script editor.
    pub script_pending: PathSet,
    /// Script conflicts already prompted: unsaved tab, changed disk.
    pub script_conflicts: PathSet,
    /// Scene conflicts waiting for a free modal slot to be prompted.
    pub scene_dialog_pending: PathSet,
    /// Scene conflicts already prompted.
    pub scene_conflicts: PathSet,
    /// project.godot changed.
    pub project_pending: bool,
    /// Shader files changed this sync.
    pub shader_pending: PathSet,
    /// Library path to the extension it belongs to.
    pub extensions: PathMap<String>,
    /// A watcher error was already reported.
    pub watch_error_warned: bool,
}

impl ExternalSync {
    pub open spec fn wf(self) -> bool {
        &&& self.changed.wf()
        &&& self.delivered.wf()
        &&& self.scene_saves.wf()
        &&& self.script_pending.wf()
        &&& self.script_conflicts.wf()
        &&& self.scene_dialog_pending.wf()
        &&& self.scene_conflicts.wf()
        &&& self.shader_pending.wf()
        &&& self.extensions.wf()
        &&& self.canonical_root@.len() > 0
    }
}

// ---------------------------------------------------------------------------
// Paths
// ---------------------------------------------------------------------------

/// The crate's own extension: its library and its description both carry the
/// crate name.
pub open spec fn own(path: Key) -> bool {
    path.len() > 0 && valid_utf8(path.last()) && crate::path::has_word(path.last(), "godotty".spec_bytes())
}

pub fn is_own(path: &FilePath) -> (r: bool)
    ensures
        r == own(path@),
{
    let n: usize = path.parts.len();
    if n == 0 {
        return false;
    }
    let name = &path.parts[n - 1];
    assert(path@.last() == name@);
    is_utf8(name.as_slice()) && contains_bytes(name.as_slice(), "godotty".as_bytes())
}

/// Not the editor's own churn: `.godot` is rewritten by every scan, `.import`
/// and `.uid` sidecars by scans and reimports, and `.git` by the very tools
/// whose edits are tracked.
pub open spec fn is_watched(path: Key) -> bool {
    &&& !crate::path::extension_is(path, "import".spec_bytes())
    &&& !crate::path::extension_is(path, "uid".spec_bytes())
    &&& forall|i: int| 0 <= i < path.len() ==> #[trigger] path[i] != ".godot".spec_bytes() && path[i] != ".git".spec_bytes()
}

pub fn watched(path: &FilePath) -> (r: bool)
    ensures
        r == is_watched(path@),
{
    if path.has_extension("import") || path.has_extension("uid") {
        return false;
    }
    let mut i: usize = 0;
    while i < path.parts.len()
        invariant
            i <= path.parts@.len(),
            forall|k: int| 0 <= k < i ==> #[trigger] path@[k] != ".godot".spec_bytes() && path@[k] != ".git".spec_bytes(),
        decreases path.parts@.len() - i,
    {
        let part = path.parts[i].as_slice();
        assert(path@[i as int] == part@);
        if same_bytes(part, ".godot".as_bytes()) || same_bytes(part, ".git".as_bytes()) {
            return false;
        }
        i = i + 1;
    }
    true
}

/// A path as the editor spells it: below the canonical root it moves under the
/// root.
pub open spec fn rooted_key(root: Key, canonical: Key, path: Key) -> Key {
    if crate::path::under(path, canonical) {
        root + path.skip(canonical.len() as int)
    } else {
        path
    }
}

// ---------------------------------------------------------------------------
// Watch events
// ---------------------------------------------------------------------------

/// The event reports this path, and it is watched.
pub open spec fn reports(event: WatchEvent, path: Key) -> bool {
    event matches WatchEvent::Change(paths) && is_watched(path) && crate::pathset::keys_of(paths@).contains(path)
}

/// Some event reports a watched path.
pub open spec fn any_change(events: Seq<WatchEvent>) -> bool {
    exists|i: int, path: Key| 0 <= i < events.len() && #[trigger] reports(events[i], path)
}

/// Some event reports a watched path that the editor spells so.
pub open spec fn changes_to(events: Seq<WatchEvent>, root: Key, canonical: Key, key: Key) -> bool {
    exists|i: int, path: Key| 0 <= i < events.len() && #[trigger] reports(events[i], path) && rooted_key(root, canonical, path) == key
}

pub open spec fn any_failure(events: Seq<WatchEvent>) -> bool {
    exists|i: int| 0 <= i < events.len() && #[trigger] events[i] is Failed
}

pub open spec fn minus(a: int, b: int) -> int {
    if a > b {
        a - b
    } else {
        0
    }
}

impl ExternalSync {
    /// A fresh start. Where the root has no canonical form it stands for
    /// itself.
    pub fn new(root: FilePath, canonical: Option<FilePath>, extensions: PathMap<String>) -> (s: ExternalSync)
        requires
            root@.len() > 0,
            canonical matches Some(c) ==> c@.len() > 0,
            extensions.wf(),
        ensures
            s.wf(),
            s.root == root,
            s.canonical_root@ == (match canonical {
                Some(c) => c@,
                None => root@,
            }),
            s.extensions == extensions,
            s.changed@ == Set::<Key>::empty(),
            s.settle == 0,
            s.retry == 0,
            s.delivered@ == Map::<Key, Stamp>::empty(),
            s.scene_saves@ == Map::<Key, Stamp>::empty(),
            !s.held(),
            s.shader_pending@ == Set::<Key>::empty(),
            !s.watch_error_warned,
    {
        let canonical_root = match canonical {
            Some(c) => c,
            None => root.duplicate(),
        };
        ExternalSync {
            root,
            canonical_root,
            changed: PathSet::new(),
            settle: 0,
            retry: 0,
            delivered: PathMap::new(),
            scene_saves: PathMap::new(),
            script_pending: PathSet::new(),
            script_conflicts: PathSet::new(),
            scene_dialog_pending: PathSet::new(),
            scene_conflicts: PathSet::new(),
            project_pending: false,
            shader_pending: PathSet::new(),
            extensions,
            watch_error_warned: false,
        }
    }

    /// Watcher backends report resolved paths; map them back under the root
    /// spelling the editor uses so set lookups line up.
    pub fn rooted(&self, path: &FilePath) -> (moved: FilePath)
        ensures
            moved@ == rooted_key(self.root@, self.canonical_root@, path@),
    {
        path.rebased(&self.canonical_root, &self.root)
    }

    /// The editor saving a scene must not read back as an external change.
    pub fn note_scene_saved(&mut self, path: FilePath, stamp: Stamp)
        requires
            old(self).wf(),
        ensures
            final(self).wf(),
            final(self).scene_saves@ == old(self).scene_saves@.insert(path@, stamp),
            *final(self) == (ExternalSync { scene_saves: final(self).scene_saves, ..*old(self) }),
    {
        self.scene_saves.insert(path, stamp);
    }

    /// Conflicts or changes wait for the user.
    pub open spec fn held(self) -> bool {
        ||| self.script_pending@ != Set::<Key>::empty()
        ||| self.script_conflicts@ != Set::<Key>::empty()
        ||| self.scene_dialog_pending@ != Set::<Key>::empty()
        ||| self.scene_conflicts@ != Set::<Key>::empty()
        ||| self.project_pending
    }

    /// Conflicts resolve through user actions that produce no watch events (a
    /// prompt answer, a save, an undo), so held work re-checks on a slow tick.
    pub fn has_held_work(&self) -> (r: bool)
        ensures
            r == self.held(),
    {
        !self.script_pending.is_empty() || !self.script_conflicts.is_empty() || !self.scene_dialog_pending.is_empty()
            || !self.scene_conflicts.is_empty() || self.project_pending
    }

    /// Take the paths of one event.
    fn note_paths(&mut self, paths: &Vec<FilePath>) -> (any: bool)
        requires
            old(self).wf(),
        ensures
            final(self).wf(),
            *final(self) == (ExternalSync { changed: final(self).changed, ..*old(self) }),
            any == exists|p: Key| #[trigger] reports(WatchEvent::Change(*paths), p),
            forall|k: Key| #[trigger]
                final(self).changed@.contains(k) <==> old(self).changed@.contains(k) || exists|p: Key|
                    #[trigger] reports(WatchEvent::Change(*paths), p) && rooted_key(old(self).root@, old(self).canonical_root@, p) == k,
    {
        let ghost event = WatchEvent::Change(*paths);
        let ghost keys = crate::pathset::keys_of(paths@);
        let mut any: bool = false;
        let mut i: usize = 0;
        while i < paths.len()
            invariant
                i <= paths@.len(),
                self.wf(),
                event == WatchEvent::Change(*paths),
                keys == crate::pathset::keys_of(paths@),
                *self == (ExternalSync { changed: self.changed, ..*old(self) }),
                any == exists|n: int| 0 <= n < i && is_watched(#[trigger] keys[n]),
                forall|k: Key| #[trigger]
                    self.changed@.contains(k) <==> old(self).changed@.contains(k) || exists|n: int|
                        0 <= n < i && is_watched(#[trigger] keys[n]) && rooted_key(old(self).root@, old(self).canonical_root@, keys[n]) == k,
            decreases paths@.len() - i,
        {
            let ghost before = self.changed@;
            let path = &paths[i];
            assert(keys[i as int] == path@);
            if watched(path) {
                let moved = self.rooted(path);
                self.changed.insert(moved);
                any = true;
            }
            i = i + 1;
            assert forall|k: Key| #[trigger] self.changed@.contains(k) <==> old(self).changed@.contains(k) || exists|n: int|
                0 <= n < i && is_watched(#[trigger] keys[n]) && rooted_key(old(self).root@, old(self).canonical_root@, keys[n]) == k by {
                if before.contains(k) && !old(self).changed@.contains(k) {
                    let n = choose|n: int| 0 <= n < i - 1 && is_watched(#[trigger] keys[n]) && rooted_key(old(self).root@, old(self).canonical_root@, keys[n]) == k;
                    assert(keys[n] == keys[n]);
                }
            }
        }
        proof {
            assert(any == exists|p: Key| #[trigger] reports(event, p)) by {
                if any {
                    let n = choose|n: int| 0 <= n < i && is_watched(#[trigger] keys[n]);
                    assert(reports(event, keys[n]));
                }
                if exists|p: Key| #[trigger] reports(event, p) {
                    let p = choose|p: Key| #[trigger] reports(event, p);
                    let n = choose|n: int| 0 <= n < keys.len() && keys[n] == p;
                    assert(is_watched(keys[n]));
                }
            }
            assert forall|k: Key| #[trigger] self.changed@.contains(k) <==> old(self).changed@.contains(k) || exists|p: Key|
                #[trigger] reports(event, p) && rooted_key(old(self).root@, old(self).canonical_root@, p) == k by {
                if exists|n: int| 0 <= n < i && is_watched(#[trigger] keys[n]) && rooted_key(old(self).root@, old(self).canonical_root@, keys[n]) == k {
                    let n = choose|n: int| 0 <= n < i && is_watched(#[trigger] keys[n]) && rooted_key(old(self).root@, old(self).canonical_root@, keys[n]) == k;
                    assert(reports(event, keys[n]));
                }
                if exists|p: Key| #[trigger] reports(event, p) && rooted_key(old(self).root@, old(self).canonical_root@, p) == k {
                    let p = choose|p: Key| #[trigger] reports(event, p) && rooted_key(old(self).root@, old(self).canonical_root@, p) == k;
                    let n = choose|n: int| 0 <= n < keys.len() && keys[n] == p;
                    assert(is_watched(keys[n]));
                }
            }
        }
        any
    }

    /// Everything changed, counting what these events report.
    pub open spec fn changed_with(self, events: Seq<WatchEvent>) -> Set<Key> {
        Set::new(|k: Key| self.changed@.contains(k) || changes_to(events, self.root@, self.canonical_root@, k))
    }

    /// The settle time left after these events and this much time.
    pub open spec fn settle_after(self, events: Seq<WatchEvent>, delta: int) -> int {
        minus(if any_change(events) { SETTLE as int } else { self.settle as int }, delta)
    }

    /// Drain watch events.
    fn drain(&mut self, events: &Vec<WatchEvent>) -> (warn: bool)
        requires
            old(self).wf(),
        ensures
            final(self).wf(),
            *final(self) == (ExternalSync {
                changed: final(self).changed,
                settle: if any_change(events@) { SETTLE } else { old(self).settle },
                watch_error_warned: old(self).watch_error_warned || any_failure(events@),
                ..*old(self)
            }),
            final(self).changed@ == old(self).changed_with(events@),
            warn == (any_failure(events@) && !old(self).watch_error_warned),
    {
        let mut warn: bool = false;
        let mut i: usize = 0;
        assert(self.changed@ == self.changed_with(events@.take(0)));
        while i < events.len()
            invariant
                i <= events@.len(),
                self.wf(),
                *self == (ExternalSync {
                    changed: self.changed,
                    settle: if any_change(events@.take(i as int)) { SETTLE } else { old(self).settle },
                    watch_error_warned: old(self).watch_error_warned || any_failure(events@.take(i as int)),
                    ..*old(self)
                }),
                self.changed@ == old(self).changed_with(events@.take(i as int)),
                warn == (any_failure(events@.take(i as int)) && !old(self).watch_error_warned),
            decreases events@.len() - i,
        {
            let ghost seen = events@.take(i as int);
            let ghost next = events@.take(i + 1);
            proof {
                self.event_step(seen, events@[i as int]);
                assert(next == seen.push(events@[i as int]));
            }
            let ghost root = self.root@;
            let ghost canonical = self.canonical_root@;
            let ghost before = self.changed@;
            match &events[i] {
                WatchEvent::Failed => {
                    // The backend dropped events; edits may sync late.
                    if !self.watch_error_warned {
                        warn = true;
                        self.watch_error_warned = true;
                    }
                },
                // Opens and reads are dropped so the reads our own reloads
                // perform cannot feed back into the watcher.
                WatchEvent::Access => {},
                WatchEvent::Change(paths) => {
                    if self.note_paths(paths) {
                        self.settle = SETTLE;
                    }
                },
            }
            i = i + 1;
            assert(self.changed@ == old(self).changed_with(next)) by {
                assert forall|k: Key| self.changed@.contains(k) == old(self).changed_with(next).contains(k) by {
                    assert(before.contains(k) == old(self).changed_with(seen).contains(k));
                }
            }
        }
        assert(events@.take(i as int) == events@);
        warn
    }

    /// What one more event adds to the events seen.
    proof fn event_step(&self, seen: Seq<WatchEvent>, event: WatchEvent)
        ensures
            any_failure(seen.push(event)) == (any_failure(seen) || event is Failed),
            any_change(seen.push(event)) == (any_change(seen) || exists|p: Key| #[trigger] reports(event, p)),
            forall|root: Key, canonical: Key, k: Key| #[trigger]
                changes_to(seen.push(event), root, canonical, k) == (changes_to(seen, root, canonical, k) || exists|p: Key|
                    #[trigger] reports(event, p) && rooted_key(root, canonical, p) == k),
    {
        let next = seen.push(event);
        let n = seen.len() as int;
        assert(next[n] == event);
        assert forall|i: int| 0 <= i < n implies #[trigger] next[i] == seen[i] by {}
        if any_failure(seen) {
            let i = choose|i: int| 0 <= i < seen.len() && #[trigger] seen[i] is Failed;
            assert(next[i] is Failed);
        }
        if any_failure(next) {
            let i = choose|i: int| 0 <= i < next.len() && #[trigger] next[i] is Failed;
            if i < n {
                assert(seen[i] is Failed);
            }
        }
        if any_change(seen) {
            let (i, p) = choose|i: int, p: Key| 0 <= i < seen.len() && #[trigger] reports(seen[i], p);
            assert(reports(next[i], p));
        }
        if exists|p: Key| #[trigger] reports(event, p) {
            let p = choose|p: Key| #[trigger] reports(event, p);
            assert(reports(next[n], p));
        }
        if any_change(next) {
            let (i, p) = choose|i: int, p: Key| 0 <= i < next.len() && #[trigger] reports(next[i], p);
            if i < n {
                assert(reports(seen[i], p));
            }
        }
        assert forall|root: Key, canonical: Key, k: Key| #[trigger] changes_to(next, root, canonical, k) == (changes_to(seen, root, canonical, k)
            || exists|p: Key| #[trigger] reports(event, p) && rooted_key(root, canonical, p) == k) by {
            if changes_to(seen, root, canonical, k) {
                let (i, p) = choose|i: int, p: Key| 0 <= i < seen.len() && #[trigger] reports(seen[i], p) && rooted_key(root, canonical, p) == k;
                assert(reports(next[i], p));
            }
            if exists|p: Key| #[trigger] reports(event, p) && rooted_key(root, canonical, p) == k {
                let p = choose|p: Key| #[trigger] reports(event, p) && rooted_key(root, canonical, p) == k;
                assert(reports(next[n], p));
            }
            if changes_to(next, root, canonical, k) {
                let (i, p) = choose|i: int, p: Key| 0 <= i < next.len() && #[trigger] reports(next[i], p) && rooted_key(root, canonical, p) == k;
                if i < n {
                    assert(reports(seen[i], p));
                }
            }
        }
    }

    /// Drain watch events and, once a burst settles, hand out the batch to
    /// sync. Held conflict work is retried on a slower tick, with an empty
    /// batch, until the user resolves it.
    pub fn poll(&mut self, events: &Vec<WatchEvent>, delta: u64) -> (polled: Polled)
        requires
            old(self).wf(),
        ensures
            final(self).wf(),
            ({
                let changed = old(self).changed_with(events@);
                let settle = old(self).settle_after(events@, delta as int);
                let retry = minus(old(self).retry as int, delta as int);
                let due = changed != Set::<Key>::empty() && settle == 0;
                let retried = changed == Set::<Key>::empty() && old(self).held();
                &&& polled.warn == (any_failure(events@) && !old(self).watch_error_warned)
                &&& polled.batch is Some <==> due || (retried && retry == 0)
                &&& polled.batch matches Some(batch) ==> batch.wf() && batch@ == changed
                &&& final(self).changed@ == (if due { Set::<Key>::empty() } else { changed })
                &&& *final(self) == (ExternalSync {
                    changed: final(self).changed,
                    settle: if changed != Set::<Key>::empty() { settle as u64 } else { old(self).settle },
                    retry: if !retried { old(self).retry } else if retry == 0 { RETRY } else { retry as u64 },
                    watch_error_warned: old(self).watch_error_warned || any_failure(events@),
                    ..*old(self)
                })
            }),
    {
        let warn = self.drain(events);
        proof {
            if any_change(events@) {
                let (i, p) = choose|i: int, p: Key| 0 <= i < events@.len() && #[trigger] reports(events@[i], p);
                let k = rooted_key(old(self).root@, old(self).canonical_root@, p);
                assert(changes_to(events@, old(self).root@, old(self).canonical_root@, k));
                assert(self.changed@.contains(k));
            }
        }
        if !self.changed.is_empty() {
            self.settle = self.settle.saturating_sub(delta);
            if self.settle > 0 {
                return Polled { warn, batch: None };
            }
            let mut batch = PathSet::new();
            std::mem::swap(&mut batch, &mut self.changed);
            return Polled { warn, batch: Some(batch) };
        }
        if self.has_held_work() {
            self.retry = self.retry.saturating_sub(delta);
            if self.retry > 0 {
                return Polled { warn, batch: None };
            }
            self.retry = RETRY;
            return Polled { warn, batch: Some(PathSet::new()) };
        }
        Polled { warn, batch: None }
    }
}

/// A burst of writes is coalesced: while changes keep coming faster than they
/// settle, no batch is due.
pub proof fn bursts_are_coalesced(sync: ExternalSync, events: Seq<WatchEvent>, delta: u64)
    requires
        any_change(events),
        delta < SETTLE,
    ensures
        sync.settle_after(events, delta as int) > 0,
        sync.changed_with(events) != Set::<Key>::empty(),
{
    let (i, p) = choose|i: int, p: Key| 0 <= i < events.len() && #[trigger] reports(events[i], p);
    let k = rooted_key(sync.root@, sync.canonical_root@, p);
    assert(changes_to(events, sync.root@, sync.canonical_root@, k));
    assert(sync.changed_with(events).contains(k));
}

/// The reads that reloads perform cannot feed back: they change nothing and
/// restart no settling.
pub proof fn reads_do_not_feed_back(sync: ExternalSync, events: Seq<WatchEvent>, delta: u64)
    requires
        forall|i: int| 0 <= i < events.len() ==> #[trigger] events[i] is Access,
    ensures
        sync.changed_with(events) == sync.changed@,
        sync.settle_after(events, delta as int) == minus(sync.settle as int, delta as int),
        !any_failure(events),
{
    assert(sync.changed_with(events) =~= sync.changed@);
}

/// What the watcher reports below the resolved root is found under the root as
/// the editor spells it.
pub proof fn resolved_paths_line_up(root: Key, canonical: Key, rest: Key)
    ensures
        rooted_key(root, canonical, canonical + rest) == root + rest,
{
    assert((canonical + rest).take(canonical.len() as int) == canonical);
    assert((canonical + rest).skip(canonical.len() as int) == rest);
}

// ---------------------------------------------------------------------------
// Delivery
// ---------------------------------------------------------------------------

/// The map holds exactly this stamp for the path.
pub open spec fn stamped(map: Map<Key, Stamp>, key: Key, stamp: Stamp) -> bool {
    map.dom().contains(key) && map[key] == stamp
}

/// Of the first `n` paths those whose disk state moved since it was last acted
/// on.
pub open spec fn fresh_of(delivered: Map<Key, Stamp>, batch: Seq<Key>, stamps: Seq<Stamp>, n: int) -> Seq<Key>
    decreases n,
{
    if n <= 0 {
        seq![]
    } else {
        let rest = fresh_of(delivered, batch, stamps, n - 1);
        if stamped(delivered, batch[n - 1], stamps[n - 1]) {
            rest
        } else {
            rest.push(batch[n - 1])
        }
    }
}

/// The first `n` paths acted on in their present state.
pub open spec fn delivered_after(delivered: Map<Key, Stamp>, batch: Seq<Key>, stamps: Seq<Stamp>, n: int) -> Map<Key, Stamp>
    decreases n,
{
    if n <= 0 {
        delivered
    } else {
        delivered_after(delivered, batch, stamps, n - 1).insert(batch[n - 1], stamps[n - 1])
    }
}

/// Paths not among the first `n` are as they were.
proof fn delivered_frame(delivered: Map<Key, Stamp>, batch: Seq<Key>, stamps: Seq<Stamp>, n: int, key: Key)
    requires
        0 <= n <= batch.len(),
        forall|i: int| 0 <= i < n ==> #[trigger] batch[i] != key,
    ensures
        delivered_after(delivered, batch, stamps, n).dom().contains(key) == delivered.dom().contains(key),
        delivered_after(delivered, batch, stamps, n)[key] == delivered[key],
    decreases n,
{
    if n > 0 {
        delivered_frame(delivered, batch, stamps, n - 1, key);
        assert(batch[n - 1] != key);
    }
}

proof fn delivered_entry(delivered: Map<Key, Stamp>, batch: Seq<Key>, stamps: Seq<Stamp>, n: int, i: int)
    requires
        0 <= i < n <= batch.len(),
        batch.no_duplicates(),
    ensures
        stamped(delivered_after(delivered, batch, stamps, n), batch[i], stamps[i]),
    decreases n,
{
    if i < n - 1 {
        delivered_entry(delivered, batch, stamps, n - 1, i);
        assert(batch[i] != batch[n - 1]);
    }
}

proof fn fresh_members(delivered: Map<Key, Stamp>, batch: Seq<Key>, stamps: Seq<Stamp>, n: int)
    requires
        0 <= n <= batch.len(),
        batch.no_duplicates(),
    ensures
        fresh_of(delivered, batch, stamps, n).no_duplicates(),
        forall|k: Key| #[trigger] fresh_of(delivered, batch, stamps, n).contains(k) ==> batch.take(n).contains(k),
    decreases n,
{
    if n > 0 {
        fresh_members(delivered, batch, stamps, n - 1);
        let rest = fresh_of(delivered, batch, stamps, n - 1);
        let all = fresh_of(delivered, batch, stamps, n);
        assert(!batch.take(n - 1).contains(batch[n - 1]));
        crate::pathset::push_key(rest, batch[n - 1]);
        assert forall|k: Key| #[trigger] all.contains(k) implies batch.take(n).contains(k) by {
            if k == batch[n - 1] {
                assert(batch.take(n)[n - 1] == k);
            } else {
                let i = choose|i: int| 0 <= i < all.len() && all[i] == k;
                assert(rest[i] == k);
                assert(rest.contains(k));
                let prior = batch.take(n - 1);
                let j = choose|j: int| 0 <= j < prior.len() && prior[j] == k;
                assert(batch.take(n)[j] == k);
            }
        }
    }
}

/// Whether the map holds exactly this stamp for the path.
fn holds(map: &PathMap<Stamp>, path: &FilePath, stamp: Stamp) -> (r: bool)
    requires
        map.wf(),
    ensures
        r == stamped(map@, path@, stamp),
{
    match map.get(path) {
        None => false,
        Some(found) => match (*found, stamp) {
            (None, None) => true,
            (Some(a), Some(b)) => a == b,
            _ => false,
        },
    }
}

impl ExternalSync {
    /// Paths whose disk state moved since we last acted on them.
    pub fn deliver(&mut self, batch: &PathSet, stamps: &Vec<Stamp>) -> (fresh: Vec<FilePath>)
        requires
            old(self).wf(),
            batch.wf(),
            stamps@.len() == batch.list().len(),
        ensures
            final(self).wf(),
            crate::pathset::keys_of(fresh@) == fresh_of(old(self).delivered@, batch.list(), stamps@, batch.list().len() as int),
            crate::pathset::keys_of(fresh@).no_duplicates(),
            final(self).delivered@ == delivered_after(old(self).delivered@, batch.list(), stamps@, batch.list().len() as int),
            *final(self) == (ExternalSync { delivered: final(self).delivered, ..*old(self) }),
    {
        let mut fresh: Vec<FilePath> = Vec::new();
        let mut i: usize = 0;
        let ghost start = self.delivered@;
        let ghost keys = batch.list();
        assert(crate::pathset::keys_of(fresh@) == Seq::<Key>::empty());
        while i < batch.items.len()
            invariant
                i <= batch.items@.len(),
                self.wf(),
                batch.wf(),
                keys == batch.list(),
                stamps@.len() == keys.len(),
                start == old(self).delivered@,
                crate::pathset::keys_of(fresh@) == fresh_of(start, keys, stamps@, i as int),
                self.delivered@ == delivered_after(start, keys, stamps@, i as int),
                *self == (ExternalSync { delivered: self.delivered, ..*old(self) }),
            decreases batch.items@.len() - i,
        {
            let path = &batch.items[i];
            assert(path@ == keys[i as int]);
            proof {
                assert forall|j: int| 0 <= j < i implies #[trigger] keys[j] != keys[i as int] by {}
                delivered_frame(start, keys, stamps@, i as int, keys[i as int]);
            }
            let ghost before = self.delivered@;
            if !holds(&self.delivered, path, stamps[i]) {
                self.delivered.insert(path.duplicate(), stamps[i]);
                let ghost list = fresh@;
                fresh.push(path.duplicate());
                assert(crate::pathset::keys_of(fresh@) == crate::pathset::keys_of(list).push(keys[i as int]));
            } else {
                assert(before.insert(keys[i as int], stamps@[i as int]) =~= before);
            }
            i = i + 1;
        }
        proof {
            fresh_members(start, keys, stamps@, keys.len() as int);
        }
        fresh
    }

    /// Tools churn out temp and backup files, so past this size the entries
    /// are checked against the disk.
    pub fn overgrown(&self) -> (r: bool)
        ensures
            r == (self.delivered.keys().len() > DELIVERED_CAP),
    {
        self.delivered.len() > DELIVERED_CAP
    }

    /// Drop the delivered entries whose path no longer exists, so that the map
    /// cannot grow unbounded. A reappearing path is simply fresh again.
    pub fn forget_missing(&mut self, exists_on_disk: &Vec<bool>)
        requires
            old(self).wf(),
            exists_on_disk@.len() == old(self).delivered.keys().len(),
        ensures
            final(self).wf(),
            forall|k: Key| #[trigger]
                final(self).delivered@.dom().contains(k) ==> old(self).delivered@.dom().contains(k) && final(self).delivered@[k]
                    == old(self).delivered@[k],
            forall|i: int|
                0 <= i < exists_on_disk@.len() ==> final(self).delivered@.dom().contains(#[trigger] old(self).delivered.keys()[i])
                    == exists_on_disk@[i],
            *final(self) == (ExternalSync { delivered: final(self).delivered, ..*old(self) }),
    {
        self.delivered.retain(exists_on_disk);
    }
}

/// Duplicate watch events for one write are not delivered twice: a batch in
/// the state it was delivered in has nothing fresh.
pub proof fn redelivery_is_silent(delivered: Map<Key, Stamp>, batch: Seq<Key>, stamps: Seq<Stamp>, n: int)
    requires
        0 <= n <= batch.len(),
        batch.no_duplicates(),
    ensures
        fresh_of(delivered_after(delivered, batch, stamps, batch.len() as int), batch, stamps, n) == Seq::<Key>::empty(),
    decreases n,
{
    if n > 0 {
        redelivery_is_silent(delivered, batch, stamps, n - 1);
        delivered_entry(delivered, batch, stamps, batch.len() as int, n - 1);
    }
}

/// A path whose disk state moved since the last delivery is fresh again.
pub proof fn rewrites_are_fresh(delivered: Map<Key, Stamp>, batch: Seq<Key>, stamps: Seq<Stamp>, n: int, i: int)
    requires
        0 <= i < n <= batch.len(),
        !stamped(delivered, batch[i], stamps[i]),
    ensures
        fresh_of(delivered, batch, stamps, n).contains(batch[i]),
    decreases n,
{
    let all = fresh_of(delivered, batch, stamps, n);
    if i == n - 1 {
        assert(all.last() == batch[i]);
    } else {
        rewrites_are_fresh(delivered, batch, stamps, n - 1, i);
        let rest = fresh_of(delivered, batch, stamps, n - 1);
        let j = choose|j: int| 0 <= j < rest.len() && rest[j] == batch[i];
        assert(all[j] == batch[i]);
    }
}

// ---------------------------------------------------------------------------
// Extensions
// ---------------------------------------------------------------------------

impl ExternalSync {
    /// The extension a changed file belongs to: the one that names the library,
    /// or the one that a changed description describes.
    pub open spec fn extension_at(self, path: Key, localized: Option<Seq<char>>) -> Option<Seq<char>> {
        if own(path) {
            None
        } else if self.extensions@.dom().contains(path) {
            Some(self.extensions@[path]@)
        } else if crate::path::extension_is(path, "gdextension".spec_bytes()) {
            localized
        } else {
            None
        }
    }

    /// Which extension to hot reload for a changed file; `localized` is the
    /// file's project path. Our own library is never reloaded: tearing down
    /// the extension this terminal runs from crashes the editor.
    pub fn extension_for(&self, path: &FilePath, localized: Option<String>) -> (change: Option<ExtensionChange>)
        requires
            self.wf(),
        ensures
            ({
                let found = self.extension_at(path@, match localized {
                    Some(l) => Some(l@),
                    None => None,
                });
                &&& change is Some <==> found is Some
                &&& change matches Some(c) ==> Some(c.extension@) == found && c.remap == crate::path::extension_is(
                    path@,
                    "gdextension".spec_bytes(),
                )
            }),
    {
        if is_own(path) {
            return None;
        }
        let remap = path.has_extension("gdextension");
        match self.extensions.get(path) {
            Some(extension) => Some(ExtensionChange { extension: extension.clone(), remap }),
            None => match localized {
                Some(extension) if remap => Some(ExtensionChange { extension, remap }),
                _ => None,
            },
        }
    }

    /// After a reload was ordered: take the new library map where the
    /// extension's description changed.
    pub fn remap_extensions(&mut self, change: &ExtensionChange, map: PathMap<String>)
        requires
            old(self).wf(),
            map.wf(),
        ensures
            final(self).wf(),
            *final(self) == (ExternalSync { extensions: if change.remap { map } else { old(self).extensions }, ..*old(self) }),
    {
        if change.remap {
            self.extensions = map;
        }
    }
}

/// The extension this terminal runs from is never reloaded, whatever names it.
pub proof fn own_extension_is_never_reloaded(sync: ExternalSync, path: Key, localized: Option<Seq<char>>)
    requires
        own(path),
    ensures
        sync.extension_at(path, localized) is None,
{
}

/// The libraries that an extension contributes.
pub open spec fn libraries_of(config: ExtensionConfig) -> Seq<Key> {
    match config.libraries {
        Some(list) if config.readable => crate::pathset::keys_of(list@),
        _ => seq![],
    }
}

/// The last of the first `n` extensions that names this library.
pub open spec fn owner_of(configs: Seq<ExtensionConfig>, n: int, key: Key) -> Option<Seq<char>>
    decreases n,
{
    if n <= 0 {
        None
    } else if libraries_of(configs[n - 1]).contains(key) {
        Some(configs[n - 1].extension@)
    } else {
        owner_of(configs, n - 1, key)
    }
}

pub open spec fn maps_to(map: Map<Key, String>, key: Key, owner: Option<Seq<char>>) -> bool {
    match owner {
        Some(name) => map.dom().contains(key) && map[key]@ == name,
        None => !map.dom().contains(key),
    }
}

/// The map tells the owner of every library.
pub open spec fn maps_libraries(map: Map<Key, String>, configs: Seq<ExtensionConfig>) -> bool {
    forall|k: Key| #[trigger] maps_to(map, k, owner_of(configs, configs.len() as int, k))
}

/// Loaded descriptions name their libraries per platform; any of those
/// changing on disk means that extension was rebuilt.
pub fn extension_map(configs: &Vec<ExtensionConfig>) -> (map: PathMap<String>)
    ensures
        map.wf(),
        maps_libraries(map@, configs@),
{
    let mut map: PathMap<String> = PathMap::new();
    let mut i: usize = 0;
    while i < configs.len()
        invariant
            i <= configs@.len(),
            map.wf(),
            forall|k: Key| #[trigger] maps_to(map@, k, owner_of(configs@, i as int, k)),
        decreases configs@.len() - i,
    {
        let config = &configs[i];
        let ghost before = map@;
        if config.readable {
            if let Some(libraries) = &config.libraries {
                let ghost keys = crate::pathset::keys_of(libraries@);
                let mut j: usize = 0;
                while j < libraries.len()
                    invariant
                        j <= libraries@.len(),
                        map.wf(),
                        keys == crate::pathset::keys_of(libraries@),
                        forall|k: Key|
                            keys.take(j as int).contains(k) ==> #[trigger] map@.dom().contains(k) && map@[k]@ == config.extension@,
                        forall|k: Key|
                            !keys.take(j as int).contains(k) ==> #[trigger] map@.dom().contains(k) == before.dom().contains(k) && map@[k] == before[k],
                    decreases libraries@.len() - j,
                {
                    let ghost prior = map@;
                    map.insert(libraries[j].duplicate(), config.extension.clone());
                    j = j + 1;
                    proof {
                        assert(keys.take(j as int) == keys.take(j - 1).push(keys[j - 1]));
                        crate::pathset::push_key(keys.take(j - 1), keys[j - 1]);
                        assert forall|k: Key| keys.take(j as int).contains(k) <==> (keys.take(j - 1).contains(k) || k == keys[j - 1]) by {
                            assert(keys.take(j as int).to_set().contains(k) == keys.take(j - 1).to_set().insert(keys[j - 1]).contains(k));
                        }
                    }
                }
                assert(keys.take(j as int) == keys);
            }
        }
        i = i + 1;
        assert forall|k: Key| #[trigger] maps_to(map@, k, owner_of(configs@, i as int, k)) by {
            assert(maps_to(before, k, owner_of(configs@, i - 1, k)));
            if libraries_of(*config).contains(k) {
                assert(map@.dom().contains(k));
            } else {
                assert(map@.dom().contains(k) == before.dom().contains(k));
            }
        }
    }
    map
}

// ---------------------------------------------------------------------------
// Scenes
// ---------------------------------------------------------------------------

/// What is known of a list of paths: whether each exists and when it was last
/// modified.
pub struct DiskState {
    pub found: Vec<bool>,
    pub stamps: Vec<Stamp>,
}

impl DiskState {
    pub open spec fn covers(self, n: nat) -> bool {
        self.found@.len() == n && self.stamps@.len() == n
    }
}

/// The project's settings file.
pub open spec fn project_file(root: Key) -> Key {
    root.push("project.godot".spec_bytes())
}

impl ExternalSync {
    /// The i-th fresh path is an open scene that the editor did not just save
    /// itself.
    pub open spec fn scene_changed(self, fresh: Seq<Key>, open: Set<Key>, disk: DiskState, i: int) -> bool {
        &&& fresh[i] != project_file(self.root@)
        &&& open.contains(fresh[i])
        &&& disk.found@[i]
        &&& !stamped(self.scene_saves@, fresh[i], disk.stamps@[i])
    }

    /// Of the first `n` fresh paths the changed scenes with or without unsaved
    /// edits.
    pub open spec fn changed_scenes(self, fresh: Seq<Key>, open: Set<Key>, unsaved: Set<Key>, disk: DiskState, edited: bool, n: int) -> Seq<Key>
        decreases n,
    {
        if n <= 0 {
            seq![]
        } else {
            let rest = self.changed_scenes(fresh, open, unsaved, disk, edited, n - 1);
            if self.scene_changed(fresh, open, disk, n - 1) && unsaved.contains(fresh[n - 1]) == edited {
                rest.push(fresh[n - 1])
            } else {
                rest
            }
        }
    }

    /// Open, unmodified scenes reload silently: the result, in order.
    /// Conflicted scenes and project.godot queue for the editor's prompt,
    /// which owns the only reload paths for both.
    pub fn reload_scenes(&mut self, fresh: &Vec<FilePath>, open: &PathSet, unsaved: &PathSet, disk: &DiskState) -> (reloads: Vec<FilePath>)
        requires
            old(self).wf(),
            crate::pathset::keys_of(fresh@).no_duplicates(),
            disk.covers(fresh@.len()),
        ensures
            final(self).wf(),
            ({
                let keys = crate::pathset::keys_of(fresh@);
                let n = keys.len() as int;
                let silent = old(self).changed_scenes(keys, open@, unsaved@, *disk, false, n);
                let conflicts = old(self).changed_scenes(keys, open@, unsaved@, *disk, true, n);
                &&& crate::pathset::keys_of(reloads@) == silent
                &&& final(self).scene_dialog_pending@ == old(self).scene_dialog_pending@ + conflicts.to_set()
                &&& final(self).scene_saves@ == old(self).scene_saves@.remove_keys(silent.to_set() + conflicts.to_set())
                &&& final(self).project_pending == (old(self).project_pending || keys.contains(project_file(old(self).root@)))
            }),
            *final(self) == (ExternalSync {
                scene_dialog_pending: final(self).scene_dialog_pending,
                scene_saves: final(self).scene_saves,
                project_pending: final(self).project_pending,
                ..*old(self)
            }),
    {
        let project = self.root.join("project.godot");
        let mut reloads: Vec<FilePath> = Vec::new();
        let mut i: usize = 0;
        let ghost keys = crate::pathset::keys_of(fresh@);
        let ghost was = *self;
        proof {
            let none = Seq::<Key>::empty();
            assert(none.to_set() == Set::<Key>::empty());
            assert(crate::pathset::keys_of(reloads@) == none);
            assert(was.scene_dialog_pending@ + none.to_set() == was.scene_dialog_pending@);
            assert(was.scene_saves@.remove_keys(none.to_set() + none.to_set()) == was.scene_saves@);
        }
        while i < fresh.len()
            invariant
                i <= fresh@.len(),
                was == *old(self),
                was.wf(),
                self.wf(),
                keys == crate::pathset::keys_of(fresh@),
                keys.no_duplicates(),
                disk.covers(fresh@.len()),
                project@ == project_file(was.root@),
                crate::pathset::keys_of(reloads@) == was.changed_scenes(keys, open@, unsaved@, *disk, false, i as int),
                self.scene_dialog_pending@ == was.scene_dialog_pending@ + was.changed_scenes(keys, open@, unsaved@, *disk, true, i as int).to_set(),
                self.scene_saves@ == was.scene_saves@.remove_keys(
                    was.changed_scenes(keys, open@, unsaved@, *disk, false, i as int).to_set() + was.changed_scenes(
                        keys,
                        open@,
                        unsaved@,
                        *disk,
                        true,
                        i as int,
                    ).to_set(),
                ),
                self.project_pending == (was.project_pending || keys.take(i as int).contains(project@)),
                *self == (ExternalSync {
                    scene_dialog_pending: self.scene_dialog_pending,
                    scene_saves: self.scene_saves,
                    project_pending: self.project_pending,
                    ..was
                }),
            decreases fresh@.len() - i,
        {
            let path = &fresh[i];
            let ghost key = keys[i as int];
            let ghost silent = was.changed_scenes(keys, open@, unsaved@, *disk, false, i as int);
            let ghost conflicts = was.changed_scenes(keys, open@, unsaved@, *disk, true, i as int);
            proof {
                assert(path@ == key);
                was.scenes_seen(keys, open@, unsaved@, *disk, false, i as int);
                was.scenes_seen(keys, open@, unsaved@, *disk, true, i as int);
                assert(keys.take(i + 1) == keys.take(i as int).push(key));
                crate::pathset::push_key(keys.take(i as int), key);
                crate::pathset::push_key(silent, key);
                crate::pathset::push_key(conflicts, key);
                assert(keys.take(i + 1).contains(project@) == (keys.take(i as int).contains(project@) || key == project@)) by {
                    assert(keys.take(i + 1).to_set().contains(project@) == keys.take(i as int).to_set().insert(key).contains(project@));
                }
                // No earlier path is this one, so its entry is as it was.
                assert(!keys.take(i as int).contains(key));
                assert(!silent.contains(key));
                assert(!conflicts.contains(key));
                assert(self.scene_saves@.dom().contains(key) == was.scene_saves@.dom().contains(key));
                assert(self.scene_saves@.dom().contains(key) ==> self.scene_saves@[key] == was.scene_saves@[key]);
            }
            i = i + 1;
            if path.same(&project) {
                self.project_pending = true;
                continue;
            }
            if !open.contains(path) || !disk.found[i - 1] || holds(&self.scene_saves, path, disk.stamps[i - 1]) {
                continue;
            }
            self.scene_saves.remove(path);
            if unsaved.contains(path) {
                self.scene_dialog_pending.insert(path.duplicate());
                proof {
                    assert(was.scene_dialog_pending@ + conflicts.push(key).to_set() =~= (was.scene_dialog_pending@ + conflicts.to_set()).insert(key));
                    assert(was.scene_saves@.remove_keys(silent.to_set() + conflicts.push(key).to_set()) =~= was.scene_saves@.remove_keys(
                        silent.to_set() + conflicts.to_set(),
                    ).remove(key));
                }
            } else {
                let ghost list = reloads@;
                reloads.push(path.duplicate());
                proof {
                    assert(crate::pathset::keys_of(reloads@) == crate::pathset::keys_of(list).push(key));
                    assert(was.scene_saves@.remove_keys(silent.push(key).to_set() + conflicts.to_set()) =~= was.scene_saves@.remove_keys(
                        silent.to_set() + conflicts.to_set(),
                    ).remove(key));
                }
            }
        }
        assert(keys.take(i as int) == keys);
        reloads
    }

    /// Changed scenes are among the paths seen.
    proof fn scenes_seen(self, fresh: Seq<Key>, open: Set<Key>, unsaved: Set<Key>, disk: DiskState, edited: bool, n: int)
        requires
            0 <= n <= fresh.len(),
        ensures
            forall|k: Key| #[trigger]
                self.changed_scenes(fresh, open, unsaved, disk, edited, n).contains(k) ==> fresh.take(n).contains(k) && unsaved.contains(k) == edited
                    && k != project_file(self.root@) && open.contains(k),
        decreases n,
    {
        if n > 0 {
            self.scenes_seen(fresh, open, unsaved, disk, edited, n - 1);
            let rest = self.changed_scenes(fresh, open, unsaved, disk, edited, n - 1);
            let all = self.changed_scenes(fresh, open, unsaved, disk, edited, n);
            assert(fresh.take(n) == fresh.take(n - 1).push(fresh[n - 1]));
            crate::pathset::push_key(rest, fresh[n - 1]);
            crate::pathset::push_key(fresh.take(n - 1), fresh[n - 1]);
            assert forall|k: Key| #[trigger] all.contains(k) implies fresh.take(n).contains(k) && unsaved.contains(k) == edited && k != project_file(
                self.root@,
            ) && open.contains(k) by {
                assert(rest.push(fresh[n - 1]).to_set().contains(k) == rest.to_set().insert(fresh[n - 1]).contains(k));
                assert(fresh.take(n).to_set().contains(k) == fresh.take(n - 1).to_set().insert(fresh[n - 1]).contains(k));
                assert(all.to_set().contains(k));
                if rest.to_set().contains(k) {
                    assert(rest.contains(k));
                }
            }
        }
    }

    /// The disk state last acted on is still there, and the editor did not
    /// write it.
    pub open spec fn is_stale(self, key: Key, found: bool, stamp: Stamp) -> bool {
        found && stamped(self.delivered@, key, stamp) && !stamped(self.scene_saves@, key, stamp)
    }

    /// Of the first `n` prompted conflicts those still open and unsaved.
    pub open spec fn kept_conflicts(self, open: Set<Key>, unsaved: Set<Key>, n: int) -> Seq<Key>
        decreases n,
    {
        if n <= 0 {
            seq![]
        } else {
            let rest = self.kept_conflicts(open, unsaved, n - 1);
            let key = self.scene_conflicts.list()[n - 1];
            if open.contains(key) && unsaved.contains(key) {
                rest.push(key)
            } else {
                rest
            }
        }
    }

    /// Of the first `n` prompted conflicts those left open and clean but
    /// stale.
    pub open spec fn stale_conflicts(self, open: Set<Key>, unsaved: Set<Key>, disk: DiskState, n: int) -> Seq<Key>
        decreases n,
    {
        if n <= 0 {
            seq![]
        } else {
            let rest = self.stale_conflicts(open, unsaved, disk, n - 1);
            let key = self.scene_conflicts.list()[n - 1];
            if open.contains(key) && !unsaved.contains(key) && self.is_stale(key, disk.found@[n - 1], disk.stamps@[n - 1]) {
                rest.push(key)
            } else {
                rest
            }
        }
    }

    /// Drop resolved conflicts; hand out those left clean but stale by an
    /// undo, to reload. `disk` tells of the conflicts in their order.
    pub fn prune_scene_conflicts(&mut self, open: &PathSet, unsaved: &PathSet, disk: &DiskState) -> (reloads: Vec<FilePath>)
        requires
            old(self).wf(),
            disk.covers(old(self).scene_conflicts.list().len()),
        ensures
            final(self).wf(),
            ({
                let n = old(self).scene_conflicts.list().len() as int;
                &&& crate::pathset::keys_of(reloads@) == old(self).stale_conflicts(open@, unsaved@, *disk, n)
                &&& final(self).scene_conflicts.list() == old(self).kept_conflicts(open@, unsaved@, n)
            }),
            *final(self) == (ExternalSync { scene_conflicts: final(self).scene_conflicts, ..*old(self) }),
    {
        let mut reloads: Vec<FilePath> = Vec::new();
        let mut kept = PathSet::new();
        let mut i: usize = 0;
        let ghost keys = self.scene_conflicts.list();
        assert(crate::pathset::keys_of(reloads@) == Seq::<Key>::empty());
        while i < self.scene_conflicts.items.len()
            invariant
                i <= keys.len(),
                *self == *old(self),
                self.wf(),
                kept.wf(),
                keys == self.scene_conflicts.list(),
                disk.covers(keys.len()),
                crate::pathset::keys_of(reloads@) == self.stale_conflicts(open@, unsaved@, *disk, i as int),
                kept.list() == self.kept_conflicts(open@, unsaved@, i as int),
                forall|k: Key| #[trigger] kept@.contains(k) ==> keys.take(i as int).contains(k),
            decreases keys.len() - i,
        {
            let path = &self.scene_conflicts.items[i];
            let ghost key = keys[i as int];
            assert(path@ == key);
            proof {
                assert(!keys.take(i as int).contains(key));
                assert(keys.take(i + 1) == keys.take(i as int).push(key));
                crate::pathset::push_key(keys.take(i as int), key);
                assert forall|k: Key| keys.take(i as int).contains(k) || k == key implies #[trigger] keys.take(i + 1).contains(k) by {
                    assert(keys.take(i + 1).to_set().contains(k) == keys.take(i as int).to_set().insert(key).contains(k));
                }
            }
            let is_open = open.contains(path);
            if is_open && unsaved.contains(path) {
                kept.insert(path.duplicate());
            } else if is_open && disk.found[i] && holds(&self.delivered, path, disk.stamps[i]) && !holds(
                &self.scene_saves,
                path,
                disk.stamps[i],
            ) {
                let ghost list = reloads@;
                reloads.push(path.duplicate());
                assert(crate::pathset::keys_of(reloads@) == crate::pathset::keys_of(list).push(key));
            }
            i = i + 1;
        }
        self.scene_conflicts = kept;
        reloads
    }
}

/// Silent reloads never touch a scene with unsaved edits, so they lose none.
pub proof fn unsaved_scenes_are_never_reloaded(sync: ExternalSync, fresh: Seq<Key>, open: Set<Key>, unsaved: Set<Key>, disk: DiskState, key: Key)
    requires
        unsaved.contains(key),
    ensures
        !sync.changed_scenes(fresh, open, unsaved, disk, false, fresh.len() as int).contains(key),
{
    sync.scenes_seen(fresh, open, unsaved, disk, false, fresh.len() as int);
}

/// A scene found on disk exactly as the editor saved it is neither reloaded
/// nor prompted for.
pub proof fn own_saves_do_not_read_back(
    before: ExternalSync,
    after: ExternalSync,
    key: Key,
    stamp: Stamp,
    fresh: Seq<Key>,
    open: Set<Key>,
    unsaved: Set<Key>,
    disk: DiskState,
    edited: bool,
    n: int,
)
    requires
        0 <= n <= fresh.len(),
        after.scene_saves@ == before.scene_saves@.insert(key, stamp),
        forall|i: int| 0 <= i < fresh.len() && #[trigger] fresh[i] == key ==> disk.stamps@[i] == stamp,
    ensures
        !after.changed_scenes(fresh, open, unsaved, disk, edited, n).contains(key),
    decreases n,
{
    if n > 0 {
        own_saves_do_not_read_back(before, after, key, stamp, fresh, open, unsaved, disk, edited, n - 1);
        let rest = after.changed_scenes(fresh, open, unsaved, disk, edited, n - 1);
        crate::pathset::push_key(rest, fresh[n - 1]);
        assert(rest.push(fresh[n - 1]).to_set().contains(key) == rest.to_set().insert(fresh[n - 1]).contains(key));
        if fresh[n - 1] == key {
            assert(!after.scene_changed(fresh, open, disk, n - 1));
        }
    }
}

// ---------------------------------------------------------------------------
// Scripts
// ---------------------------------------------------------------------------

/// What the script editor's flush finds.
pub struct ScriptFacts {
    /// The editor reloads clean tabs without asking.
    pub autoreload: bool,
    /// Unsaved tabs, where there is a script editor.
    pub unsaved: Option<PathSet>,
    /// Modification times of the pending paths, in their order.
    pub stamps: Vec<Stamp>,
    /// A modal window is up.
    pub modal: bool,
}

/// Of the first `n` paths those in the set.
pub open spec fn among(list: Seq<Key>, set: Set<Key>, n: int) -> Seq<Key>
    decreases n,
{
    if n <= 0 {
        seq![]
    } else {
        let rest = among(list, set, n - 1);
        if set.contains(list[n - 1]) {
            rest.push(list[n - 1])
        } else {
            rest
        }
    }
}

/// Of the first `n` paths those in the set whose file still holds the change
/// that was delivered.
pub open spec fn current_among(delivered: Map<Key, Stamp>, list: Seq<Key>, stamps: Seq<Stamp>, set: Set<Key>, n: int) -> Seq<Key>
    decreases n,
{
    if n <= 0 {
        seq![]
    } else {
        let rest = current_among(delivered, list, stamps, set, n - 1);
        if set.contains(list[n - 1]) && stamped(delivered, list[n - 1], stamps[n - 1]) {
            rest.push(list[n - 1])
        } else {
            rest
        }
    }
}

impl ExternalSync {
    /// Prompted script conflicts that are still unsaved.
    pub open spec fn outstanding(self, unsaved: Set<Key>) -> Set<Key> {
        among(self.script_conflicts.list(), unsaved, self.script_conflicts.list().len() as int).to_set()
    }

    /// Pending changes that conflict with an unsaved tab.
    pub open spec fn new_conflicts(self, stamps: Seq<Stamp>, unsaved: Set<Key>) -> Set<Key> {
        let list = self.script_pending.list();
        current_among(self.delivered@, list, stamps, unsaved, list.len() as int).to_set()
    }

    /// Whether a flush reloads the open scripts.
    pub open spec fn flush_reloads(self, facts: ScriptFacts) -> bool {
        let none = Set::<Key>::empty();
        match facts.unsaved {
            Some(unsaved) => {
                &&& self.script_pending@ != none || self.script_conflicts@ != none
                &&& facts.autoreload
                &&& !facts.modal
                &&& self.new_conflicts(facts.stamps@, unsaved@) != none || self.outstanding(unsaved@) == none
            },
            None => false,
        }
    }

    /// Whether a flush presents a prompt: it reloads over a tab with unsaved
    /// edits. Any other reload is silent.
    pub open spec fn flush_prompts(self, facts: ScriptFacts) -> bool {
        self.flush_reloads(facts) && (facts.unsaved matches Some(unsaved) && self.new_conflicts(facts.stamps@, unsaved@) != Set::<Key>::empty())
    }

    /// The conflicts after a flush: resolved ones are dropped, presented ones
    /// join.
    pub open spec fn flush_conflicts(self, facts: ScriptFacts) -> Set<Key> {
        if !facts.autoreload {
            Set::empty()
        } else {
            match facts.unsaved {
                Some(unsaved) => {
                    if self.flush_reloads(facts) {
                        self.outstanding(unsaved@) + self.new_conflicts(facts.stamps@, unsaved@)
                    } else {
                        self.outstanding(unsaved@)
                    }
                },
                None => self.script_conflicts@,
            }
        }
    }

    /// The pending changes after a flush: none once they are handed over.
    pub open spec fn flush_pending(self, facts: ScriptFacts) -> Set<Key> {
        if !facts.autoreload || self.flush_reloads(facts) {
            Set::empty()
        } else {
            self.script_pending@
        }
    }

    /// The script editor's refresh is all-or-nothing: it silently reloads
    /// every clean changed tab, but prompts if any changed tab is unsaved.
    /// Each fresh external write to an unsaved tab presents that prompt, when
    /// no other modal is up. With no conflicts at all the flush is silent.
    /// Tells whether to reload the open scripts, and whether that presents a
    /// prompt.
    pub fn flush_scripts(&mut self, facts: &ScriptFacts) -> (flush: ScriptFlush)
        requires
            old(self).wf(),
            facts.unsaved matches Some(unsaved) ==> unsaved.wf(),
            facts.stamps@.len() == old(self).script_pending.list().len(),
        ensures
            final(self).wf(),
            flush.reload == old(self).flush_reloads(*facts),
            flush.presented == old(self).flush_prompts(*facts),
            final(self).script_conflicts@ == old(self).flush_conflicts(*facts),
            final(self).script_pending@ == old(self).flush_pending(*facts),
            *final(self) == (ExternalSync {
                script_conflicts: final(self).script_conflicts,
                script_pending: final(self).script_pending,
                ..*old(self)
            }),
    {
        let ghost was = *self;
        if self.script_pending.is_empty() && self.script_conflicts.is_empty() {
            proof {
                if let Some(unsaved) = &facts.unsaved {
                    assert(was.outstanding(unsaved@) == Set::<Key>::empty()) by {
                        assert(Seq::<Key>::empty().to_set() == Set::<Key>::empty());
                    }
                }
            }
            return ScriptFlush { reload: false, presented: false };
        }
        if !facts.autoreload {
            // The user chose prompts everywhere, which belongs to the real
            // focus-in, not a background sync.
            self.script_pending = PathSet::new();
            self.script_conflicts = PathSet::new();
            return ScriptFlush { reload: false, presented: false };
        }
        let unsaved = match &facts.unsaved {
            Some(unsaved) => unsaved,
            None => {
                return ScriptFlush { reload: false, presented: false };
            },
        };
        let mut outstanding = PathSet::new();
        let mut i: usize = 0;
        let ghost held = self.script_conflicts.list();
        assert(Seq::<Key>::empty().to_set() == Set::<Key>::empty());
        while i < self.script_conflicts.items.len()
            invariant
                i <= held.len(),
                *self == was,
                was.wf(),
                outstanding.wf(),
                held == self.script_conflicts.list(),
                outstanding@ == among(held, unsaved@, i as int).to_set(),
            decreases held.len() - i,
        {
            let path = &self.script_conflicts.items[i];
            assert(path@ == held[i as int]);
            if unsaved.contains(path) {
                outstanding.insert(path.duplicate());
                proof {
                    crate::pathset::push_key(among(held, unsaved@, i as int), held[i as int]);
                }
            }
            i = i + 1;
        }
        let mut joined = PathSet::new();
        let mut j: usize = 0;
        let ghost pending = self.script_pending.list();
        while j < self.script_pending.items.len()
            invariant
                j <= pending.len(),
                *self == was,
                was.wf(),
                joined.wf(),
                pending == self.script_pending.list(),
                facts.stamps@.len() == pending.len(),
                joined@ == current_among(was.delivered@, pending, facts.stamps@, unsaved@, j as int).to_set(),
            decreases pending.len() - j,
        {
            let path = &self.script_pending.items[j];
            assert(path@ == pending[j as int]);
            if unsaved.contains(path) && holds(&self.delivered, path, facts.stamps[j]) {
                joined.insert(path.duplicate());
                proof {
                    crate::pathset::push_key(
                        current_among(was.delivered@, pending, facts.stamps@, unsaved@, j as int),
                        pending[j as int],
                    );
                }
            }
            j = j + 1;
        }
        assert(outstanding@ == was.outstanding(unsaved@));
        assert(joined@ == was.new_conflicts(facts.stamps@, unsaved@));
        if !joined.is_empty() {
            if facts.modal {
                self.script_conflicts = outstanding;
                return ScriptFlush { reload: false, presented: false };
            }
            extend(&mut outstanding, &joined);
            self.script_conflicts = outstanding;
            self.script_pending = PathSet::new();
            return ScriptFlush { reload: true, presented: true };
        }
        let conflicted = !outstanding.is_empty();
        proof {
            assert(was.outstanding(unsaved@) + was.new_conflicts(facts.stamps@, unsaved@) == was.outstanding(unsaved@));
        }
        self.script_conflicts = outstanding;
        if conflicted {
            return ScriptFlush { reload: false, presented: false };
        }
        // Pending changes are all clean, or the last conflict dissolved.
        // Reloading can pop a dialog; never over an open modal.
        if facts.modal {
            return ScriptFlush { reload: false, presented: false };
        }
        self.script_pending = PathSet::new();
        ScriptFlush { reload: true, presented: false }
    }
}

fn extend(set: &mut PathSet, more: &PathSet)
    requires
        old(set).wf(),
    ensures
        final(set).wf(),
        final(set)@ == old(set)@ + more@,
{
    let mut i: usize = 0;
    let ghost keys = more.list();
    assert(keys.take(0).to_set() == Set::<Key>::empty());
    assert(set@ + Set::<Key>::empty() == set@);
    while i < more.items.len()
        invariant
            i <= keys.len(),
            keys == more.list(),
            set.wf(),
            set@ == old(set)@ + keys.take(i as int).to_set(),
        decreases keys.len() - i,
    {
        set.insert(more.items[i].duplicate());
        proof {
            assert(keys.take(i + 1) == keys.take(i as int).push(keys[i as int]));
            crate::pathset::push_key(keys.take(i as int), keys[i as int]);
            assert(old(set)@ + keys.take(i + 1).to_set() =~= (old(set)@ + keys.take(i as int).to_set()).insert(keys[i as int]));
        }
        i = i + 1;
    }
    assert(keys.take(i as int) == keys);
}

/// Nothing is presented over a modal window: a flush under one neither
/// reloads nor hands over the pending changes.
pub proof fn scripts_wait_for_the_modal(sync: ExternalSync, facts: ScriptFacts)
    requires
        facts.modal,
        facts.autoreload,
    ensures
        !sync.flush_reloads(facts),
        !sync.flush_prompts(facts),
        sync.flush_pending(facts) == sync.script_pending@,
{
}

proof fn among_keeps(list: Seq<Key>, set: Set<Key>, n: int, i: int)
    requires
        0 <= i < n <= list.len(),
        set.contains(list[i]),
    ensures
        among(list, set, n).to_set().contains(list[i]),
    decreases n,
{
    let rest = among(list, set, n - 1);
    crate::pathset::push_key(rest, list[n - 1]);
    if i < n - 1 {
        among_keeps(list, set, n - 1, i);
    }
}

proof fn among_only(list: Seq<Key>, set: Set<Key>, n: int)
    requires
        0 <= n <= list.len(),
    ensures
        forall|k: Key| #[trigger] among(list, set, n).to_set().contains(k) ==> set.contains(k),
    decreases n,
{
    if n > 0 {
        among_only(list, set, n - 1);
        crate::pathset::push_key(among(list, set, n - 1), list[n - 1]);
    }
}

proof fn current_keeps(delivered: Map<Key, Stamp>, list: Seq<Key>, stamps: Seq<Stamp>, set: Set<Key>, n: int, i: int)
    requires
        0 <= i < n <= list.len(),
        set.contains(list[i]),
        stamped(delivered, list[i], stamps[i]),
    ensures
        current_among(delivered, list, stamps, set, n).to_set().contains(list[i]),
    decreases n,
{
    let rest = current_among(delivered, list, stamps, set, n - 1);
    crate::pathset::push_key(rest, list[n - 1]);
    if i < n - 1 {
        current_keeps(delivered, list, stamps, set, n - 1, i);
    }
}

/// An idle unresolved conflict never loops: with nothing new pending and a
/// prompted tab still unsaved, a flush presents nothing and keeps the
/// conflict.
pub proof fn idle_conflicts_do_not_prompt_again(sync: ExternalSync, facts: ScriptFacts, unsaved: PathSet, i: int)
    requires
        facts.autoreload,
        facts.unsaved == Some(unsaved),
        sync.script_pending.list().len() == 0,
        0 <= i < sync.script_conflicts.list().len(),
        unsaved@.contains(sync.script_conflicts.list()[i]),
    ensures
        !sync.flush_reloads(facts),
        !sync.flush_prompts(facts),
        sync.flush_conflicts(facts).contains(sync.script_conflicts.list()[i]),
{
    let held = sync.script_conflicts.list();
    among_keeps(held, unsaved@, held.len() as int, i);
    assert(sync.outstanding(unsaved@).contains(held[i]));
    assert(Seq::<Key>::empty().to_set() == Set::<Key>::empty());
    assert(sync.new_conflicts(facts.stamps@, unsaved@) == Set::<Key>::empty());
}

/// Another external write to an unsaved tab prompts again, whether or not it
/// was prompted before.
pub proof fn fresh_writes_prompt_again(sync: ExternalSync, facts: ScriptFacts, unsaved: PathSet, i: int)
    requires
        facts.autoreload,
        !facts.modal,
        facts.unsaved == Some(unsaved),
        0 <= i < sync.script_pending.list().len(),
        unsaved@.contains(sync.script_pending.list()[i]),
        stamped(sync.delivered@, sync.script_pending.list()[i], facts.stamps@[i]),
    ensures
        sync.flush_prompts(facts),
        sync.flush_conflicts(facts).contains(sync.script_pending.list()[i]),
        sync.flush_pending(facts) == Set::<Key>::empty(),
{
    let pending = sync.script_pending.list();
    current_keeps(sync.delivered@, pending, facts.stamps@, unsaved@, pending.len() as int, i);
    assert(sync.new_conflicts(facts.stamps@, unsaved@).contains(pending[i]));
    assert(sync.script_pending@.contains(pending[i]));
}

proof fn current_only(delivered: Map<Key, Stamp>, list: Seq<Key>, stamps: Seq<Stamp>, set: Set<Key>, n: int)
    requires
        0 <= n <= list.len(),
    ensures
        forall|k: Key| #[trigger] current_among(delivered, list, stamps, set, n).to_set().contains(k) ==> set.contains(k),
    decreases n,
{
    if n > 0 {
        current_only(delivered, list, stamps, set, n - 1);
        crate::pathset::push_key(current_among(delivered, list, stamps, set, n - 1), list[n - 1]);
    }
}

/// A conflict is held until its tab is saved, reloaded or closed, and no
/// longer: after a flush every conflict is an unsaved tab.
pub proof fn resolved_conflicts_are_dropped(sync: ExternalSync, facts: ScriptFacts, unsaved: PathSet, key: Key)
    requires
        facts.unsaved == Some(unsaved),
        sync.flush_conflicts(facts).contains(key),
    ensures
        unsaved@.contains(key),
{
    let held = sync.script_conflicts.list();
    let pending = sync.script_pending.list();
    among_only(held, unsaved@, held.len() as int);
    current_only(sync.delivered@, pending, facts.stamps@, unsaved@, pending.len() as int);
}

/// With no conflicts at all the flush is silent: it reloads without a prompt,
/// and no tab whose file changed under unsaved edits is left to prompt for.
pub proof fn clean_flushes_are_silent(sync: ExternalSync, facts: ScriptFacts, unsaved: PathSet)
    requires
        facts.unsaved == Some(unsaved),
        sync.flush_reloads(facts),
        sync.new_conflicts(facts.stamps@, unsaved@) == Set::<Key>::empty(),
    ensures
        !sync.flush_prompts(facts),
        sync.flush_conflicts(facts) == Set::<Key>::empty(),
{
    assert(Set::<Key>::empty() + Set::<Key>::empty() == Set::<Key>::empty());
}

// ---------------------------------------------------------------------------
// The scene prompt
// ---------------------------------------------------------------------------

impl ExternalSync {
    /// The scene prompt may be raised now: something waits for it and no modal
    /// window is up.
    pub open spec fn dialog_due(self, modal: bool) -> bool {
        (self.scene_dialog_pending@ != Set::<Key>::empty() || self.project_pending) && !modal
    }

    /// The i-th waiting scene is still open and unsaved over the change that
    /// was delivered.
    pub open spec fn still_conflicts(self, open: Set<Key>, unsaved: Set<Key>, disk: DiskState, i: int) -> bool {
        let key = self.scene_dialog_pending.list()[i];
        open.contains(key) && unsaved.contains(key) && stamped(self.delivered@, key, disk.stamps@[i])
    }

    /// Of the first `n` waiting scenes those that conflict.
    pub open spec fn dialog_conflicts(self, open: Set<Key>, unsaved: Set<Key>, disk: DiskState, n: int) -> Seq<Key>
        decreases n,
    {
        if n <= 0 {
            seq![]
        } else {
            let rest = self.dialog_conflicts(open, unsaved, disk, n - 1);
            if self.still_conflicts(open, unsaved, disk, n - 1) {
                rest.push(self.scene_dialog_pending.list()[n - 1])
            } else {
                rest
            }
        }
    }

    /// Of the first `n` waiting scenes those that dissolved while waiting:
    /// clean but stale.
    pub open spec fn dialog_reloads(self, open: Set<Key>, unsaved: Set<Key>, disk: DiskState, n: int) -> Seq<Key>
        decreases n,
    {
        if n <= 0 {
            seq![]
        } else {
            let rest = self.dialog_reloads(open, unsaved, disk, n - 1);
            let key = self.scene_dialog_pending.list()[n - 1];
            if !self.still_conflicts(open, unsaved, disk, n - 1) && open.contains(key) && self.is_stale(
                key,
                disk.found@[n - 1],
                disk.stamps@[n - 1],
            ) {
                rest.push(key)
            } else {
                rest
            }
        }
    }

    /// Scene conflicts and project.godot changes surface the editor's prompt.
    /// Presented once per external write, never over another modal; each entry
    /// here came from a fresh write. `disk` tells of the waiting scenes in
    /// their order.
    pub fn present_scene_dialog(&mut self, modal: bool, open: &PathSet, unsaved: &PathSet, disk: &DiskState) -> (dialog: SceneDialog)
        requires
            old(self).wf(),
            disk.covers(old(self).scene_dialog_pending.list().len()),
        ensures
            final(self).wf(),
            !old(self).dialog_due(modal) ==> *final(self) == *old(self) && dialog.reloads@.len() == 0 && !dialog.notify,
            old(self).dialog_due(modal) ==> ({
                let n = old(self).scene_dialog_pending.list().len() as int;
                let conflicts = old(self).dialog_conflicts(open@, unsaved@, *disk, n);
                &&& crate::pathset::keys_of(dialog.reloads@) == old(self).dialog_reloads(open@, unsaved@, *disk, n)
                &&& dialog.notify == (old(self).project_pending || conflicts.len() > 0)
                &&& final(self).scene_conflicts@ == old(self).scene_conflicts@ + conflicts.to_set()
                &&& final(self).scene_dialog_pending@ == Set::<Key>::empty()
                &&& !final(self).project_pending
                &&& *final(self) == (ExternalSync {
                    scene_conflicts: final(self).scene_conflicts,
                    scene_dialog_pending: final(self).scene_dialog_pending,
                    project_pending: false,
                    ..*old(self)
                })
            }),
    {
        let mut reloads: Vec<FilePath> = Vec::new();
        if (self.scene_dialog_pending.is_empty() && !self.project_pending) || modal {
            return SceneDialog { reloads, notify: false };
        }
        let ghost was = *self;
        let ghost keys = self.scene_dialog_pending.list();
        let mut notify = self.project_pending;
        self.project_pending = false;
        let mut waiting = PathSet::new();
        std::mem::swap(&mut waiting, &mut self.scene_dialog_pending);
        let mut i: usize = 0;
        proof {
            assert(Seq::<Key>::empty().to_set() == Set::<Key>::empty());
            assert(was.scene_conflicts@ + Set::<Key>::empty() == was.scene_conflicts@);
            assert(crate::pathset::keys_of(reloads@) == Seq::<Key>::empty());
        }
        while i < waiting.items.len()
            invariant
                i <= keys.len(),
                was.wf(),
                self.wf(),
                waiting == was.scene_dialog_pending,
                keys == waiting.list(),
                disk.covers(keys.len()),
                crate::pathset::keys_of(reloads@) == was.dialog_reloads(open@, unsaved@, *disk, i as int),
                notify == (was.project_pending || was.dialog_conflicts(open@, unsaved@, *disk, i as int).len() > 0),
                self.scene_conflicts@ == was.scene_conflicts@ + was.dialog_conflicts(open@, unsaved@, *disk, i as int).to_set(),
                *self == (ExternalSync {
                    scene_conflicts: self.scene_conflicts,
                    scene_dialog_pending: self.scene_dialog_pending,
                    project_pending: false,
                    ..was
                }),
                self.scene_dialog_pending@ == Set::<Key>::empty(),
            decreases keys.len() - i,
        {
            let path = &waiting.items[i];
            let ghost key = keys[i as int];
            assert(path@ == key);
            let is_open = open.contains(path);
            let current = holds(&self.delivered, path, disk.stamps[i]);
            if is_open && unsaved.contains(path) && current {
                self.scene_conflicts.insert(path.duplicate());
                notify = true;
                proof {
                    let conflicts = was.dialog_conflicts(open@, unsaved@, *disk, i as int);
                    crate::pathset::push_key(conflicts, key);
                    assert(was.scene_conflicts@ + conflicts.push(key).to_set() =~= (was.scene_conflicts@ + conflicts.to_set()).insert(key));
                }
            } else if is_open && disk.found[i] && current && !holds(&self.scene_saves, path, disk.stamps[i]) {
                let ghost list = reloads@;
                reloads.push(path.duplicate());
                assert(crate::pathset::keys_of(reloads@) == crate::pathset::keys_of(list).push(key));
            }
            i = i + 1;
        }
        SceneDialog { reloads, notify }
    }
}

/// Conflicts that were prompted for wait silently: with nothing fresh waiting
/// and project.godot unchanged, the scene prompt is not raised.
pub proof fn idle_scene_conflicts_do_not_prompt_again(sync: ExternalSync, modal: bool)
    requires
        sync.scene_dialog_pending@ == Set::<Key>::empty(),
        !sync.project_pending,
    ensures
        !sync.dialog_due(modal),
{
}

/// A waiting scene with unsaved edits that the delivered change still
/// underlies is prompted for, not reloaded.
pub proof fn conflicted_scenes_are_prompted(sync: ExternalSync, open: Set<Key>, unsaved: Set<Key>, disk: DiskState, n: int, i: int)
    requires
        0 <= i < n <= sync.scene_dialog_pending.list().len(),
        sync.still_conflicts(open, unsaved, disk, i),
    ensures
        sync.dialog_conflicts(open, unsaved, disk, n).contains(sync.scene_dialog_pending.list()[i]),
    decreases n,
{
    let keys = sync.scene_dialog_pending.list();
    let rest = sync.dialog_conflicts(open, unsaved, disk, n - 1);
    let all = sync.dialog_conflicts(open, unsaved, disk, n);
    if i == n - 1 {
        assert(all.last() == keys[i]);
    } else {
        conflicted_scenes_are_prompted(sync, open, unsaved, disk, n - 1, i);
        let j = choose|j: int| 0 <= j < rest.len() && rest[j] == keys[i];
        assert(all[j] == keys[i]);
    }
}

// ---------------------------------------------------------------------------
// Shaders
// ---------------------------------------------------------------------------

pub open spec fn is_shader(path: Key) -> bool {
    crate::path::extension_is(path, "gdshader".spec_bytes()) || crate::path::extension_is(path, "gdshaderinc".spec_bytes())
}

/// Of the first `n` fresh paths the shader files that exist.
pub open spec fn shaders_of(fresh: Seq<Key>, found: Seq<bool>, n: int) -> Set<Key>
    decreases n,
{
    if n <= 0 {
        Set::empty()
    } else {
        let rest = shaders_of(fresh, found, n - 1);
        if is_shader(fresh[n - 1]) && found[n - 1] {
            rest.insert(fresh[n - 1])
        } else {
            rest
        }
    }
}

impl ExternalSync {
    /// Changed shader files wait for the shader editors.
    pub fn queue_shaders(&mut self, fresh: &Vec<FilePath>, found: &Vec<bool>)
        requires
            old(self).wf(),
            found@.len() == fresh@.len(),
        ensures
            final(self).wf(),
            final(self).shader_pending@ == old(self).shader_pending@ + shaders_of(
                crate::pathset::keys_of(fresh@),
                found@,
                fresh@.len() as int,
            ),
            *final(self) == (ExternalSync { shader_pending: final(self).shader_pending, ..*old(self) }),
    {
        let ghost keys = crate::pathset::keys_of(fresh@);
        let mut i: usize = 0;
        assert(self.shader_pending@ + Set::<Key>::empty() == self.shader_pending@);
        while i < fresh.len()
            invariant
                i <= fresh@.len(),
                self.wf(),
                keys == crate::pathset::keys_of(fresh@),
                found@.len() == fresh@.len(),
                self.shader_pending@ == old(self).shader_pending@ + shaders_of(keys, found@, i as int),
                *self == (ExternalSync { shader_pending: self.shader_pending, ..*old(self) }),
            decreases fresh@.len() - i,
        {
            let path = &fresh[i];
            let ghost rest = shaders_of(keys, found@, i as int);
            assert(path@ == keys[i as int]);
            if (path.has_extension("gdshader") || path.has_extension("gdshaderinc")) && found[i] {
                self.shader_pending.insert(path.duplicate());
                assert(old(self).shader_pending@ + rest.insert(path@) =~= (old(self).shader_pending@ + rest).insert(path@));
            }
            i = i + 1;
        }
    }

    /// Fresh changes wait for the script editor.
    pub fn queue_scripts(&mut self, fresh: &Vec<FilePath>)
        requires
            old(self).wf(),
        ensures
            final(self).wf(),
            final(self).script_pending@ == old(self).script_pending@ + crate::pathset::keys_of(fresh@).to_set(),
            *final(self) == (ExternalSync { script_pending: final(self).script_pending, ..*old(self) }),
    {
        let ghost keys = crate::pathset::keys_of(fresh@);
        let mut i: usize = 0;
        assert(keys.take(0).to_set() == Set::<Key>::empty());
        assert(self.script_pending@ + Set::<Key>::empty() == self.script_pending@);
        while i < fresh.len()
            invariant
                i <= fresh@.len(),
                self.wf(),
                keys == crate::pathset::keys_of(fresh@),
                self.script_pending@ == old(self).script_pending@ + keys.take(i as int).to_set(),
                *self == (ExternalSync { script_pending: self.script_pending, ..*old(self) }),
            decreases fresh@.len() - i,
        {
            self.script_pending.insert(fresh[i].duplicate());
            proof {
                assert(keys.take(i + 1) == keys.take(i as int).push(keys[i as int]));
                crate::pathset::push_key(keys.take(i as int), keys[i as int]);
                assert(old(self).script_pending@ + keys.take(i + 1).to_set() =~= (old(self).script_pending@ + keys.take(i as int).to_set()).insert(
                    keys[i as int],
                ));
            }
            i = i + 1;
        }
        assert(keys.take(i as int) == keys);
    }

    /// Hand the changed shaders over once; tells whether to notify the shader
    /// editors whose buffer is saved. Where the editor would prompt for any
    /// change, that belongs to the real focus-in.
    pub fn flush_shaders(&mut self, autoreload: bool) -> (notify: bool)
        requires
            old(self).wf(),
        ensures
            final(self).wf(),
            notify == (autoreload && old(self).shader_pending@ != Set::<Key>::empty()),
            final(self).shader_pending@ == Set::<Key>::empty(),
            *final(self) == (ExternalSync { shader_pending: final(self).shader_pending, ..*old(self) }),
    {
        if self.shader_pending.is_empty() {
            return false;
        }
        self.shader_pending = PathSet::new();
        autoreload
    }
}

/// The editor's own unsaved test for a shader editor: its code buffer has
/// edits past the last tagged save. A buffer that cannot be found reads as
/// unsaved, never risking a discard. `versions` are the buffer's current and
/// saved version.
pub fn shader_buffer_unsaved(versions: Option<(i64, i64)>) -> (unsaved: bool)
    ensures
        unsaved == (match versions {
            Some((version, saved)) => version != saved,
            None => true,
        }),
{
    match versions {
        Some((version, saved)) => version != saved,
        None => true,
    }
}

// ---------------------------------------------------------------------------
// The editor around a sync
// ---------------------------------------------------------------------------

/// The step after this one. Without fresh paths only the held work is looked
/// at; one prompt per sync at most.
pub open spec fn step_after(step: SyncStep, fresh: bool, presented: bool) -> SyncStep {
    match step {
        SyncStep::CaptureFocus => SyncStep::Deliver,
        SyncStep::Deliver => if fresh { SyncStep::ScanSources } else { SyncStep::PruneSceneConflicts },
        SyncStep::ScanSources => SyncStep::ReloadExtensions,
        SyncStep::ReloadExtensions => SyncStep::ReloadScenes,
        SyncStep::ReloadScenes => SyncStep::QueueShaders,
        SyncStep::QueueShaders => SyncStep::QueueScripts,
        SyncStep::QueueScripts => SyncStep::PruneSceneConflicts,
        SyncStep::PruneSceneConflicts => SyncStep::FlushScripts,
        SyncStep::FlushScripts => if presented { SyncStep::FlushShaders } else { SyncStep::PresentSceneDialog },
        SyncStep::PresentSceneDialog => SyncStep::FlushShaders,
        SyncStep::FlushShaders => SyncStep::RestoreFocus,
        SyncStep::RestoreFocus | SyncStep::Done => SyncStep::Done,
    }
}

impl SyncStep {
    /// The reloads run synchronously and some grab focus; it is captured
    /// first and restored once they return, before any prompt they queued
    /// legitimately takes over.
    pub fn next(self, fresh: bool, presented: bool) -> (step: SyncStep)
        ensures
            step == step_after(self, fresh, presented),
    {
        match self {
            SyncStep::CaptureFocus => SyncStep::Deliver,
            SyncStep::Deliver => if fresh { SyncStep::ScanSources } else { SyncStep::PruneSceneConflicts },
            SyncStep::ScanSources => SyncStep::ReloadExtensions,
            SyncStep::ReloadExtensions => SyncStep::ReloadScenes,
            SyncStep::ReloadScenes => SyncStep::QueueShaders,
            SyncStep::QueueShaders => SyncStep::QueueScripts,
            SyncStep::QueueScripts => SyncStep::PruneSceneConflicts,
            SyncStep::PruneSceneConflicts => SyncStep::FlushScripts,
            SyncStep::FlushScripts => if presented { SyncStep::FlushShaders } else { SyncStep::PresentSceneDialog },
            SyncStep::PresentSceneDialog => SyncStep::FlushShaders,
            SyncStep::FlushShaders => SyncStep::RestoreFocus,
            SyncStep::RestoreFocus | SyncStep::Done => SyncStep::Done,
        }
    }
}

/// Steps that lie ahead of this one, at most.
pub open spec fn steps_left(step: SyncStep) -> nat {
    match step {
        SyncStep::CaptureFocus => 12,
        SyncStep::Deliver => 11,
        SyncStep::ScanSources => 10,
        SyncStep::ReloadExtensions => 9,
        SyncStep::ReloadScenes => 8,
        SyncStep::QueueShaders => 7,
        SyncStep::QueueScripts => 6,
        SyncStep::PruneSceneConflicts => 5,
        SyncStep::FlushScripts => 4,
        SyncStep::PresentSceneDialog => 3,
        SyncStep::FlushShaders => 2,
        SyncStep::RestoreFocus => 1,
        SyncStep::Done => 0,
    }
}

/// Every sync ends, its last step restores the focus that its first captured,
/// and the scene prompt comes up only where no script prompt did.
pub proof fn syncs_restore_focus(step: SyncStep, fresh: bool, presented: bool)
    ensures
        step !is Done ==> steps_left(step_after(step, fresh, presented)) < steps_left(step),
        step_after(step, fresh, presented) is Done <==> step is RestoreFocus || step is Done,
        step_after(step, fresh, presented) is PresentSceneDialog ==> !presented,
{
}

/// None of the first `n` classes is the editor's main node.
pub open spec fn no_editor_node(classes: Seq<String>, n: int) -> bool {
    forall|k: int| 0 <= k < n ==> (#[trigger] classes[k])@ != "EditorNode"@
}

/// The first of a chain of class names that is the editor's main node: not
/// exposed itself, it stands above the exposed base control.
pub fn editor_node(classes: &Vec<String>) -> (at: Option<usize>)
    ensures
        match at {
            Some(i) => i < classes@.len() && classes@[i as int]@ == "EditorNode"@ && no_editor_node(classes@, i as int),
            None => no_editor_node(classes@, classes@.len() as int),
        },
{
    let wanted = "EditorNode".to_owned();
    let mut i: usize = 0;
    while i < classes.len()
        invariant
            i <= classes@.len(),
            wanted@ == "EditorNode"@,
            forall|k: int| 0 <= k < i ==> (#[trigger] classes@[k])@ != "EditorNode"@,
        decreases classes@.len() - i,
    {
        if classes[i] == wanted {
            return Some(i);
        }
        i = i + 1;
    }
    None
}

/// A window of the editor.
#[derive(Clone, Copy, Debug, PartialEq, Eq, Structural)]
pub struct WindowState {
    pub visible: bool,
    pub exclusive: bool,
}

/// A visible exclusive window is among these.
pub open spec fn any_modal(windows: Seq<WindowState>) -> bool {
    exists|i: int| 0 <= i < windows.len() && (#[trigger] windows[i]).visible && windows[i].exclusive
}

/// A prompt is up somewhere in the editor: a visible exclusive window.
/// Floating tool windows are not exclusive and do not count.
pub fn modal_open(windows: &Vec<WindowState>) -> (r: bool)
    ensures
        r == any_modal(windows@),
{
    let mut i: usize = 0;
    while i < windows.len()
        invariant
            i <= windows@.len(),
            forall|k: int| 0 <= k < i ==> !((#[trigger] windows@[k]).visible && windows@[k].exclusive),
        decreases windows@.len() - i,
    {
        if windows[i].visible && windows[i].exclusive {
            return true;
        }
        i = i + 1;
    }
    false
}

/// Whether to put focus back where the user left it: the owner from before is
/// still there, and something else has focus now. Controls go by their
/// identity.
pub fn restore_focus(before: Option<i64>, before_valid: bool, current: Option<i64>) -> (grab: bool)
    ensures
        grab == (before is Some && before_valid && current is Some && before != current),
{
    match (before, current) {
        (Some(before), Some(current)) => before_valid && current != before,
        _ => false,
    }
}

/// Whether reloads go without asking; the setting's default is yes.
pub fn autoreload_enabled(setting: Option<bool>) -> (r: bool)
    ensures
        r == (match setting {
            Some(on) => on,
            None => true,
        }),
{
    match setting {
        Some(on) => on,
        None => true,
    }
}

// ---------------------------------------------------------------------------
// What syncing comes to
// ---------------------------------------------------------------------------

/// A name ends in these bytes, with something before them.
pub open spec fn ends_in(name: Seq<u8>, tail: Seq<u8>) -> bool {
    name.len() > tail.len() && name.skip(name.len() - tail.len()) == tail
}

/// The editor's own churn: what lies in a directory named `.godot` or `.git`,
/// and files whose names end in `.import` or `.uid`.
pub open spec fn is_churn(path: Key) -> bool {
    ||| exists|i: int|
        0 <= i < path.len() && (#[trigger] path[i] == seq![0x2eu8, 0x67, 0x6f, 0x64, 0x6f, 0x74] || path[i] == seq![0x2eu8, 0x67, 0x69, 0x74])
    ||| path.len() > 0 && ends_in(path.last(), seq![0x2eu8, 0x69, 0x6d, 0x70, 0x6f, 0x72, 0x74])
    ||| path.len() > 0 && ends_in(path.last(), seq![0x2eu8, 0x75, 0x69, 0x64])
}

proof fn watched_words()
    ensures
        ".godot".spec_bytes() == seq![0x2eu8, 0x67, 0x6f, 0x64, 0x6f, 0x74],
        ".git".spec_bytes() == seq![0x2eu8, 0x67, 0x69, 0x74],
        "import".spec_bytes() == seq![0x69u8, 0x6d, 0x70, 0x6f, 0x72, 0x74],
        "uid".spec_bytes() == seq![0x75u8, 0x69, 0x64],
{
    broadcast use vstd::string::is_ascii_spec_bytes;

    reveal_strlit(".godot");
    reveal_strlit(".git");
    reveal_strlit("import");
    reveal_strlit("uid");
    assert(is_ascii(".godot") && is_ascii(".git") && is_ascii("import") && is_ascii("uid"));
    assert(".godot".spec_bytes() =~= seq![0x2eu8, 0x67, 0x6f, 0x64, 0x6f, 0x74]);
    assert(".git".spec_bytes() =~= seq![0x2eu8, 0x67, 0x69, 0x74]);
    assert("import".spec_bytes() =~= seq![0x69u8, 0x6d, 0x70, 0x6f, 0x72, 0x74]);
    assert("uid".spec_bytes() =~= seq![0x75u8, 0x69, 0x64]);
}

/// A file has an extension exactly if its name ends in a dot and that, with
/// something before the dot.
proof fn extension_by_bytes(path: Key, ext: Seq<u8>)
    requires
        forall|i: int| 0 <= i < ext.len() ==> #[trigger] ext[i] != 0x2e,
    ensures
        crate::path::extension_is(path, ext) <==> path.len() > 0 && ends_in(path.last(), seq![0x2eu8] + ext),
{
    if path.len() > 0 {
        let name = path.last();
        let tail = seq![0x2eu8] + ext;
        let dot = name.len() - tail.len();
        if ends_in(name, tail) {
            assert(name.skip(dot)[0] == 0x2e);
            assert forall|i: int| dot < i < name.len() implies #[trigger] name[i] != 0x2e by {
                assert(name.skip(dot)[i - dot] == tail[i - dot]);
                assert(tail[i - dot] == ext[i - dot - 1]);
            }
            assert(name.skip(dot + 1) =~= ext) by {
                assert forall|i: int| 0 <= i < ext.len() implies name.skip(dot + 1)[i] == ext[i] by {
                    assert(name.skip(dot)[i + 1] == tail[i + 1]);
                }
            }
            assert(crate::path::is_split(name, dot));
        }
        if crate::path::extension_is(path, ext) {
            let d = choose|d: int| #[trigger] crate::path::is_split(name, d) && name.skip(d + 1) == ext;
            assert(name.skip(d) =~= tail) by {
                assert forall|i: int| 0 <= i < tail.len() implies name.skip(d)[i] == tail[i] by {
                    if i > 0 {
                        assert(name.skip(d + 1)[i - 1] == ext[i - 1]);
                    }
                }
            }
        }
    }
}

proof fn churn_is_unwatched(path: Key)
    ensures
        is_watched(path) <==> !is_churn(path),
{
    watched_words();
    extension_by_bytes(path, seq![0x69u8, 0x6d, 0x70, 0x6f, 0x72, 0x74]);
    extension_by_bytes(path, seq![0x75u8, 0x69, 0x64]);
    assert(seq![0x2eu8] + seq![0x69u8, 0x6d, 0x70, 0x6f, 0x72, 0x74] =~= seq![0x2eu8, 0x69, 0x6d, 0x70, 0x6f, 0x72, 0x74]);
    assert(seq![0x2eu8] + seq![0x75u8, 0x69, 0x64] =~= seq![0x2eu8, 0x75, 0x69, 0x64]);
}

/// Every file of the project is watched but the editor's own churn: scenes,
/// scripts, shaders and resources, whatever they are called.
pub proof fn project_files_are_watched(path: &FilePath, r: bool)
    requires
        call_ensures(watched, (path,), r),
    ensures
        (forall|i: int| 0 <= i < path@.len() ==> #[trigger] path@[i] != seq![0x2eu8, 0x67, 0x6f, 0x64, 0x6f, 0x74] && path@[i] != seq![
            0x2eu8,
            0x67,
            0x69,
            0x74,
        ]) && (path@.len() > 0 ==> !ends_in(path@.last(), seq![0x2eu8, 0x69, 0x6d, 0x70, 0x6f, 0x72, 0x74]) && !ends_in(
            path@.last(),
            seq![0x2eu8, 0x75, 0x69, 0x64],
        )) ==> r,
        is_churn(path@) ==> !r,
{
    churn_is_unwatched(path@);
}

/// Some event tells of a change to this path.
pub open spec fn told_of(events: Seq<WatchEvent>, path: Key) -> bool {
    exists|i: int| 0 <= i < events.len() && ((#[trigger] events[i]) matches WatchEvent::Change(paths) && crate::pathset::keys_of(paths@).contains(path))
}

proof fn told_changes_count(events: Seq<WatchEvent>, root: Key, canonical: Key, path: Key)
    requires
        told_of(events, path),
        !is_churn(path),
    ensures
        any_change(events),
        changes_to(events, root, canonical, rooted_key(root, canonical, path)),
{
    churn_is_unwatched(path);
    let i = choose|i: int|
        0 <= i < events.len() && ((#[trigger] events[i]) matches WatchEvent::Change(paths) && crate::pathset::keys_of(paths@).contains(path));
    assert(reports(events[i], path));
}

/// A change that the watcher reports below the project is handed out, spelled
/// as the editor does, at the latest when a fifth of a second has passed
/// without another.
pub proof fn reported_changes_are_handed_out(
    first: &mut ExternalSync,
    then: &mut ExternalSync,
    events: &Vec<WatchEvent>,
    none: &Vec<WatchEvent>,
    delta: u64,
    waited: u64,
    a: Polled,
    b: Polled,
    rest: Key,
)
    requires
        call_ensures(ExternalSync::poll, (first, events, delta), a),
        call_ensures(ExternalSync::poll, (then, none, waited), b),
        *final(first) == *old(then),
        none@.len() == 0,
        waited >= 200_000_000,
        told_of(events@, old(first).canonical_root@ + rest),
        !is_churn(old(first).canonical_root@ + rest),
    ensures
        (a.batch is Some && a.batch->0@.contains(old(first).root@ + rest)) || (b.batch is Some && b.batch->0@.contains(old(first).root@ + rest)),
        delta < 200_000_000 ==> a.batch is None,
{
    let (root, canonical) = (old(first).root@, old(first).canonical_root@);
    resolved_paths_line_up(root, canonical, rest);
    told_changes_count(events@, root, canonical, canonical + rest);
    assert(old(first).changed_with(events@).contains(root + rest));
    if a.batch is None {
        assert(old(then).changed@.contains(root + rest));
        assert(old(then).changed_with(none@).contains(root + rest));
        assert(!any_change(none@));
        assert(old(then).settle <= 200_000_000);
    }
}

/// Nothing is handed out that was not reported: every path of a batch is one
/// that a watched change spells so, now or since the last batch.
pub proof fn batches_hold_what_was_reported(sync: &mut ExternalSync, events: &Vec<WatchEvent>, delta: u64, polled: Polled, key: Key)
    requires
        call_ensures(ExternalSync::poll, (sync, events, delta), polled),
        polled.batch is Some,
        polled.batch->0@.contains(key),
    ensures
        old(sync).changed@.contains(key) || exists|path: Key| #[trigger]
            told_of(events@, path) && !is_churn(path) && (key == path || (path.len() >= old(sync).canonical_root@.len() && path.take(
                old(sync).canonical_root@.len() as int,
            ) == old(sync).canonical_root@ && key == old(sync).root@ + path.skip(old(sync).canonical_root@.len() as int))),
        !final(sync).changed@.contains(key),
{
    let (root, canonical) = (old(sync).root@, old(sync).canonical_root@);
    if !old(sync).changed@.contains(key) {
        assert(changes_to(events@, root, canonical, key));
        let (i, path) = choose|i: int, path: Key| 0 <= i < events@.len() && #[trigger] reports(events@[i], path) && rooted_key(root, canonical, path) == key;
        churn_is_unwatched(path);
        assert(told_of(events@, path));
    }
}

/// Without changes nothing is synced, but held work is looked at again every
/// half second, with nothing new to deliver.
pub proof fn held_work_is_retried(sync: &mut ExternalSync, events: &Vec<WatchEvent>, delta: u64, polled: Polled)
    requires
        call_ensures(ExternalSync::poll, (sync, events, delta), polled),
        forall|path: Key| told_of(events@, path) ==> is_churn(path),
        old(sync).changed@ == Set::<Key>::empty(),
    ensures
        ({
            let held = old(sync).script_pending@ != Set::<Key>::empty() || old(sync).script_conflicts@ != Set::<Key>::empty()
                || old(sync).scene_dialog_pending@ != Set::<Key>::empty() || old(sync).scene_conflicts@ != Set::<Key>::empty() || old(sync).project_pending;
            &&& polled.batch is Some <==> held && old(sync).retry <= delta
            &&& polled.batch is Some ==> polled.batch->0@ == Set::<Key>::empty() && final(sync).retry == 500_000_000
            &&& held && old(sync).retry > delta ==> final(sync).retry == old(sync).retry - delta
            &&& final(sync).settle == old(sync).settle && final(sync).changed@ == Set::<Key>::empty()
        }),
{
    let (root, canonical) = (old(sync).root@, old(sync).canonical_root@);
    assert forall|i: int, path: Key| 0 <= i < events@.len() implies !(#[trigger] reports(events@[i], path)) by {
        if reports(events@[i], path) {
            churn_is_unwatched(path);
            assert(told_of(events@, path));
        }
    }
    assert(old(sync).changed_with(events@) =~= Set::<Key>::empty());
}

/// A batch waits until the changes have stopped for a fifth of a second: what
/// is left of that goes down with every poll, and a new change restarts it.
pub proof fn batches_wait_for_quiet(sync: &mut ExternalSync, events: &Vec<WatchEvent>, delta: u64, polled: Polled, path: Key)
    requires
        call_ensures(ExternalSync::poll, (sync, events, delta), polled),
    ensures
        told_of(events@, path) && !is_churn(path) && delta < 200_000_000 ==> polled.batch is None && final(sync).settle == 200_000_000 - delta,
        told_of(events@, path) && !is_churn(path) && delta >= 200_000_000 ==> polled.batch is Some,
        events@.len() == 0 && old(sync).changed@ != Set::<Key>::empty() && old(sync).settle > delta ==> polled.batch is None && final(sync).settle
            == old(sync).settle - delta && final(sync).changed@ == old(sync).changed@,
        events@.len() == 0 && old(sync).changed@ != Set::<Key>::empty() && old(sync).settle <= delta ==> polled.batch is Some
            && polled.batch->0@ == old(sync).changed@,
{
    if told_of(events@, path) && !is_churn(path) {
        told_changes_count(events@, old(sync).root@, old(sync).canonical_root@, path);
        assert(old(sync).changed_with(events@).contains(rooted_key(old(sync).root@, old(sync).canonical_root@, path)));
    }
    if events@.len() == 0 {
        assert(old(sync).changed_with(events@) =~= old(sync).changed@);
    }
}

/// Of watcher errors the first is warned of, and no other.
pub proof fn watcher_errors_warn_once(first: &mut ExternalSync, then: &mut ExternalSync, a: &Vec<WatchEvent>, b: &Vec<WatchEvent>, d1: u64, d2: u64, p: Polled, q: Polled, i: int)
    requires
        call_ensures(ExternalSync::poll, (first, a, d1), p),
        call_ensures(ExternalSync::poll, (then, b, d2), q),
        *final(first) == *old(then),
    ensures
        0 <= i < a@.len() && a@[i] is Failed && !old(first).watch_error_warned ==> p.warn,
        p.warn ==> !q.warn && exists|k: int| 0 <= k < a@.len() && #[trigger] a@[k] is Failed,
        old(first).watch_error_warned ==> !p.warn && !q.warn,
{
}

/// A fresh start holds nothing, and stands for the canonical root or itself.
pub proof fn syncs_start_empty(root: FilePath, canonical: Option<FilePath>, extensions: PathMap<String>, s: ExternalSync, held: bool)
    requires
        call_ensures(ExternalSync::new, (root, canonical, extensions), s),
        call_ensures(ExternalSync::has_held_work, (&s,), held),
    ensures
        s.root@ == root@,
        canonical matches Some(c) ==> s.canonical_root@ == c@,
        canonical is None ==> s.canonical_root@ == root@,
        s.extensions@ == extensions@,
        !held && s.changed@ == Set::<Key>::empty() && s.shader_pending@ == Set::<Key>::empty() && s.delivered@ == Map::<Key, Stamp>::empty()
            && s.scene_saves@ == Map::<Key, Stamp>::empty(),
{
}

proof fn fresh_exactly(delivered: Map<Key, Stamp>, batch: Seq<Key>, stamps: Seq<Stamp>, n: int, i: int)
    requires
        0 <= i < n <= batch.len(),
        batch.no_duplicates(),
    ensures
        fresh_of(delivered, batch, stamps, n).contains(batch[i]) <==> !stamped(delivered, batch[i], stamps[i]),
    decreases n,
{
    let rest = fresh_of(delivered, batch, stamps, n - 1);
    crate::pathset::push_key(rest, batch[n - 1]);
    assert(rest.push(batch[n - 1]).to_set().contains(batch[i]) == rest.to_set().insert(batch[n - 1]).contains(batch[i]));
    if i < n - 1 {
        fresh_exactly(delivered, batch, stamps, n - 1, i);
        assert(batch[i] != batch[n - 1]);
    } else {
        fresh_members(delivered, batch, stamps, n - 1);
        if rest.contains(batch[i]) {
            let prior = batch.take(n - 1);
            let j = choose|j: int| 0 <= j < prior.len() && prior[j] == batch[i];
            assert(batch[j] == batch[i]);
        }
    }
}

/// A path of a batch is fresh exactly if its file was never delivered in the
/// state it is in; afterwards it was, and other paths are as before.
pub proof fn new_states_are_fresh(sync: &mut ExternalSync, batch: &PathSet, stamps: &Vec<Stamp>, fresh: Vec<FilePath>, i: int, key: Key)
    requires
        call_ensures(ExternalSync::deliver, (sync, batch, stamps), fresh),
        batch.wf(),
        stamps@.len() == batch.list().len(),
        0 <= i < batch.list().len(),
    ensures
        crate::pathset::keys_of(fresh@).contains(batch.list()[i]) <==> !(old(sync).delivered@.dom().contains(batch.list()[i]) && old(sync).delivered@[batch.list()[i]] == stamps@[i]),
        final(sync).delivered@.dom().contains(batch.list()[i]) && final(sync).delivered@[batch.list()[i]] == stamps@[i],
        crate::pathset::keys_of(fresh@).contains(key) ==> batch@.contains(key),
        !batch@.contains(key) ==> (final(sync).delivered@.dom().contains(key) <==> old(sync).delivered@.dom().contains(key)) && final(sync).delivered@[key] == old(sync).delivered@[key],
        final(sync).script_pending == old(sync).script_pending && final(sync).scene_saves == old(sync).scene_saves,
{
    let keys = batch.list();
    let n = keys.len() as int;
    let was = old(sync).delivered@;
    fresh_exactly(was, keys, stamps@, n, i);
    fresh_members(was, keys, stamps@, n);
    delivered_entry(was, keys, stamps@, n, i);
    assert(keys.take(n) =~= keys);
    if !batch@.contains(key) {
        assert forall|j: int| 0 <= j < n implies #[trigger] keys[j] != key by {
            if keys[j] == key {
                assert(keys.contains(key));
            }
        }
        delivered_frame(was, keys, stamps@, n, key);
    }
}

/// Delivering the same state again brings nothing.
pub proof fn one_write_is_delivered_once(first: &mut ExternalSync, then: &mut ExternalSync, batch: &PathSet, stamps: &Vec<Stamp>, a: Vec<FilePath>, b: Vec<FilePath>)
    requires
        call_ensures(ExternalSync::deliver, (first, batch, stamps), a),
        call_ensures(ExternalSync::deliver, (then, batch, stamps), b),
        *final(first) == *old(then),
        batch.wf(),
        stamps@.len() == batch.list().len(),
    ensures
        b@.len() == 0,
{
    redelivery_is_silent(old(first).delivered@, batch.list(), stamps@, batch.list().len() as int);
    assert(crate::pathset::keys_of(b@).len() == b@.len());
}

/// Only missing files are forgotten, and only once there are more than two
/// thousand and forty-eight.
pub proof fn missing_files_are_forgotten(sync: &mut ExternalSync, found: &Vec<bool>, overgrown: bool, i: int)
    requires
        call_ensures(ExternalSync::forget_missing, (sync, found), ()),
        call_ensures(ExternalSync::overgrown, (&*old(sync),), overgrown),
        found@.len() == old(sync).delivered.keys().len(),
        0 <= i < found@.len(),
    ensures
        overgrown <==> old(sync).delivered.keys().len() >= 2049,
        !found@[i] ==> !final(sync).delivered@.dom().contains(old(sync).delivered.keys()[i]),
        found@[i] ==> final(sync).delivered@.dom().contains(old(sync).delivered.keys()[i]) && final(sync).delivered@[old(sync).delivered.keys()[i]] == old(sync).delivered@[old(sync).delivered.keys()[i]],
{
    assert(final(sync).delivered@.dom().contains(old(sync).delivered.keys()[i]) == found@[i]);
}

/// The bytes of this crate's name stand somewhere in a file's name.
pub open spec fn names_us(path: Key) -> bool {
    path.len() > 0 && exists|at: int|
        0 <= at && at + 7 <= path.last().len() && #[trigger] path.last().subrange(at, at + 7) == seq![0x67u8, 0x6f, 0x64, 0x6f, 0x74, 0x74, 0x79]
}

/// A changed library reloads the extension that names it, and a changed
/// description the extension that it describes, but never the one that this
/// terminal runs from. Other files reload none.
pub proof fn extensions_are_reloaded(sync: &ExternalSync, path: &FilePath, localized: Option<String>, change: Option<ExtensionChange>)
    requires
        call_ensures(ExternalSync::extension_for, (sync, path, localized), change),
    ensures
        ({
            let described = path@.len() > 0 && ends_in(
                path@.last(),
                seq![0x2eu8, 0x67, 0x64, 0x65, 0x78, 0x74, 0x65, 0x6e, 0x73, 0x69, 0x6f, 0x6e],
            );
            let library = sync.extensions@.dom().contains(path@);
            &&& names_us(path@) && valid_utf8(path@.last()) ==> change is None
            &&& !names_us(path@) && library ==> change is Some && change->0.extension@ == sync.extensions@[path@]@
            &&& !names_us(path@) && !library && described && localized is Some ==> change is Some && change->0.extension@ == localized->0@
            &&& !library && (!described || localized is None) ==> change is None
            &&& change is Some ==> change->0.remap == described
        }),
{
    broadcast use vstd::string::is_ascii_spec_bytes;

    reveal_strlit("godotty");
    reveal_strlit("gdextension");
    assert(is_ascii("godotty") && is_ascii("gdextension"));
    let us = seq![0x67u8, 0x6f, 0x64, 0x6f, 0x74, 0x74, 0x79];
    let ext = seq![0x67u8, 0x64, 0x65, 0x78, 0x74, 0x65, 0x6e, 0x73, 0x69, 0x6f, 0x6e];
    assert("godotty".spec_bytes() =~= us);
    assert("gdextension".spec_bytes() =~= ext);
    assert(seq![0x2eu8] + ext =~= seq![0x2eu8, 0x67, 0x64, 0x65, 0x78, 0x74, 0x65, 0x6e, 0x73, 0x69, 0x6f, 0x6e]);
    extension_by_bytes(path@, ext);
    if path@.len() > 0 {
        let name = path@.last();
        if names_us(path@) {
            let at = choose|at: int| 0 <= at && at + 7 <= name.len() && #[trigger] name.subrange(at, at + 7) == us;
            assert(crate::path::occurs_at(name, us, at));
        }
        if crate::path::has_word(name, us) {
            let at = choose|at: int| crate::path::occurs_at(name, us, at);
            assert(name.subrange(at, at + 7) == us);
        }
    }
}

/// A new library map is taken only where the description changed.
pub proof fn descriptions_bring_their_libraries(sync: &mut ExternalSync, change: &ExtensionChange, map: PathMap<String>)
    requires
        call_ensures(ExternalSync::remap_extensions, (sync, change, map), ()),
    ensures
        change.remap ==> final(sync).extensions@ == map@,
        !change.remap ==> final(sync).extensions@ == old(sync).extensions@,
        final(sync).changed == old(sync).changed && final(sync).delivered == old(sync).delivered,
{
}

proof fn owner_is_last(configs: Seq<ExtensionConfig>, n: int, key: Key, i: int)
    requires
        0 <= i < n <= configs.len(),
        libraries_of(configs[i]).contains(key),
        forall|j: int| i < j < n ==> !libraries_of(#[trigger] configs[j]).contains(key),
    ensures
        owner_of(configs, n, key) == Some(configs[i].extension@),
    decreases n,
{
    if i < n - 1 {
        assert(!libraries_of(configs[n - 1]).contains(key));
        owner_is_last(configs, n - 1, key, i);
    }
}

proof fn owner_is_none(configs: Seq<ExtensionConfig>, n: int, key: Key)
    requires
        0 <= n <= configs.len(),
        forall|j: int| 0 <= j < n ==> !libraries_of(#[trigger] configs[j]).contains(key),
    ensures
        owner_of(configs, n, key) is None,
    decreases n,
{
    if n > 0 {
        assert(!libraries_of(configs[n - 1]).contains(key));
        owner_is_none(configs, n - 1, key);
    }
}

/// A description names a library: it can be read and lists it.
pub open spec fn names_library(config: ExtensionConfig, key: Key) -> bool {
    config.readable && config.libraries is Some && crate::pathset::keys_of(config.libraries->0@).contains(key)
}

/// A library belongs to the last extension that names it, and to none where
/// none does.
pub proof fn libraries_belong_to_their_extension(configs: &Vec<ExtensionConfig>, map: PathMap<String>, key: Key, i: int)
    requires
        call_ensures(extension_map, (configs,), map),
    ensures
        0 <= i < configs@.len() && names_library(configs@[i], key) && (forall|j: int|
            i < j < configs@.len() ==> !names_library(#[trigger] configs@[j], key)) ==> map@.dom().contains(key) && map@[key]@
            == configs@[i].extension@,
        (forall|j: int| 0 <= j < configs@.len() ==> !names_library(#[trigger] configs@[j], key)) ==> !map@.dom().contains(key),
{
    let n = configs@.len() as int;
    assert(maps_libraries(map@, configs@));
    assert(maps_to(map@, key, owner_of(configs@, configs@.len() as int, key)));
    assert forall|j: int| 0 <= j < n implies libraries_of(#[trigger] configs@[j]).contains(key) == names_library(configs@[j], key) by {}
    if 0 <= i < n && names_library(configs@[i], key) && (forall|j: int| i < j < n ==> !names_library(#[trigger] configs@[j], key)) {
        owner_is_last(configs@, n, key, i);
    }
    if forall|j: int| 0 <= j < n ==> !names_library(#[trigger] configs@[j], key) {
        owner_is_none(configs@, n, key);
    }
}

proof fn scenes_exactly(sync: ExternalSync, fresh: Seq<Key>, open: Set<Key>, unsaved: Set<Key>, disk: DiskState, edited: bool, n: int, i: int)
    requires
        0 <= i < n <= fresh.len(),
        fresh.no_duplicates(),
    ensures
        sync.changed_scenes(fresh, open, unsaved, disk, edited, n).contains(fresh[i]) <==> sync.scene_changed(fresh, open, disk, i) && unsaved.contains(
            fresh[i],
        ) == edited,
    decreases n,
{
    let rest = sync.changed_scenes(fresh, open, unsaved, disk, edited, n - 1);
    crate::pathset::push_key(rest, fresh[n - 1]);
    assert(rest.push(fresh[n - 1]).to_set().contains(fresh[i]) == rest.to_set().insert(fresh[n - 1]).contains(fresh[i]));
    if i < n - 1 {
        scenes_exactly(sync, fresh, open, unsaved, disk, edited, n - 1, i);
        assert(fresh[i] != fresh[n - 1]);
    } else {
        sync.scenes_seen(fresh, open, unsaved, disk, edited, n - 1);
        if rest.contains(fresh[i]) {
            let prior = fresh.take(n - 1);
            let j = choose|j: int| 0 <= j < prior.len() && prior[j] == fresh[i];
            assert(fresh[j] == fresh[i]);
        }
    }
}

/// The project's own settings file.
pub open spec fn settings_of(root: Key) -> Key {
    root.push(seq![0x70u8, 0x72, 0x6f, 0x6a, 0x65, 0x63, 0x74, 0x2e, 0x67, 0x6f, 0x64, 0x6f, 0x74])
}

proof fn settings_are_the_project_file(root: Key)
    ensures
        project_file(root) == settings_of(root),
{
    broadcast use vstd::string::is_ascii_spec_bytes;

    reveal_strlit("project.godot");
    assert(is_ascii("project.godot"));
    assert("project.godot".spec_bytes() =~= seq![0x70u8, 0x72, 0x6f, 0x6a, 0x65, 0x63, 0x74, 0x2e, 0x67, 0x6f, 0x64, 0x6f, 0x74]);
}

/// An open scene that was written from outside is reloaded if it is saved, and
/// queued for the prompt if it has unsaved edits. Closed scenes, missing ones
/// and those found as the editor itself saved them are left alone.
pub proof fn open_scenes_follow_the_disk(
    sync: &mut ExternalSync,
    fresh: &Vec<FilePath>,
    open: &PathSet,
    unsaved: &PathSet,
    disk: &DiskState,
    reloads: Vec<FilePath>,
    i: int,
)
    requires
        call_ensures(ExternalSync::reload_scenes, (sync, fresh, open, unsaved, disk), reloads),
        crate::pathset::keys_of(fresh@).no_duplicates(),
        0 <= i < fresh@.len(),
    ensures
        ({
            let key = fresh@[i]@;
            let own = old(sync).scene_saves@.dom().contains(key) && old(sync).scene_saves@[key] == disk.stamps@[i];
            let written = open@.contains(key) && disk.found@[i] && !own && key != settings_of(old(sync).root@);
            &&& crate::pathset::keys_of(reloads@).contains(key) <==> written && !unsaved@.contains(key)
            &&& final(sync).scene_dialog_pending@.contains(key) <==> old(sync).scene_dialog_pending@.contains(key) || (written && unsaved@.contains(key))
            &&& key == settings_of(old(sync).root@) ==> final(sync).project_pending
            &&& written ==> !final(sync).scene_saves@.dom().contains(key)
            &&& !written && old(sync).scene_saves@.dom().contains(key) ==> final(sync).scene_saves@.dom().contains(key) && final(sync).scene_saves@[key]
                == old(sync).scene_saves@[key]
        }),
{
    let keys = crate::pathset::keys_of(fresh@);
    let n = keys.len() as int;
    settings_are_the_project_file(old(sync).root@);
    assert(keys[i] == fresh@[i]@);
    scenes_exactly(*old(sync), keys, open@, unsaved@, *disk, false, n, i);
    scenes_exactly(*old(sync), keys, open@, unsaved@, *disk, true, n, i);
    assert(keys.contains(keys[i]));
}

/// Only fresh paths are reloaded or queued, and the settings are looked at
/// only where they are among them.
pub proof fn other_scenes_are_left_alone(
    sync: &mut ExternalSync,
    fresh: &Vec<FilePath>,
    open: &PathSet,
    unsaved: &PathSet,
    disk: &DiskState,
    reloads: Vec<FilePath>,
    key: Key,
)
    requires
        call_ensures(ExternalSync::reload_scenes, (sync, fresh, open, unsaved, disk), reloads),
        !crate::pathset::keys_of(fresh@).contains(key),
    ensures
        !crate::pathset::keys_of(reloads@).contains(key),
        final(sync).scene_dialog_pending@.contains(key) <==> old(sync).scene_dialog_pending@.contains(key),
        key == settings_of(old(sync).root@) ==> final(sync).project_pending == old(sync).project_pending,
        old(sync).project_pending ==> final(sync).project_pending,
        final(sync).scene_conflicts == old(sync).scene_conflicts && final(sync).script_pending == old(sync).script_pending,
{
    let keys = crate::pathset::keys_of(fresh@);
    let n = keys.len() as int;
    settings_are_the_project_file(old(sync).root@);
    old(sync).scenes_seen(keys, open@, unsaved@, *disk, false, n);
    old(sync).scenes_seen(keys, open@, unsaved@, *disk, true, n);
    assert(keys.take(n) =~= keys);
}

/// A scene that the editor saved is not taken for an external change until its
/// file changes again.
pub proof fn saves_are_remembered(sync: &mut ExternalSync, path: FilePath, stamp: Stamp, key: Key)
    requires
        call_ensures(ExternalSync::note_scene_saved, (sync, path, stamp), ()),
    ensures
        final(sync).scene_saves@.dom().contains(path@) && final(sync).scene_saves@[path@] == stamp,
        key != path@ ==> (final(sync).scene_saves@.dom().contains(key) <==> old(sync).scene_saves@.dom().contains(key)) && final(sync).scene_saves@[key]
            == old(sync).scene_saves@[key],
        final(sync).delivered == old(sync).delivered,
{
}

proof fn conflicts_exactly(sync: ExternalSync, open: Set<Key>, unsaved: Set<Key>, disk: DiskState, n: int, i: int)
    requires
        0 <= i < n <= sync.scene_conflicts.list().len(),
        sync.scene_conflicts.list().no_duplicates(),
    ensures
        ({
            let key = sync.scene_conflicts.list()[i];
            &&& sync.kept_conflicts(open, unsaved, n).contains(key) <==> open.contains(key) && unsaved.contains(key)
            &&& sync.stale_conflicts(open, unsaved, disk, n).contains(key) <==> open.contains(key) && !unsaved.contains(key) && sync.is_stale(
                key,
                disk.found@[i],
                disk.stamps@[i],
            )
        }),
    decreases n,
{
    let list = sync.scene_conflicts.list();
    let key = list[i];
    let kept = sync.kept_conflicts(open, unsaved, n - 1);
    let stale = sync.stale_conflicts(open, unsaved, disk, n - 1);
    crate::pathset::push_key(kept, list[n - 1]);
    crate::pathset::push_key(stale, list[n - 1]);
    assert(kept.push(list[n - 1]).to_set().contains(key) == kept.to_set().insert(list[n - 1]).contains(key));
    assert(stale.push(list[n - 1]).to_set().contains(key) == stale.to_set().insert(list[n - 1]).contains(key));
    if i < n - 1 {
        conflicts_exactly(sync, open, unsaved, disk, n - 1, i);
        assert(list[i] != list[n - 1]);
    } else {
        conflicts_listed(sync, open, unsaved, disk, n - 1);
        if kept.contains(key) || stale.contains(key) {
            let prior = list.take(n - 1);
            let j = choose|j: int| 0 <= j < prior.len() && prior[j] == key;
            assert(list[j] == list[i]);
        }
    }
}

proof fn conflicts_listed(sync: ExternalSync, open: Set<Key>, unsaved: Set<Key>, disk: DiskState, n: int)
    requires
        0 <= n <= sync.scene_conflicts.list().len(),
    ensures
        forall|k: Key| #[trigger] sync.kept_conflicts(open, unsaved, n).contains(k) ==> sync.scene_conflicts.list().take(n).contains(k),
        forall|k: Key| #[trigger] sync.stale_conflicts(open, unsaved, disk, n).contains(k) ==> sync.scene_conflicts.list().take(n).contains(k),
    decreases n,
{
    if n > 0 {
        conflicts_listed(sync, open, unsaved, disk, n - 1);
        let list = sync.scene_conflicts.list();
        let kept = sync.kept_conflicts(open, unsaved, n - 1);
        let stale = sync.stale_conflicts(open, unsaved, disk, n - 1);
        assert(list.take(n) == list.take(n - 1).push(list[n - 1]));
        crate::pathset::push_key(list.take(n - 1), list[n - 1]);
        crate::pathset::push_key(kept, list[n - 1]);
        crate::pathset::push_key(stale, list[n - 1]);
        assert forall|k: Key| #[trigger] sync.kept_conflicts(open, unsaved, n).contains(k) implies list.take(n).contains(k) by {
            assert(kept.push(list[n - 1]).to_set().contains(k) == kept.to_set().insert(list[n - 1]).contains(k));
            assert(list.take(n).to_set().contains(k) == list.take(n - 1).to_set().insert(list[n - 1]).contains(k));
            assert(sync.kept_conflicts(open, unsaved, n).to_set().contains(k));
            if kept.to_set().contains(k) {
                assert(kept.contains(k));
            }
        }
        assert forall|k: Key| #[trigger] sync.stale_conflicts(open, unsaved, disk, n).contains(k) implies list.take(n).contains(k) by {
            assert(stale.push(list[n - 1]).to_set().contains(k) == stale.to_set().insert(list[n - 1]).contains(k));
            assert(list.take(n).to_set().contains(k) == list.take(n - 1).to_set().insert(list[n - 1]).contains(k));
            assert(sync.stale_conflicts(open, unsaved, disk, n).to_set().contains(k));
            if stale.to_set().contains(k) {
                assert(stale.contains(k));
            }
        }
    }
}

/// A prompted scene stays a conflict while it is open with unsaved edits. One
/// that an undo left clean is reloaded if the change it was prompted for is
/// still on disk and not the editor's own; any other is dropped.
pub proof fn prompted_scenes_are_followed(sync: &mut ExternalSync, open: &PathSet, unsaved: &PathSet, disk: &DiskState, reloads: Vec<FilePath>, i: int)
    requires
        call_ensures(ExternalSync::prune_scene_conflicts, (sync, open, unsaved, disk), reloads),
        old(sync).scene_conflicts.wf(),
        0 <= i < old(sync).scene_conflicts.list().len(),
    ensures
        ({
            let key = old(sync).scene_conflicts.list()[i];
            let stamp = disk.stamps@[i];
            let acted_on = old(sync).delivered@.dom().contains(key) && old(sync).delivered@[key] == stamp;
            let own = old(sync).scene_saves@.dom().contains(key) && old(sync).scene_saves@[key] == stamp;
            &&& final(sync).scene_conflicts@.contains(key) <==> open@.contains(key) && unsaved@.contains(key)
            &&& crate::pathset::keys_of(reloads@).contains(key) <==> open@.contains(key) && !unsaved@.contains(key) && disk.found@[i] && acted_on && !own
        }),
{
    conflicts_exactly(*old(sync), open@, unsaved@, *disk, old(sync).scene_conflicts.list().len() as int, i);
}

/// Nothing becomes a conflict, and nothing is reloaded, that was not prompted.
pub proof fn pruning_adds_nothing(sync: &mut ExternalSync, open: &PathSet, unsaved: &PathSet, disk: &DiskState, reloads: Vec<FilePath>, key: Key)
    requires
        call_ensures(ExternalSync::prune_scene_conflicts, (sync, open, unsaved, disk), reloads),
        !old(sync).scene_conflicts@.contains(key),
    ensures
        !final(sync).scene_conflicts@.contains(key),
        !crate::pathset::keys_of(reloads@).contains(key),
        final(sync).scene_dialog_pending == old(sync).scene_dialog_pending,
{
    let list = old(sync).scene_conflicts.list();
    conflicts_listed(*old(sync), open@, unsaved@, *disk, list.len() as int);
    assert(list.take(list.len() as int) =~= list);
}

proof fn among_exactly(list: Seq<Key>, set: Set<Key>, n: int, key: Key)
    requires
        0 <= n <= list.len(),
    ensures
        among(list, set, n).to_set().contains(key) <==> list.take(n).contains(key) && set.contains(key),
    decreases n,
{
    if n > 0 {
        among_exactly(list, set, n - 1, key);
        assert(list.take(n) == list.take(n - 1).push(list[n - 1]));
        crate::pathset::push_key(among(list, set, n - 1), list[n - 1]);
        crate::pathset::push_key(list.take(n - 1), list[n - 1]);
        assert(list.take(n).to_set().contains(key) == list.take(n - 1).to_set().insert(list[n - 1]).contains(key));
        if list.take(n - 1).to_set().contains(key) {
            assert(list.take(n - 1).contains(key));
        }
    }
}

/// A pending change conflicts: its tab is unsaved and its file still holds the
/// change that was delivered.
pub open spec fn overwrites(sync: ExternalSync, facts: ScriptFacts, unsaved: Set<Key>, i: int) -> bool {
    let key = sync.script_pending.list()[i];
    &&& 0 <= i < sync.script_pending.list().len()
    &&& unsaved.contains(key)
    &&& sync.delivered@.dom().contains(key) && sync.delivered@[key] == facts.stamps@[i]
}

proof fn current_exactly(sync: ExternalSync, facts: ScriptFacts, unsaved: Set<Key>, n: int, key: Key)
    requires
        0 <= n <= sync.script_pending.list().len(),
    ensures
        current_among(sync.delivered@, sync.script_pending.list(), facts.stamps@, unsaved, n).to_set().contains(key) <==> exists|i: int|
            0 <= i < n && #[trigger] overwrites(sync, facts, unsaved, i) && sync.script_pending.list()[i] == key,
    decreases n,
{
    let list = sync.script_pending.list();
    if n > 0 {
        current_exactly(sync, facts, unsaved, n - 1, key);
        let rest = current_among(sync.delivered@, list, facts.stamps@, unsaved, n - 1);
        crate::pathset::push_key(rest, list[n - 1]);
        let all = current_among(sync.delivered@, list, facts.stamps@, unsaved, n);
        if overwrites(sync, facts, unsaved, n - 1) {
            assert(all == rest.push(list[n - 1]));
        } else {
            assert(all == rest);
        }
        if all.to_set().contains(key) {
            if rest.to_set().contains(key) {
                let i = choose|i: int| 0 <= i < n - 1 && #[trigger] overwrites(sync, facts, unsaved, i) && list[i] == key;
                assert(overwrites(sync, facts, unsaved, i));
            } else {
                assert(overwrites(sync, facts, unsaved, n - 1));
            }
        }
        if exists|i: int| 0 <= i < n && #[trigger] overwrites(sync, facts, unsaved, i) && list[i] == key {
            let i = choose|i: int| 0 <= i < n && #[trigger] overwrites(sync, facts, unsaved, i) && list[i] == key;
            if i < n - 1 {
                assert(rest.to_set().contains(key));
            }
        }
    }
}

/// Some pending change conflicts.
pub open spec fn any_overwrites(sync: ExternalSync, facts: ScriptFacts, unsaved: Set<Key>) -> bool {
    exists|i: int| #[trigger] overwrites(sync, facts, unsaved, i)
}

/// Some prompted tab is unsaved still.
pub open spec fn any_outstanding(sync: ExternalSync, unsaved: Set<Key>) -> bool {
    exists|k: Key| #[trigger] sync.script_conflicts@.contains(k) && unsaved.contains(k)
}

proof fn flush_sets(sync: ExternalSync, facts: ScriptFacts, unsaved: Set<Key>)
    ensures
        forall|k: Key| #[trigger] sync.outstanding(unsaved).contains(k) <==> sync.script_conflicts@.contains(k) && unsaved.contains(k),
        forall|k: Key| #[trigger]
            sync.new_conflicts(facts.stamps@, unsaved).contains(k) <==> exists|i: int|
                #[trigger] overwrites(sync, facts, unsaved, i) && sync.script_pending.list()[i] == k,
        sync.outstanding(unsaved) != Set::<Key>::empty() <==> any_outstanding(sync, unsaved),
        sync.new_conflicts(facts.stamps@, unsaved) != Set::<Key>::empty() <==> any_overwrites(sync, facts, unsaved),
{
    let held = sync.script_conflicts.list();
    let pending = sync.script_pending.list();
    assert(held.take(held.len() as int) =~= held);
    assert forall|k: Key| #[trigger] sync.outstanding(unsaved).contains(k) <==> sync.script_conflicts@.contains(k) && unsaved.contains(k) by {
        among_exactly(held, unsaved, held.len() as int, k);
    }
    assert forall|k: Key| #[trigger] sync.new_conflicts(facts.stamps@, unsaved).contains(k) <==> exists|i: int|
        #[trigger] overwrites(sync, facts, unsaved, i) && sync.script_pending.list()[i] == k by {
        current_exactly(sync, facts, unsaved, pending.len() as int, k);
        if exists|i: int| #[trigger] overwrites(sync, facts, unsaved, i) && sync.script_pending.list()[i] == k {
            let i = choose|i: int| #[trigger] overwrites(sync, facts, unsaved, i) && sync.script_pending.list()[i] == k;
            assert(0 <= i < pending.len());
        }
    }
    if any_outstanding(sync, unsaved) {
        let k = choose|k: Key| #[trigger] sync.script_conflicts@.contains(k) && unsaved.contains(k);
        assert(sync.outstanding(unsaved).contains(k));
    } else {
        assert(sync.outstanding(unsaved) =~= Set::<Key>::empty());
    }
    if any_overwrites(sync, facts, unsaved) {
        let i = choose|i: int| #[trigger] overwrites(sync, facts, unsaved, i);
        assert(sync.new_conflicts(facts.stamps@, unsaved).contains(pending[i]));
    } else {
        assert(sync.new_conflicts(facts.stamps@, unsaved) =~= Set::<Key>::empty());
    }
}

/// Changed scripts are reloaded at once where nothing stands in the way: the
/// user lets them, no window is up, and no prompted tab waits unsaved. A change
/// under unsaved edits reloads too, which prompts, and nothing else prompts.
pub proof fn changed_scripts_are_reloaded(sync: &mut ExternalSync, facts: &ScriptFacts, unsaved: PathSet, flush: ScriptFlush)
    requires
        call_ensures(ExternalSync::flush_scripts, (sync, facts), flush),
        facts.unsaved == Some(unsaved),
    ensures
        ({
            let work = old(sync).script_pending@ != Set::<Key>::empty() || old(sync).script_conflicts@ != Set::<Key>::empty();
            let conflict = any_overwrites(*old(sync), *facts, unsaved@);
            let waiting = any_outstanding(*old(sync), unsaved@);
            &&& facts.autoreload && !facts.modal && work && (conflict || !waiting) <==> flush.reload
            &&& flush.presented <==> flush.reload && conflict
        }),
{
    flush_sets(*old(sync), *facts, unsaved@);
}

/// What a flush leaves: a tab stays a conflict while it is unsaved, one whose
/// change was presented becomes one, and pending changes wait unless they were
/// handed over. Without autoreload everything is left to the real focus, and
/// without a script editor nothing happens.
pub proof fn flushes_keep_what_is_open(sync: &mut ExternalSync, facts: &ScriptFacts, flush: ScriptFlush, key: Key)
    requires
        call_ensures(ExternalSync::flush_scripts, (sync, facts), flush),
    ensures
        !facts.autoreload ==> !flush.reload && !flush.presented && final(sync).script_pending@ == Set::<Key>::empty() && final(sync).script_conflicts@
            == Set::<Key>::empty(),
        facts.autoreload && facts.unsaved is None ==> !flush.reload && !flush.presented && final(sync).script_pending@ == old(sync).script_pending@
            && final(sync).script_conflicts@ == old(sync).script_conflicts@,
        facts.autoreload && flush.reload ==> final(sync).script_pending@ == Set::<Key>::empty(),
        facts.autoreload && !flush.reload ==> final(sync).script_pending@ == old(sync).script_pending@,
        facts.autoreload && facts.unsaved is Some ==> (final(sync).script_conflicts@.contains(key) <==> (old(sync).script_conflicts@.contains(key)
            && facts.unsaved->0@.contains(key)) || (flush.reload && exists|i: int| #[trigger]
            overwrites(*old(sync), *facts, facts.unsaved->0@, i) && old(sync).script_pending.list()[i] == key)),
        final(sync).delivered == old(sync).delivered && final(sync).scene_conflicts == old(sync).scene_conflicts,
{
    if facts.unsaved is Some {
        flush_sets(*old(sync), *facts, facts.unsaved->0@);
    }
}

proof fn dialog_exactly(sync: ExternalSync, open: Set<Key>, unsaved: Set<Key>, disk: DiskState, n: int, i: int)
    requires
        0 <= i < n <= sync.scene_dialog_pending.list().len(),
        sync.scene_dialog_pending.list().no_duplicates(),
    ensures
        ({
            let key = sync.scene_dialog_pending.list()[i];
            &&& sync.dialog_conflicts(open, unsaved, disk, n).contains(key) <==> sync.still_conflicts(open, unsaved, disk, i)
            &&& sync.dialog_reloads(open, unsaved, disk, n).contains(key) <==> !sync.still_conflicts(open, unsaved, disk, i) && open.contains(key)
                && sync.is_stale(key, disk.found@[i], disk.stamps@[i])
        }),
    decreases n,
{
    let list = sync.scene_dialog_pending.list();
    let key = list[i];
    let conflicts = sync.dialog_conflicts(open, unsaved, disk, n - 1);
    let reloads = sync.dialog_reloads(open, unsaved, disk, n - 1);
    crate::pathset::push_key(conflicts, list[n - 1]);
    crate::pathset::push_key(reloads, list[n - 1]);
    assert(conflicts.push(list[n - 1]).to_set().contains(key) == conflicts.to_set().insert(list[n - 1]).contains(key));
    assert(reloads.push(list[n - 1]).to_set().contains(key) == reloads.to_set().insert(list[n - 1]).contains(key));
    if i < n - 1 {
        dialog_exactly(sync, open, unsaved, disk, n - 1, i);
        assert(list[i] != list[n - 1]);
    } else {
        dialog_listed(sync, open, unsaved, disk, n - 1);
        if conflicts.contains(key) || reloads.contains(key) {
            let prior = list.take(n - 1);
            let j = choose|j: int| 0 <= j < prior.len() && prior[j] == key;
            assert(list[j] == list[i]);
        }
    }
}

proof fn dialog_listed(sync: ExternalSync, open: Set<Key>, unsaved: Set<Key>, disk: DiskState, n: int)
    requires
        0 <= n <= sync.scene_dialog_pending.list().len(),
    ensures
        forall|k: Key| #[trigger] sync.dialog_conflicts(open, unsaved, disk, n).contains(k) ==> sync.scene_dialog_pending.list().take(n).contains(k),
        forall|k: Key| #[trigger] sync.dialog_reloads(open, unsaved, disk, n).contains(k) ==> sync.scene_dialog_pending.list().take(n).contains(k),
        sync.dialog_conflicts(open, unsaved, disk, n).len() > 0 ==> exists|i: int| 0 <= i < n && #[trigger] sync.still_conflicts(open, unsaved, disk, i),
    decreases n,
{
    if n > 0 {
        dialog_listed(sync, open, unsaved, disk, n - 1);
        let list = sync.scene_dialog_pending.list();
        let conflicts = sync.dialog_conflicts(open, unsaved, disk, n - 1);
        let reloads = sync.dialog_reloads(open, unsaved, disk, n - 1);
        assert(list.take(n) == list.take(n - 1).push(list[n - 1]));
        crate::pathset::push_key(list.take(n - 1), list[n - 1]);
        crate::pathset::push_key(conflicts, list[n - 1]);
        crate::pathset::push_key(reloads, list[n - 1]);
        assert forall|k: Key| #[trigger] sync.dialog_conflicts(open, unsaved, disk, n).contains(k) implies list.take(n).contains(k) by {
            assert(conflicts.push(list[n - 1]).to_set().contains(k) == conflicts.to_set().insert(list[n - 1]).contains(k));
            assert(list.take(n).to_set().contains(k) == list.take(n - 1).to_set().insert(list[n - 1]).contains(k));
            assert(sync.dialog_conflicts(open, unsaved, disk, n).to_set().contains(k));
            if conflicts.to_set().contains(k) {
                assert(conflicts.contains(k));
            }
        }
        assert forall|k: Key| #[trigger] sync.dialog_reloads(open, unsaved, disk, n).contains(k) implies list.take(n).contains(k) by {
            assert(reloads.push(list[n - 1]).to_set().contains(k) == reloads.to_set().insert(list[n - 1]).contains(k));
            assert(list.take(n).to_set().contains(k) == list.take(n - 1).to_set().insert(list[n - 1]).contains(k));
            assert(sync.dialog_reloads(open, unsaved, disk, n).to_set().contains(k));
            if reloads.to_set().contains(k) {
                assert(reloads.contains(k));
            }
        }
        if sync.still_conflicts(open, unsaved, disk, n - 1) {
            assert(exists|i: int| 0 <= i < n && #[trigger] sync.still_conflicts(open, unsaved, disk, i));
        }
    }
}

/// A waiting scene that is still open and unsaved over the delivered change is
/// prompted for and becomes a conflict; one that turned clean meanwhile is
/// reloaded if it is stale. All of it waits while a window is up.
pub proof fn waiting_scenes_are_prompted(
    sync: &mut ExternalSync,
    modal: bool,
    open: &PathSet,
    unsaved: &PathSet,
    disk: &DiskState,
    dialog: SceneDialog,
    i: int,
)
    requires
        call_ensures(ExternalSync::present_scene_dialog, (sync, modal, open, unsaved, disk), dialog),
        old(sync).scene_dialog_pending.wf(),
        0 <= i < old(sync).scene_dialog_pending.list().len(),
    ensures
        modal ==> *final(sync) == *old(sync) && !dialog.notify && dialog.reloads@.len() == 0,
        !modal ==> {
            let key = old(sync).scene_dialog_pending.list()[i];
            let stamp = disk.stamps@[i];
            let acted_on = old(sync).delivered@.dom().contains(key) && old(sync).delivered@[key] == stamp;
            let own = old(sync).scene_saves@.dom().contains(key) && old(sync).scene_saves@[key] == stamp;
            let conflict = open@.contains(key) && unsaved@.contains(key) && acted_on;
            &&& conflict ==> dialog.notify && final(sync).scene_conflicts@.contains(key)
            &&& !conflict ==> (final(sync).scene_conflicts@.contains(key) <==> old(sync).scene_conflicts@.contains(key))
            &&& crate::pathset::keys_of(dialog.reloads@).contains(key) <==> !conflict && open@.contains(key) && disk.found@[i] && acted_on && !own
            &&& final(sync).scene_dialog_pending@ == Set::<Key>::empty() && !final(sync).project_pending
        },
{
    let list = old(sync).scene_dialog_pending.list();
    let n = list.len() as int;
    assert(old(sync).scene_dialog_pending@.contains(list[i]));
    dialog_exactly(*old(sync), open@, unsaved@, *disk, n, i);
}

/// The scene prompt is raised for a changed project.godot and for scenes that
/// conflict, and for nothing else.
pub proof fn prompts_have_a_reason(sync: &mut ExternalSync, modal: bool, open: &PathSet, unsaved: &PathSet, disk: &DiskState, dialog: SceneDialog, key: Key)
    requires
        call_ensures(ExternalSync::present_scene_dialog, (sync, modal, open, unsaved, disk), dialog),
    ensures
        !modal && old(sync).project_pending ==> dialog.notify && !final(sync).project_pending,
        dialog.notify ==> !modal && (old(sync).project_pending || exists|i: int|
            0 <= i < old(sync).scene_dialog_pending.list().len() && #[trigger] old(sync).still_conflicts(open@, unsaved@, *disk, i)),
        dialog.notify && !old(sync).project_pending ==> exists|k: Key| #[trigger]
            old(sync).scene_dialog_pending@.contains(k) && open@.contains(k) && unsaved@.contains(k),
        !old(sync).scene_dialog_pending@.contains(key) ==> !crate::pathset::keys_of(dialog.reloads@).contains(key) && (final(sync).scene_conflicts@.contains(key) <==> old(sync).scene_conflicts@.contains(key)),
{
    let list = old(sync).scene_dialog_pending.list();
    let n = list.len() as int;
    dialog_listed(*old(sync), open@, unsaved@, *disk, n);
    assert(list.take(n) =~= list);
    if dialog.notify && !old(sync).project_pending {
        let i = choose|i: int| 0 <= i < n && #[trigger] old(sync).still_conflicts(open@, unsaved@, *disk, i);
        assert(old(sync).scene_dialog_pending@.contains(list[i]));
    }
    if !old(sync).scene_dialog_pending@.contains(key) && old(sync).dialog_due(modal) {
        assert(!list.contains(key));
        assert(!old(sync).dialog_conflicts(open@, unsaved@, *disk, n).contains(key));
        assert(!old(sync).dialog_reloads(open@, unsaved@, *disk, n).contains(key));
    }
}

/// A file is a shader or an include file of shaders, by its name.
pub open spec fn shader_by_name(path: Key) -> bool {
    path.len() > 0 && (ends_in(path.last(), seq![0x2eu8, 0x67, 0x64, 0x73, 0x68, 0x61, 0x64, 0x65, 0x72]) || ends_in(
        path.last(),
        seq![0x2eu8, 0x67, 0x64, 0x73, 0x68, 0x61, 0x64, 0x65, 0x72, 0x69, 0x6e, 0x63],
    ))
}

proof fn shaders_by_name(path: Key)
    ensures
        is_shader(path) <==> shader_by_name(path),
{
    broadcast use vstd::string::is_ascii_spec_bytes;

    reveal_strlit("gdshader");
    reveal_strlit("gdshaderinc");
    assert(is_ascii("gdshader") && is_ascii("gdshaderinc"));
    let a = seq![0x67u8, 0x64, 0x73, 0x68, 0x61, 0x64, 0x65, 0x72];
    let b = seq![0x67u8, 0x64, 0x73, 0x68, 0x61, 0x64, 0x65, 0x72, 0x69, 0x6e, 0x63];
    assert("gdshader".spec_bytes() =~= a);
    assert("gdshaderinc".spec_bytes() =~= b);
    assert(seq![0x2eu8] + a =~= seq![0x2eu8, 0x67, 0x64, 0x73, 0x68, 0x61, 0x64, 0x65, 0x72]);
    assert(seq![0x2eu8] + b =~= seq![0x2eu8, 0x67, 0x64, 0x73, 0x68, 0x61, 0x64, 0x65, 0x72, 0x69, 0x6e, 0x63]);
    extension_by_bytes(path, a);
    extension_by_bytes(path, b);
}

proof fn shaders_exactly(fresh: Seq<Key>, found: Seq<bool>, n: int, key: Key)
    requires
        0 <= n <= fresh.len(),
    ensures
        shaders_of(fresh, found, n).contains(key) <==> exists|i: int| 0 <= i < n && #[trigger] fresh[i] == key && shader_by_name(key) && found[i],
    decreases n,
{
    if n > 0 {
        shaders_exactly(fresh, found, n - 1, key);
        shaders_by_name(fresh[n - 1]);
        let rest = shaders_of(fresh, found, n - 1);
        if rest.contains(key) {
            let i = choose|i: int| 0 <= i < n - 1 && #[trigger] fresh[i] == key && shader_by_name(key) && found[i];
            assert(fresh[i] == key);
        }
        if fresh[n - 1] == key && shader_by_name(key) && found[n - 1] {
            assert(fresh[n - 1] == key);
        }
    }
}

/// Shader files that changed and are there wait for the shader editors, and
/// nothing else does; they are handed over once, where the user lets them.
pub proof fn changed_shaders_are_handed_over(
    sync: &mut ExternalSync,
    then: &mut ExternalSync,
    fresh: &Vec<FilePath>,
    found: &Vec<bool>,
    autoreload: bool,
    notify: bool,
    i: int,
    key: Key,
)
    requires
        call_ensures(ExternalSync::queue_shaders, (sync, fresh, found), ()),
        call_ensures(ExternalSync::flush_shaders, (then, autoreload), notify),
        *final(sync) == *old(then),
        found@.len() == fresh@.len(),
    ensures
        0 <= i < fresh@.len() && shader_by_name(fresh@[i]@) && found@[i] ==> final(sync).shader_pending@.contains(fresh@[i]@) && (notify
            <==> autoreload),
        final(sync).shader_pending@.contains(key) ==> old(sync).shader_pending@.contains(key) || shader_by_name(key) && crate::pathset::keys_of(
            fresh@,
        ).contains(key),
        old(sync).shader_pending@.contains(key) ==> final(sync).shader_pending@.contains(key),
        notify ==> autoreload && final(sync).shader_pending@ != Set::<Key>::empty(),
        final(then).shader_pending@ == Set::<Key>::empty(),
{
    let keys = crate::pathset::keys_of(fresh@);
    let n = keys.len() as int;
    shaders_exactly(keys, found@, n, key);
    if 0 <= i < fresh@.len() && shader_by_name(fresh@[i]@) && found@[i] {
        shaders_exactly(keys, found@, n, fresh@[i]@);
        assert(keys[i] == fresh@[i]@);
        assert(final(sync).shader_pending@.contains(fresh@[i]@));
        assert(final(sync).shader_pending@ != Set::<Key>::empty());
    }
    if shaders_of(keys, found@, n).contains(key) {
        let j = choose|j: int| 0 <= j < n && #[trigger] keys[j] == key && shader_by_name(key) && found@[j];
        assert(keys.contains(key));
    }
}

/// Every fresh change waits for the script editor, and what waited stays.
pub proof fn fresh_changes_wait_for_scripts(sync: &mut ExternalSync, fresh: &Vec<FilePath>, key: Key)
    requires
        call_ensures(ExternalSync::queue_scripts, (sync, fresh), ()),
    ensures
        final(sync).script_pending@.contains(key) <==> old(sync).script_pending@.contains(key) || crate::pathset::keys_of(fresh@).contains(key),
        final(sync).script_conflicts == old(sync).script_conflicts && final(sync).delivered == old(sync).delivered,
{
}

/// A buffer counts as saved only where both its versions are known and the
/// same.
pub proof fn unknown_buffers_are_not_discarded(versions: Option<(i64, i64)>, unsaved: bool)
    requires
        call_ensures(shader_buffer_unsaved, (versions,), unsaved),
    ensures
        versions is None ==> unsaved,
        versions matches Some((version, saved)) ==> (unsaved <==> version != saved),
{
}

/// A sync with fresh changes goes through every step in order; without any it
/// goes from delivering straight to the held work. The scene prompt is offered
/// unless a script prompt came up.
pub proof fn syncs_go_through_their_steps(step: SyncStep, fresh: bool, presented: bool, next: SyncStep)
    requires
        call_ensures(SyncStep::next, (step, fresh, presented), next),
    ensures
        step is CaptureFocus ==> next is Deliver,
        step is Deliver && fresh ==> next is ScanSources,
        step is Deliver && !fresh ==> next is PruneSceneConflicts,
        step is ScanSources ==> next is ReloadExtensions,
        step is ReloadExtensions ==> next is ReloadScenes,
        step is ReloadScenes ==> next is QueueShaders,
        step is QueueShaders ==> next is QueueScripts,
        step is QueueScripts ==> next is PruneSceneConflicts,
        step is PruneSceneConflicts ==> next is FlushScripts,
        step is FlushScripts && !presented ==> next is PresentSceneDialog,
        step is FlushScripts && presented || step is PresentSceneDialog ==> next is FlushShaders,
        step is FlushShaders ==> next is RestoreFocus,
        step is RestoreFocus || step is Done ==> next is Done,
{
}

/// Focus goes back to where it was exactly if that is still there and
/// something else has it.
pub proof fn focus_goes_back(before: Option<i64>, valid: bool, current: Option<i64>, grab: bool)
    requires
        call_ensures(restore_focus, (before, valid, current), grab),
    ensures
        grab ==> before is Some && current is Some && before->0 != current->0 && valid,
        before is Some && current is Some && valid && before->0 != current->0 ==> grab,
{
}

/// One window is enough for a modal to be up: it shows and is exclusive.
pub proof fn prompts_are_exclusive_windows(windows: &Vec<WindowState>, r: bool, i: int)
    requires
        call_ensures(modal_open, (windows,), r),
    ensures
        0 <= i < windows@.len() && windows@[i].visible && windows@[i].exclusive ==> r,
        r ==> exists|k: int| 0 <= k < windows@.len() && (#[trigger] windows@[k]).visible && windows@[k].exclusive,
{
}

/// Files are reloaded without asking unless the user turned that off.
pub proof fn reloading_is_on_by_default(setting: Option<bool>, r: bool)
    requires
        call_ensures(autoreload_enabled, (setting,), r),
    ensures
        !r <==> setting == Some(false),
{
}

/// The editor's main node is found wherever it is in the chain, and the first
/// one counts.
pub proof fn main_nodes_are_found(classes: &Vec<String>, at: Option<usize>, i: int)
    requires
        call_ensures(editor_node, (classes,), at),
        0 <= i < classes@.len(),
        classes@[i]@ == seq!['E', 'd', 'i', 't', 'o', 'r', 'N', 'o', 'd', 'e'],
    ensures
        at is Some && at->0 <= i,
        classes@[at->0 as int]@ == classes@[i]@,
{
    reveal_strlit("EditorNode");
    assert("EditorNode"@ =~= seq!['E', 'd', 'i', 't', 'o', 'r', 'N', 'o', 'd', 'e']);
}

/// A file belongs to this terminal exactly if its name is text that holds the
/// crate's name.
pub proof fn our_files_name_us(path: &FilePath, r: bool)
    requires
        call_ensures(is_own, (path,), r),
    ensures
        r <==> names_us(path@) && valid_utf8(path@.last()),
{
    broadcast use vstd::string::is_ascii_spec_bytes;

    reveal_strlit("godotty");
    assert(is_ascii("godotty"));
    let us = seq![0x67u8, 0x6f, 0x64, 0x6f, 0x74, 0x74, 0x79];
    assert("godotty".spec_bytes() =~= us);
    if path@.len() > 0 {
        let name = path@.last();
        if names_us(path@) {
            let at = choose|at: int| 0 <= at && at + 7 <= name.len() && #[trigger] name.subrange(at, at + 7) == us;
            assert(crate::path::occurs_at(name, us, at));
        }
        if crate::path::has_word(name, us) {
            let at = choose|at: int| crate::path::occurs_at(name, us, at);
            assert(name.subrange(at, at + 7) == us);
        }
    }
}

/// What is reported below the resolved root is spelled below the root that
/// the editor knows; any other path is spelled as it was.
pub proof fn reported_paths_are_respelled(sync: &ExternalSync, path: &FilePath, rest: Key, result: FilePath, i: int)
    requires
        call_ensures(ExternalSync::rooted, (sync, path), result),
    ensures
        path@ == sync.canonical_root@ + rest ==> result@ == sync.root@ + rest,
        0 <= i < sync.canonical_root@.len() && (i >= path@.len() || path@[i] != sync.canonical_root@[i]) ==> result@ == path@,
{
    resolved_paths_line_up(sync.root@, sync.canonical_root@, rest);
    let n = sync.canonical_root@.len() as int;
    if 0 <= i < n && n <= path@.len() {
        assert(path@.take(n)[i] == path@[i]);
    }
}

} // verus!
