//! Terminals in three editor locations: per-terminal docks, a tabbed bottom
//! panel and a tabbed main screen. What is registered with the editor, how
//! tabs and terminals stay in step, and what the commands do.

use godot::classes::editor_plugin::DockSlot;
use godot::obj::EngineEnum;
use vstd::prelude::*;
use vstd::string::*;

use crate::input::{KEY_0, KEY_EQUAL, KEY_MINUS, KEY_QUOTELEFT};
use crate::text::{chars_of, last_component};

verus! {

// ---------------------------------------------------------------------------
// Tabs
// ---------------------------------------------------------------------------

/// Tabbed terminals: the tab strip and the stack of terminals below it. Tabs
/// carry the terminal's identity so order can always be resynced.
pub struct TerminalTabs {
    pub bar: Vec<i64>,
    pub stack: Vec<i64>,
}

/// What focusing the active tab takes.
#[derive(Clone, Copy, Debug, PartialEq, Eq, Structural)]
pub enum FocusStep {
    Nothing,
    AddTerminal,
    Focus(usize),
}

/// Widest a tab gets, in pixels.
pub const MAX_TAB_WIDTH: i32 = 200;

/// Texts of the tab strip and of the hint that an empty area shows.
#[derive(Clone, Copy, Debug)]
pub struct TabsSetup {
    pub add_tooltip: &'static str,
    /// Caption of the new-terminal button where the editor has no icon for it.
    pub add_text: Option<&'static str>,
    pub empty_label: &'static str,
    pub new_text: &'static str,
}

/// What the tab area is built from; it is built once.
pub fn tabs_setup(built: bool, has_icon: bool) -> (setup: Option<TabsSetup>)
    ensures
        setup == (if built {
            None
        } else {
            Some(TabsSetup {
                add_tooltip: "New terminal",
                add_text: if has_icon { None } else { Some("+") },
                empty_label: "No open terminals",
                new_text: "New Terminal",
            })
        }),
{
    if built {
        return None;
    }
    Some(TabsSetup {
        add_tooltip: "New terminal",
        add_text: if has_icon { None } else { Some("+") },
        empty_label: "No open terminals",
        new_text: "New Terminal",
    })
}

/// An element taken out and put in at another place.
pub open spec fn moved(s: Seq<i64>, from: int, to: int) -> Seq<i64> {
    s.remove(from).insert(to, s[from])
}

/// A sequence of moves, applied in order.
pub open spec fn apply_moves(s: Seq<i64>, moves: Seq<(usize, usize)>) -> Seq<i64>
    decreases moves.len(),
{
    if moves.len() == 0 {
        s
    } else {
        let rest = apply_moves(s, moves.drop_last());
        moved(rest, moves.last().0 as int, moves.last().1 as int)
    }
}

/// The same identities, each once.
pub open spec fn rearranges(a: Seq<i64>, b: Seq<i64>) -> bool {
    &&& a.no_duplicates()
    &&& b.no_duplicates()
    &&& a.len() == b.len()
    &&& forall|i: int| 0 <= i < a.len() ==> b.contains(#[trigger] a[i])
}

/// The first place from `n` on that holds an identity.
pub open spec fn first_from(s: Seq<i64>, id: i64, n: int) -> Option<int>
    decreases s.len() - n,
{
    if n >= s.len() {
        None
    } else if s[n] == id {
        Some(n)
    } else {
        first_from(s, id, n + 1)
    }
}

/// The stack after each of the first `n` tabs' terminals was fetched to the
/// tab's place, as far as it is there.
pub open spec fn arranged(s: Seq<i64>, order: Seq<i64>, n: int) -> Seq<i64>
    decreases n,
{
    if n <= 0 {
        s
    } else {
        let rest = arranged(s, order, n - 1);
        match first_from(rest, order[n - 1], n - 1) {
            Some(i) if i != n - 1 => moved(rest, i, n - 1),
            _ => rest,
        }
    }
}

proof fn first_from_is(s: Seq<i64>, id: i64, n: int, at: int)
    requires
        0 <= n <= at <= s.len(),
        forall|i: int| n <= i < at ==> s[i] != id,
        at == s.len() || s[at] == id,
    ensures
        first_from(s, id, n) == (if at < s.len() { Some(at) } else { None }),
    decreases at - n,
{
    if n < at {
        first_from_is(s, id, n + 1, at);
    }
}

proof fn move_facts(s: Seq<i64>, from: int, to: int)
    requires
        0 <= to <= from < s.len(),
        s.no_duplicates(),
    ensures
        moved(s, from, to).len() == s.len(),
        moved(s, from, to)[to] == s[from],
        forall|i: int| 0 <= i < to ==> #[trigger] moved(s, from, to)[i] == s[i],
        forall|i: int| to < i <= from ==> #[trigger] moved(s, from, to)[i] == s[i - 1],
        forall|i: int| from < i < s.len() ==> #[trigger] moved(s, from, to)[i] == s[i],
        moved(s, from, to).no_duplicates(),
        forall|k: i64| #[trigger] moved(s, from, to).contains(k) == s.contains(k),
{
    let m = moved(s, from, to);
    assert forall|i: int, j: int| 0 <= i < j < m.len() implies m[i] != m[j] by {
        let oi = if i < to { i } else if i == to { from } else if i <= from { i - 1 } else { i };
        let oj = if j < to { j } else if j == to { from } else if j <= from { j - 1 } else { j };
        assert(m[i] == s[oi] && m[j] == s[oj]);
        assert(oi != oj);
    }
    assert forall|k: i64| #[trigger] m.contains(k) == s.contains(k) by {
        if m.contains(k) {
            let i = choose|i: int| 0 <= i < m.len() && m[i] == k;
            let oi = if i < to { i } else if i == to { from } else if i <= from { i - 1 } else { i };
            assert(s[oi] == k);
        }
        if s.contains(k) {
            let i = choose|i: int| 0 <= i < s.len() && s[i] == k;
            let ni = if i < to { i } else if i == from { to } else if i < from { i + 1 } else { i };
            assert(m[ni] == k);
        }
    }
}

/// An identity that both orders hold and that is not among the first `n`,
/// which agree, stands at `n` or later.
proof fn found_later(s: Seq<i64>, order: Seq<i64>, n: int)
    requires
        rearranges(s, order),
        0 <= n < order.len(),
        forall|i: int| 0 <= i < n ==> s[i] == order[i],
    ensures
        exists|i: int| n <= i < s.len() && #[trigger] s[i] == order[n],
{
    // Were it missing, the entries of `s` would all fit into one place fewer.
    s.unique_seq_to_set();
    order.unique_seq_to_set();
    let a = s.to_set();
    let b = order.to_set();
    assert(a.subset_of(b)) by {
        assert forall|k: i64| a.contains(k) implies b.contains(k) by {
            let i = choose|i: int| 0 <= i < s.len() && s[i] == k;
            assert(order.contains(s[i]));
        }
    }
    vstd::set_lib::lemma_subset_equality(a, b);
    assert(b.contains(order[n]));
    assert(a.contains(order[n]));
    let i = choose|i: int| 0 <= i < s.len() && s[i] == order[n];
    if i < n {
        assert(order[i] == order[n]);
    }
}

impl TerminalTabs {
    /// Tabs and terminals are in step.
    pub open spec fn wf(self) -> bool {
        self.bar@ == self.stack@ && self.bar@.no_duplicates() && self.bar@.len() <= i32::MAX
    }

    pub fn new() -> (t: TerminalTabs)
        ensures
            t.wf(),
            t.bar@.len() == 0,
    {
        TerminalTabs { bar: Vec::new(), stack: Vec::new() }
    }

    /// A terminal gets a tab behind the others, which becomes the current one.
    /// Tells its place.
    pub fn add_terminal(&mut self, id: i64) -> (last: usize)
        ensures
            final(self).bar@ == old(self).bar@.push(id),
            final(self).stack@ == old(self).stack@.push(id),
            last == old(self).bar@.len(),
            old(self).wf() && !old(self).bar@.contains(id) && old(self).bar@.len() < i32::MAX ==> final(self).wf(),
    {
        let ghost before = self.bar@;
        self.stack.push(id);
        self.bar.push(id);
        proof {
            if old(self).wf() && !before.contains(id) {
                assert forall|i: int, j: int| 0 <= i < j < self.bar@.len() implies self.bar@[i] != self.bar@[j] by {
                    if j == before.len() {
                        assert(before.contains(before[i]));
                    }
                }
            }
        }
        self.bar.len() - 1
    }

    /// Close a tab. Tells the terminal to free, if there was such a tab.
    pub fn close_tab(&mut self, tab: i32) -> (closed: Option<i64>)
        ensures
            ({
                let open = 0 <= tab < old(self).bar@.len();
                let there = open && tab < old(self).stack@.len();
                &&& closed == (if there { Some(old(self).stack@[tab as int]) } else { None })
                &&& final(self).stack@ == (if there { old(self).stack@.remove(tab as int) } else { old(self).stack@ })
                &&& final(self).bar@ == (if open { old(self).bar@.remove(tab as int) } else { old(self).bar@ })
            }),
            old(self).wf() ==> final(self).wf(),
    {
        if tab < 0 || tab as usize >= self.bar.len() {
            return None;
        }
        let at: usize = tab as usize;
        let ghost before = self.bar@;
        let mut closed: Option<i64> = None;
        if at < self.stack.len() {
            closed = Some(self.stack.remove(at));
        }
        self.bar.remove(at);
        proof {
            if old(self).wf() {
                assert forall|i: int, j: int| 0 <= i < j < self.bar@.len() implies self.bar@[i] != self.bar@[j] by {
                    let oi = if i < at { i } else { i + 1 };
                    let oj = if j < at { j } else { j + 1 };
                    assert(before[oi] != before[oj]);
                }
            }
        }
        closed
    }

    /// The tab bar reorders any dragged tab, active or not; rebuild the stack
    /// order from the identities the tabs carry, `order` being the tabs' new
    /// one. Tells the moves to make in the stack.
    pub fn on_tab_rearranged(&mut self, order: Vec<i64>) -> (moves: Vec<(usize, usize)>)
        ensures
            final(self).bar@ == order@,
            final(self).stack@ == arranged(old(self).stack@, order@, order@.len() as int),
            apply_moves(old(self).stack@, moves@) == final(self).stack@,
            old(self).wf() && rearranges(old(self).stack@, order@) ==> final(self).wf(),
            forall|k: int| 0 <= k < moves@.len() ==> (#[trigger] moves@[k]).1 < moves@[k].0 < old(self).stack@.len(),
    {
        let ghost start = self.stack@;
        let mut moves: Vec<(usize, usize)> = Vec::new();
        let mut tab: usize = 0;
        while tab < order.len()
            invariant
                tab <= order@.len(),
                self.stack@.len() == start.len(),
                self.stack@ == arranged(start, order@, tab as int),
                self.bar@ == old(self).bar@,
                apply_moves(start, moves@) == self.stack@,
                forall|k: int| 0 <= k < moves@.len() ==> (#[trigger] moves@[k]).1 < moves@[k].0 < start.len(),
            decreases order@.len() - tab,
        {
            let id: i64 = order[tab];
            let ghost before = self.stack@;
            let len: usize = self.stack.len();
            if tab < len {
                let mut i: usize = tab;
                while i < len && self.stack[i] != id
                    invariant
                        tab <= i <= len,
                        len == before.len(),
                        self.stack@ == before,
                        self.bar@ == old(self).bar@,
                        forall|j: int| tab <= j < i ==> before[j] != id,
                    decreases len - i,
                {
                    i = i + 1;
                }
                proof {
                    first_from_is(before, id, tab as int, i as int);
                }
                if i < len && i != tab {
                    let ghost listed = moves@;
                    let child: i64 = self.stack.remove(i);
                    self.stack.insert(tab, child);
                    moves.push((i, tab));
                    proof {
                        assert(self.stack@ == moved(before, i as int, tab as int));
                        assert(moves@.drop_last() == listed);
                    }
                }
            }
            tab = tab + 1;
        }
        proof {
            if old(self).wf() && rearranges(start, order@) {
                rearranging_restores_the_order(start, order@, order@.len() as int);
                assert(self.stack@ == order@);
            }
        }
        self.bar = order;
        moves
    }

    /// Which terminals are visible when a tab is current: its own alone, which
    /// also takes focus.
    pub fn show_only(&self, tab: i32) -> (visible: Vec<bool>)
        ensures
            visible@ == Seq::new(self.stack@.len(), |i: int| i == tab),
    {
        let mut visible: Vec<bool> = Vec::new();
        let mut i: usize = 0;
        while i < self.stack.len()
            invariant
                i <= self.stack@.len(),
                visible@.len() == i,
                forall|k: int| 0 <= k < i ==> visible@[k] == (k == tab),
            decreases self.stack@.len() - i,
        {
            visible.push(tab >= 0 && i == tab as usize);
            i = i + 1;
        }
        assert(visible@ == Seq::new(self.stack@.len(), |i: int| i == tab));
        visible
    }

    /// The hint for an empty area shows.
    pub fn update_empty(&self) -> (show: bool)
        ensures
            show == (self.bar@.len() == 0),
    {
        self.bar.len() == 0
    }

    /// A visited empty tab area creates its first terminal.
    pub fn autocreate(&self, visible: bool) -> (create: bool)
        ensures
            create == (visible && self.bar@.len() == 0),
    {
        self.bar.len() == 0 && visible
    }

    /// Focus the active tab's terminal, creating one when there is none.
    pub fn focus_active(&self, current: i32) -> (step: FocusStep)
        ensures
            step == (if current < 0 {
                FocusStep::AddTerminal
            } else if current < self.stack@.len() {
                FocusStep::Focus(current as usize)
            } else {
                FocusStep::Nothing
            }),
    {
        if current < 0 {
            return FocusStep::AddTerminal;
        }
        let at: usize = current as usize;
        if at < self.stack.len() {
            FocusStep::Focus(at)
        } else {
            FocusStep::Nothing
        }
    }

    /// The tab to retitle when the terminal at this place tells a title; empty
    /// titles tell nothing.
    pub fn on_title_changed(&self, title: &str, at: i32) -> (tab: Option<usize>)
        ensures
            tab == (if title@.len() > 0 && 0 <= at < self.bar@.len() { Some(at as usize) } else { None }),
    {
        if title.is_empty() {
            return None;
        }
        if at >= 0 && (at as usize) < self.bar.len() {
            Some(at as usize)
        } else {
            None
        }
    }
}

/// However tabs were dragged, rebuilding brings the terminals into the tabs'
/// order: after `n` tabs the first `n` terminals are theirs, and none is lost.
pub proof fn rearranging_restores_the_order(stack: Seq<i64>, order: Seq<i64>, n: int)
    requires
        rearranges(stack, order),
        0 <= n <= order.len(),
    ensures
        rearranges(arranged(stack, order, n), order),
        forall|i: int| 0 <= i < n ==> #[trigger] arranged(stack, order, n)[i] == order[i],
        n == order.len() ==> arranged(stack, order, n) == order,
    decreases n,
{
    if n > 0 {
        rearranging_restores_the_order(stack, order, n - 1);
        let rest = arranged(stack, order, n - 1);
        found_later(rest, order, n - 1);
        let at = choose|i: int| n - 1 <= i < rest.len() && #[trigger] rest[i] == order[n - 1];
        first_from_is(rest, order[n - 1], n - 1, at);
        if at != n - 1 {
            move_facts(rest, at, n - 1);
            let all = moved(rest, at, n - 1);
            assert forall|i: int| 0 <= i < all.len() implies order.contains(#[trigger] all[i]) by {
                assert(all.contains(all[i]));
                let o = choose|o: int| 0 <= o < rest.len() && rest[o] == all[i];
                assert(order.contains(rest[o]));
            }
        }
    }
    if n == order.len() {
        assert(arranged(stack, order, n) =~= order);
    }
}

// ---------------------------------------------------------------------------
// Docks and panels
// ---------------------------------------------------------------------------

/// Terminals in docks, and how many were counted since there were none.
pub struct TerminalPanel {
    pub terminals: Vec<i64>,
    pub count: u32,
}

/// What toggling the bottom panel does.
#[derive(Clone, Copy, Debug, PartialEq, Eq, Structural)]
pub enum ToggleStep {
    Nothing,
    /// Hide it, and return focus to where it was if that is still there.
    Hide { refocus: bool },
    /// Show it and focus its active terminal.
    Show,
}

/// What becomes of the file watcher.
#[derive(Clone, Copy, Debug, PartialEq, Eq, Structural)]
pub enum SyncChange {
    Keep,
    Start,
    Stop,
}

/// Where a docked terminal's title goes.
#[derive(Clone, Copy, Debug, PartialEq, Eq, Structural)]
pub enum TitleTarget {
    Nowhere,
    /// The tab container this many parents up.
    Dock(usize),
    Window,
}

/// A count in decimal digits.
fn decimal_text(n: u32) -> (text: String)
    ensures
        text@ == crate::text::decimal(n as int),
    decreases n,
{
    let mut text = if n < 10 {
        String::new()
    } else {
        decimal_text(n / 10)
    };
    let digit = match n % 10 {
        0 => "0",
        1 => "1",
        2 => "2",
        3 => "3",
        4 => "4",
        5 => "5",
        6 => "6",
        7 => "7",
        8 => "8",
        _ => "9",
    };
    proof {
        reveal_strlit("0");
        reveal_strlit("1");
        reveal_strlit("2");
        reveal_strlit("3");
        reveal_strlit("4");
        reveal_strlit("5");
        reveal_strlit("6");
        reveal_strlit("7");
        reveal_strlit("8");
        reveal_strlit("9");
        assert(digit@ == seq![(('0' as int) + n % 10) as char]);
    }
    let ghost head = text@;
    text.append(digit);
    assert(text@ == head.push((('0' as int) + n % 10) as char));
    text
}

/// The title of the `count`-th terminal: the first goes without number.
pub open spec fn numbered(title: Seq<char>, count: int) -> Seq<char> {
    if count == 1 {
        title
    } else {
        title + " ("@ + crate::text::decimal(count) + ")"@
    }
}

impl TerminalPanel {
    pub fn new() -> (p: TerminalPanel)
        ensures
            p.terminals@.len() == 0,
            p.count == 0,
    {
        TerminalPanel { terminals: Vec::new(), count: 0 }
    }

    /// A new terminal in a dock. Counting restarts when none is left. Tells its
    /// title.
    pub fn new_dock_terminal(&mut self, id: i64, title: &str) -> (name: String)
        requires
            old(self).terminals@.len() > 0 ==> old(self).count < u32::MAX,
        ensures
            final(self).terminals@ == old(self).terminals@.push(id),
            final(self).count == (if old(self).terminals@.len() == 0 { 1 } else { old(self).count + 1 }),
            name@ == numbered(title@, final(self).count as int),
    {
        if self.terminals.len() == 0 {
            self.count = 0;
        }
        self.count = self.count + 1;
        let mut name = title.to_owned();
        if self.count != 1 {
            name.append(" (");
            let number = decimal_text(self.count);
            name.append(number.as_str());
            name.append(")");
        }
        self.terminals.push(id);
        name
    }

    /// A docked terminal's process ended: it is no longer one of ours.
    pub fn on_exited(&mut self, id: i64)
        ensures
            final(self).terminals@ == old(self).terminals@.filter(|t: i64| t != id),
            final(self).count == old(self).count,
    {
        let ghost keep = |t: i64| t != id;
        let ghost all = self.terminals@;
        let mut kept: Vec<i64> = Vec::new();
        let mut i: usize = 0;
        assert(all.take(0).filter(keep) == Seq::<i64>::empty()) by {
            reveal(Seq::filter);
        }
        while i < self.terminals.len()
            invariant
                i <= all.len(),
                all == self.terminals@,
                *self == *old(self),
                keep == (|t: i64| t != id),
                kept@ == all.take(i as int).filter(keep),
            decreases all.len() - i,
        {
            let t: i64 = self.terminals[i];
            proof {
                reveal(Seq::filter);
                assert(all.take(i + 1).drop_last() == all.take(i as int));
            }
            if t != id {
                kept.push(t);
            }
            i = i + 1;
        }
        assert(all.take(i as int) == all);
        self.terminals = kept;
    }
}

/// Whether a node stands below another, from the identities of its parents
/// upward.
pub fn is_descendant(parents: &Vec<i64>, ancestor: i64) -> (r: bool)
    ensures
        r == parents@.contains(ancestor),
{
    let mut i: usize = 0;
    while i < parents.len()
        invariant
            i <= parents@.len(),
            forall|k: int| 0 <= k < i ==> parents@[k] != ancestor,
        decreases parents@.len() - i,
    {
        if parents[i] == ancestor {
            return true;
        }
        i = i + 1;
    }
    false
}

/// Whether to remember a focused control as the place to return to: it is
/// outside both tab containers. Dock terminals count, they are a place you
/// work.
pub fn on_focus_changed(parents: &Vec<i64>, panel: Option<i64>, main: Option<i64>) -> (remember: bool)
    ensures
        remember == !((panel matches Some(p) && parents@.contains(p)) || (main matches Some(m) && parents@.contains(m))),
{
    if let Some(panel) = panel {
        if is_descendant(parents, panel) {
            return false;
        }
    }
    if let Some(main) = main {
        if is_descendant(parents, main) {
            return false;
        }
    }
    true
}

/// Toggle the bottom terminal panel: from inside it, hide it and return focus;
/// from anywhere else, show it and focus its active terminal. `focus` are the
/// parents of the focused control.
pub fn toggle_terminal_focus(panel: Option<i64>, focus: Option<&Vec<i64>>, last_other_valid: bool) -> (step: ToggleStep)
    ensures
        step == (match panel {
            None => ToggleStep::Nothing,
            Some(p) => match focus {
                Some(parents) if parents@.contains(p) => ToggleStep::Hide { refocus: last_other_valid },
                _ => ToggleStep::Show,
            },
        }),
{
    match panel {
        None => ToggleStep::Nothing,
        Some(p) => match focus {
            Some(parents) if is_descendant(parents, p) => ToggleStep::Hide { refocus: last_other_valid },
            _ => ToggleStep::Show,
        },
    }
}

/// Start or stop external change syncing to match the editor setting, which is
/// on by default.
pub fn update_sync(setting: Option<bool>, running: bool) -> (change: SyncChange)
    ensures
        change == ({
            let enabled = match setting {
                Some(on) => on,
                None => true,
            };
            if enabled && !running {
                SyncChange::Start
            } else if !enabled && running {
                SyncChange::Stop
            } else {
                SyncChange::Keep
            }
        }),
{
    let enabled: bool = match setting {
        Some(on) => on,
        None => true,
    };
    if enabled && !running {
        SyncChange::Start
    } else if !enabled && running {
        SyncChange::Stop
    } else {
        SyncChange::Keep
    }
}

/// Where a title goes: the nearest tab container above when docked, the window
/// when floating. `containers` tells which parents are tab containers, from
/// the nearest on; `floating` that the terminal's window is not the editor's.
pub fn on_title_changed(title: &str, containers: &Vec<bool>, floating: bool) -> (target: TitleTarget)
    ensures
        title@.len() == 0 ==> target is Nowhere,
        title@.len() > 0 && containers@.contains(true) ==> {
            &&& target is Dock
            &&& target->Dock_0 < containers@.len()
            &&& containers@[target->Dock_0 as int]
            &&& forall|k: int| 0 <= k < target->Dock_0 ==> !containers@[k]
        },
        title@.len() > 0 && !containers@.contains(true) ==> target == (if floating { TitleTarget::Window } else { TitleTarget::Nowhere }),
{
    if title.is_empty() {
        return TitleTarget::Nowhere;
    }
    let mut i: usize = 0;
    while i < containers.len()
        invariant
            i <= containers@.len(),
            title@.len() > 0,
            forall|k: int| 0 <= k < i ==> !containers@[k],
        decreases containers@.len() - i,
    {
        if containers[i] {
            assert(containers@.contains(true));
            return TitleTarget::Dock(i);
        }
        i = i + 1;
    }
    if floating {
        TitleTarget::Window
    } else {
        TitleTarget::Nowhere
    }
}

/// Whether a shortcut event toggles the panel: a fresh press of the shortcut.
pub fn shortcut_input(pressed: bool, echo: bool, matches_toggle: bool) -> (toggles: bool)
    ensures
        toggles == (pressed && !echo && matches_toggle),
{
    pressed && !echo && matches_toggle
}

// ---------------------------------------------------------------------------
// Settings
// ---------------------------------------------------------------------------

/// The numbers that name a dock slot: the slots, the closed dock before them
/// and the count of slots behind them.
pub open spec fn names_dock_slot(ord: int) -> bool {
    -1 <= ord <= 9
}

/// `DockSlot::try_from_ord`: tells whether a number is one of the enumerators
/// that the editor's API has in its version 4.7.
#[verifier::external_body]
fn is_dock_slot(ord: i32) -> (r: bool)
    ensures
        r == names_dock_slot(ord as int),
{
    DockSlot::try_from_ord(ord).is_some()
}

/// Far left top.
pub const DOCK_SLOT_DEFAULT: i32 = 0;

/// The dock slot a setting asks for; settings are taken at thirty-two bits.
pub fn dock_slot(setting: Option<i64>) -> (slot: i32)
    ensures
        slot == (match setting {
            Some(v) if names_dock_slot(v as i32 as int) => v as i32,
            _ => DOCK_SLOT_DEFAULT,
        }),
{
    match setting {
        Some(v) => {
            #[verifier::truncate]
            let ord: i32 = v as i32;
            if is_dock_slot(ord) {
                ord
            } else {
                DOCK_SLOT_DEFAULT
            }
        },
        None => DOCK_SLOT_DEFAULT,
    }
}

/// The font size a setting asks for, kept between the smallest and the largest
/// that make sense; settings are taken at thirty-two bits.
pub fn font_size(setting: i64) -> (size: i32)
    ensures
        size == (if (setting as i32) < 6 {
            6
        } else if (setting as i32) > 72 {
            72
        } else {
            setting as i32
        }),
{
    #[verifier::truncate]
    let size: i32 = setting as i32;
    if size < 6 {
        6
    } else if size > 72 {
        72
    } else {
        size
    }
}

/// The configured shell; an empty setting configures none.
pub fn configured_shell(setting: Option<String>) -> (shell: Option<String>)
    ensures
        shell == (match setting {
            Some(s) if s@.len() > 0 => Some(s),
            _ => None,
        }),
{
    match setting {
        Some(s) if !s.as_str().is_empty() => Some(s),
        _ => None,
    }
}

/// The title of a terminal before its program tells one: the shell's name, the
/// configured one before the user's.
pub fn default_title(configured: Option<String>, user: Option<String>) -> (title: String)
    ensures
        title@ == ({
            let shell = match configured {
                Some(s) => s@,
                None => match user {
                    Some(s) => s@,
                    None => seq![],
                },
            };
            if crate::text::base_name(shell).len() > 0 {
                crate::text::base_name(shell)
            } else {
                "shell"@
            }
        }),
{
    let shell: String = match configured {
        Some(s) => s,
        None => match user {
            Some(s) => s,
            None => String::new(),
        },
    };
    let name = last_component(shell.as_str());
    if name.as_str().is_empty() {
        "shell".to_owned()
    } else {
        name
    }
}

/// A setting's value.
pub enum Value {
    Text(String),
    Number(i64),
    Flag(bool),
}

impl Value {
    /// The values are of one type.
    pub open spec fn like(self, other: Value) -> bool {
        (self is Text) == (other is Text) && (self is Number) == (other is Number)
    }
}

/// What a setting holds once it is registered: an existing value of the right
/// type survives, which also migrates values from older releases.
pub fn ensure_setting(current: Option<Value>, default: Value) -> (value: Value)
    ensures
        value == (match current {
            Some(v) if v.like(default) => v,
            _ => default,
        }),
{
    match current {
        Some(v) => {
            let alike: bool = match (&v, &default) {
                (Value::Text(_), Value::Text(_)) => true,
                (Value::Number(_), Value::Number(_)) => true,
                (Value::Flag(_), Value::Flag(_)) => true,
                _ => false,
            };
            if alike {
                v
            } else {
                default
            }
        },
        None => default,
    }
}

/// How a setting is edited.
#[derive(Clone, Copy, Debug, PartialEq, Eq, Structural)]
pub enum Hint {
    Plain,
    Placeholder,
    Range,
    Choice,
}

pub struct Setting {
    pub name: &'static str,
    pub default: Value,
    pub hint: Hint,
    pub hint_text: &'static str,
}

pub const PASSTHROUGH_SETTING: &'static str = "godotty/terminal/passthrough_shortcuts";
pub const SHELL_SETTING: &'static str = "godotty/terminal/shell";
pub const FONT_SIZE_SETTING: &'static str = "godotty/terminal/font_size";
pub const COLOR_SCHEME_SETTING: &'static str = "godotty/terminal/color_scheme";
pub const LIGATURES_SETTING: &'static str = "godotty/terminal/ligatures";
pub const SYNC_SETTING: &'static str = "godotty/terminal/sync_external_changes";
pub const DOCK_SLOT_SETTING: &'static str = "godotty/terminal/default_dock_slot";
pub const DOCK_SLOT_NAMES: &'static str = "Far Left Top,Far Left Bottom,Left Top (Scene),Left Bottom (FileSystem),Right Top (Inspector),Right Bottom,Far Right Top,Far Right Bottom";
pub const TOGGLE_SHORTCUT: &'static str = "godotty/toggle_terminal_panel";
pub const INCREASE_FONT_SHORTCUT: &'static str = "godotty/increase_font_size";
pub const DECREASE_FONT_SHORTCUT: &'static str = "godotty/decrease_font_size";
pub const RESET_FONT_SHORTCUT: &'static str = "godotty/reset_font_size";

/// A setting as the editor shows it: name, default, hint.
pub open spec fn shows(s: Setting, name: Seq<char>, default: Value, hint: Hint, text: Seq<char>) -> bool {
    &&& s.name@ == name
    &&& match (s.default, default) {
        (Value::Text(a), Value::Text(b)) => a@ == b@,
        (a, b) => a == b,
    }
    &&& s.hint == hint
    &&& s.hint_text@ == text
}

/// The settings to register; registration order is display order.
pub fn settings(macos: bool) -> (list: Vec<Setting>)
    ensures
        list@.len() == 7,
        list@[0].name@ == SHELL_SETTING@ && list@[0].default is Text && list@[0].default->Text_0@.len() == 0 && list@[0].hint is Placeholder
            && list@[0].hint_text@ == "program, no arguments; empty = auto"@,
        shows(list@[1], FONT_SIZE_SETTING@, Value::Number(14), Hint::Range, "6,32,1"@),
        shows(list@[2], COLOR_SCHEME_SETTING@, Value::Number(0), Hint::Choice, "Auto,Dark,Light"@),
        shows(list@[3], LIGATURES_SETTING@, Value::Flag(true), Hint::Plain, ""@),
        shows(list@[4], DOCK_SLOT_SETTING@, Value::Number(DOCK_SLOT_DEFAULT as i64), Hint::Choice, DOCK_SLOT_NAMES@),
        list@[5].name@ == PASSTHROUGH_SETTING@ && list@[5].default is Text && list@[5].default->Text_0@ == (if macos {
            "Meta+Shift+P"@
        } else {
            "Ctrl+Shift+P"@
        }) && list@[5].hint is Plain && list@[5].hint_text@ == ""@,
        shows(list@[6], SYNC_SETTING@, Value::Flag(true), Hint::Plain, ""@),
{
    let mut list: Vec<Setting> = Vec::new();
    list.push(Setting {
        name: SHELL_SETTING,
        default: Value::Text(String::new()),
        hint: Hint::Placeholder,
        hint_text: "program, no arguments; empty = auto",
    });
    list.push(Setting { name: FONT_SIZE_SETTING, default: Value::Number(14), hint: Hint::Range, hint_text: "6,32,1" });
    list.push(Setting { name: COLOR_SCHEME_SETTING, default: Value::Number(0), hint: Hint::Choice, hint_text: "Auto,Dark,Light" });
    list.push(Setting { name: LIGATURES_SETTING, default: Value::Flag(true), hint: Hint::Plain, hint_text: "" });
    list.push(Setting {
        name: DOCK_SLOT_SETTING,
        default: Value::Number(DOCK_SLOT_DEFAULT as i64),
        hint: Hint::Choice,
        hint_text: DOCK_SLOT_NAMES,
    });
    list.push(Setting {
        name: PASSTHROUGH_SETTING,
        default: Value::Text(if macos { "Meta+Shift+P".to_owned() } else { "Ctrl+Shift+P".to_owned() }),
        hint: Hint::Plain,
        hint_text: "",
    });
    list.push(Setting { name: SYNC_SETTING, default: Value::Flag(true), hint: Hint::Plain, hint_text: "" });
    list
}

/// A shortcut's default binding.
pub struct Binding {
    pub path: &'static str,
    pub keycode: i32,
    pub ctrl: bool,
    pub meta: bool,
}

/// The shortcuts to register: the panel toggle, and the standard zoom chords,
/// which take Cmd on macOS.
pub fn shortcuts(macos: bool) -> (list: Vec<Binding>)
    ensures
        list@ == seq![
            Binding { path: TOGGLE_SHORTCUT, keycode: KEY_QUOTELEFT, ctrl: true, meta: false },
            Binding { path: INCREASE_FONT_SHORTCUT, keycode: KEY_EQUAL, ctrl: !macos, meta: macos },
            Binding { path: DECREASE_FONT_SHORTCUT, keycode: KEY_MINUS, ctrl: !macos, meta: macos },
            Binding { path: RESET_FONT_SHORTCUT, keycode: KEY_0, ctrl: !macos, meta: macos },
        ],
{
    let mut list: Vec<Binding> = Vec::new();
    list.push(Binding { path: TOGGLE_SHORTCUT, keycode: KEY_QUOTELEFT, ctrl: true, meta: false });
    list.push(Binding { path: INCREASE_FONT_SHORTCUT, keycode: KEY_EQUAL, ctrl: !macos, meta: macos });
    list.push(Binding { path: DECREASE_FONT_SHORTCUT, keycode: KEY_MINUS, ctrl: !macos, meta: macos });
    list.push(Binding { path: RESET_FONT_SHORTCUT, keycode: KEY_0, ctrl: !macos, meta: macos });
    list
}

/// A command of the editor's palette.
pub struct Command {
    pub title: &'static str,
    pub key: &'static str,
    pub method: &'static str,
}

/// The palette commands, one for each place a terminal can open in.
pub fn commands() -> (list: Vec<Command>)
    ensures
        list@ == seq![
            Command { title: "Terminal: New Terminal in Dock", key: "godotty/new_dock", method: "cmd_new_dock_terminal" },
            Command { title: "Terminal: New Terminal in Bottom Panel", key: "godotty/new_panel", method: "cmd_new_panel_terminal" },
            Command { title: "Terminal: New Terminal in Main Screen", key: "godotty/new_main", method: "cmd_new_main_terminal" },
        ],
{
    let mut list: Vec<Command> = Vec::new();
    list.push(Command { title: "Terminal: New Terminal in Dock", key: "godotty/new_dock", method: "cmd_new_dock_terminal" });
    list.push(Command {
        title: "Terminal: New Terminal in Bottom Panel",
        key: "godotty/new_panel",
        method: "cmd_new_panel_terminal",
    });
    list.push(Command { title: "Terminal: New Terminal in Main Screen", key: "godotty/new_main", method: "cmd_new_main_terminal" });
    list
}

// ---------------------------------------------------------------------------
// Exports
// ---------------------------------------------------------------------------

/// Whether one of the pieces between dots is this word.
fn has_tag(key: &str, tag: &str) -> (r: bool)
    ensures
        r == crate::text::split(key@, '.').contains(tag@),
{
    let v = chars_of(key);
    let t = chars_of(tag);
    let mut found: bool = false;
    // The piece that is being read agrees with the tag so far.
    let mut from: usize = 0;
    let mut i: usize = 0;
    assert(v@.take(0) == Seq::<char>::empty());
    assert(crate::text::split(v@.take(0), '.').last() == v@.subrange(0, 0));
    while i < v.len()
        invariant
            v@ == key@,
            t@ == tag@,
            from <= i <= v@.len(),
            crate::text::split(v@.take(i as int), '.').len() > 0,
            crate::text::split(v@.take(i as int), '.').last() == v@.subrange(from as int, i as int),
            found == crate::text::split(v@.take(i as int), '.').drop_last().contains(t@),
        decreases v@.len() - i,
    {
        let ghost pieces = crate::text::split(v@.take(i as int), '.');
        let ghost next = crate::text::split(v@.take(i + 1), '.');
        proof {
            assert(v@.take(i + 1).drop_last() == v@.take(i as int));
            assert(v@.take(i + 1).last() == v@[i as int]);
        }
        if v[i] == '.' {
            let same = range_is(&v, from, i, &t);
            proof {
                assert(next.drop_last() == pieces);
                contains_split(pieces, t@);
            }
            found = found || same;
            from = i + 1;
            assert(next.last() == v@.subrange(from as int, i + 1));
        } else {
            assert(next.drop_last() == pieces.drop_last());
            assert(next.last() == v@.subrange(from as int, i + 1));
        }
        i = i + 1;
    }
    assert(v@.take(i as int) == v@);
    proof {
        contains_split(crate::text::split(v@, '.'), t@);
    }
    let same = range_is(&v, from, i, &t);
    found || same
}

/// A list holds an element at its end or before.
proof fn contains_split(list: Seq<Seq<char>>, x: Seq<char>)
    requires
        list.len() > 0,
    ensures
        list.contains(x) == (list.drop_last().contains(x) || list.last() == x),
{
    if list.contains(x) {
        let i = choose|i: int| 0 <= i < list.len() && list[i] == x;
        if i < list.len() - 1 {
            assert(list.drop_last()[i] == x);
        }
    }
    if list.drop_last().contains(x) {
        let i = choose|i: int| 0 <= i < list.drop_last().len() && list.drop_last()[i] == x;
        assert(list[i] == x);
    }
    if list.last() == x {
        assert(list[list.len() - 1] == x);
    }
}

fn range_is(v: &Vec<char>, from: usize, to: usize, t: &Vec<char>) -> (r: bool)
    requires
        from <= to <= v@.len(),
    ensures
        r == (v@.subrange(from as int, to as int) == t@),
{
    let ghost s = v@.subrange(from as int, to as int);
    if to - from != t.len() {
        return false;
    }
    let len: usize = t.len();
    let mut i: usize = 0;
    while i < len
        invariant
            i <= len,
            len == t@.len(),
            from + len == to,
            to <= v@.len(),
            s == v@.subrange(from as int, to as int),
            forall|k: int| 0 <= k < i ==> s[k] == t@[k],
        decreases len - i,
    {
        assert(s[i as int] == v@[from + i]);
        if v[from + i] != t[i] {
            return false;
        }
        i = i + 1;
    }
    assert(s == t@);
    true
}

/// Every library entry is tagged for the editor.
pub open spec fn all_editor(keys: Seq<String>) -> bool {
    forall|i: int| 0 <= i < keys.len() ==> crate::text::split((#[trigger] keys[i])@, '.').contains("editor"@)
}

/// True while every library entry is editor-tagged; removing the editor tag
/// opts the addon back into normal game exports. `keys` are the entries of the
/// libraries section, where the addon's description can be read and has one.
pub fn editor_only_libraries(keys: Option<&Vec<String>>) -> (r: bool)
    ensures
        r == (match keys {
            Some(keys) => all_editor(keys@),
            None => true,
        }),
{
    match keys {
        None => true,
        Some(list) => {
            let mut i: usize = 0;
            while i < list.len()
                invariant
                    keys == Some(list),
                    i <= list@.len(),
                    forall|k: int| 0 <= k < i ==> crate::text::split((#[trigger] list@[k])@, '.').contains("editor"@),
                decreases list@.len() - i,
            {
                if !has_tag(list[i].as_str(), "editor") {
                    return false;
                }
                i = i + 1;
            }
            true
        },
    }
}

/// Where the addon lives in a project.
pub const ADDON_DIR: &'static str = "res://addons/godotty/";

/// Whether a file is left out of an export: the addon's own files, while they
/// are for the editor only.
pub fn export_file(path: &str, keys: Option<&Vec<String>>) -> (skip: bool)
    ensures
        skip == (crate::pty::starts_with(path@, ADDON_DIR@) && (match keys {
            Some(keys) => all_editor(keys@),
            None => true,
        })),
{
    let v = chars_of(path);
    let head = chars_of(ADDON_DIR);
    if head.len() > v.len() {
        return false;
    }
    let inside = range_is(&v, 0, head.len(), &head);
    assert(v@.subrange(0, head@.len() as int) == path@.take(head@.len() as int));
    inside && editor_only_libraries(keys)
}

// ---------------------------------------------------------------------------
// What tabs and panels come to
// ---------------------------------------------------------------------------

/// A tab area is built once; its button has a plus sign where there is no icon.
pub proof fn tab_areas_are_built_once(built: bool, has_icon: bool, setup: Option<TabsSetup>)
    requires
        call_ensures(tabs_setup, (built, has_icon), setup),
    ensures
        setup is None <==> built,
        !built ==> setup->0.add_tooltip@ == "New terminal"@ && setup->0.empty_label@ == "No open terminals"@ && setup->0.new_text@
            == "New Terminal"@,
        !built && has_icon ==> setup->0.add_text is None,
        !built && !has_icon ==> setup->0.add_text is Some && setup->0.add_text->0@ == "+"@,
{
}

/// A terminal that is added gets the last tab; closing that tab frees it and
/// leaves the tabs as they were.
pub proof fn closing_undoes_adding(tabs: &mut TerminalTabs, then: &mut TerminalTabs, id: i64, last: usize, closed: Option<i64>)
    requires
        call_ensures(TerminalTabs::add_terminal, (tabs, id), last),
        call_ensures(TerminalTabs::close_tab, (then, last as i32), closed),
        *final(tabs) == *old(then),
        old(tabs).bar@ == old(tabs).stack@,
        old(tabs).bar@.len() < i32::MAX,
    ensures
        final(tabs).bar@.len() == old(tabs).bar@.len() + 1,
        final(tabs).bar@[last as int] == id && final(tabs).stack@[last as int] == id,
        closed == Some(id),
        final(then).bar@ == old(tabs).bar@ && final(then).stack@ == old(tabs).stack@,
{
    assert(final(then).bar@ =~= old(tabs).bar@);
    assert(final(then).stack@ =~= old(tabs).stack@);
}

/// Closing a tab frees its terminal; those before it stay and those behind it
/// move up. A tab that is not there closes nothing.
pub proof fn closing_moves_the_others_up(tabs: &mut TerminalTabs, tab: i32, closed: Option<i64>, i: int)
    requires
        call_ensures(TerminalTabs::close_tab, (tabs, tab), closed),
        old(tabs).bar@ == old(tabs).stack@,
        0 <= i < old(tabs).bar@.len(),
    ensures
        closed is Some <==> 0 <= tab < old(tabs).bar@.len(),
        closed is Some ==> closed->0 == old(tabs).stack@[tab as int] && final(tabs).stack@.len() == old(tabs).stack@.len() - 1,
        closed is Some && i < tab ==> final(tabs).stack@[i] == old(tabs).stack@[i],
        closed is Some && i > tab ==> final(tabs).stack@[i - 1] == old(tabs).stack@[i],
        closed is None ==> final(tabs).stack@ == old(tabs).stack@,
        final(tabs).bar@ == final(tabs).stack@,
{
}

/// However tabs are dragged, every terminal ends up behind its own tab.
pub proof fn terminals_follow_their_tabs(tabs: &mut TerminalTabs, order: Vec<i64>, moves: Vec<(usize, usize)>)
    requires
        call_ensures(TerminalTabs::on_tab_rearranged, (tabs, order), moves),
        old(tabs).stack@.no_duplicates(),
        order@.no_duplicates(),
        order@.len() == old(tabs).stack@.len(),
        forall|i: int| 0 <= i < old(tabs).stack@.len() ==> order@.contains(#[trigger] old(tabs).stack@[i]),
    ensures
        final(tabs).bar@ == order@,
        final(tabs).stack@ == order@,
        old(tabs).stack@ != order@ ==> moves@.len() > 0,
{
    rearranging_restores_the_order(old(tabs).stack@, order@, order@.len() as int);
}

proof fn arranging_loses_none(s: Seq<i64>, order: Seq<i64>, n: int)
    requires
        s.no_duplicates(),
        0 <= n <= order.len(),
    ensures
        arranged(s, order, n).len() == s.len(),
        arranged(s, order, n).no_duplicates(),
        forall|k: i64| #[trigger] arranged(s, order, n).contains(k) == s.contains(k),
        n > 0 && s.contains(order[0]) ==> arranged(s, order, n)[0] == order[0],
    decreases n,
{
    if n > 0 {
        arranging_loses_none(s, order, n - 1);
        let rest = arranged(s, order, n - 1);
        let id = order[n - 1];
        first_from_finds(rest, id, n - 1);
        match first_from(rest, id, n - 1) {
            Some(i) if i != n - 1 => {
                move_facts(rest, i, n - 1);
                let all = moved(rest, i, n - 1);
                assert forall|k: i64| #[trigger] all.contains(k) == s.contains(k) by {
                    assert(rest.contains(k) == s.contains(k));
                }
            },
            _ => {},
        }
        if n == 1 && s.contains(id) {
            let i = choose|i: int| 0 <= i < s.len() && s[i] == id;
            assert(rest == s);
            assert(rest[i] == id);
        }
    }
}

proof fn first_from_finds(s: Seq<i64>, id: i64, n: int)
    requires
        0 <= n,
    ensures
        match first_from(s, id, n) {
            Some(i) => n <= i < s.len() && s[i] == id,
            None => forall|i: int| n <= i < s.len() ==> #[trigger] s[i] != id,
        },
    decreases s.len() - n,
{
    if n < s.len() && s[n] != id {
        first_from_finds(s, id, n + 1);
    }
}

/// Rearranging loses no terminal and makes none up, whatever the tabs carry,
/// and the terminal of the first tab comes first. The moves it tells, made in
/// the stack, lead to the new order: no move where it was right already, and
/// one move brings one terminal to its place.
pub proof fn rearranging_keeps_every_terminal(tabs: &mut TerminalTabs, order: Vec<i64>, moves: Vec<(usize, usize)>, id: i64)
    requires
        call_ensures(TerminalTabs::on_tab_rearranged, (tabs, order), moves),
        old(tabs).stack@.no_duplicates(),
    ensures
        final(tabs).stack@.len() == old(tabs).stack@.len(),
        final(tabs).stack@.contains(id) == old(tabs).stack@.contains(id),
        order@.len() > 0 && old(tabs).stack@.contains(order@[0]) ==> final(tabs).stack@[0] == order@[0],
        moves@.len() == 0 ==> final(tabs).stack@ == old(tabs).stack@,
        moves@.len() == 1 ==> final(tabs).stack@[moves@[0].1 as int] == old(tabs).stack@[moves@[0].0 as int],
{
    let s = old(tabs).stack@;
    arranging_loses_none(s, order@, order@.len() as int);
    reveal_with_fuel(apply_moves, 2);
    assert(arranged(s, order@, order@.len() as int).contains(id) == s.contains(id));
    if moves@.len() == 1 {
        assert(moves@.drop_last() =~= Seq::<(usize, usize)>::empty());
        assert(moves@[0].1 < moves@[0].0 < s.len());
        move_facts(s, moves@[0].0 as int, moves@[0].1 as int);
    }
}

/// The current tab's terminal shows and takes the focus, and no other does.
pub proof fn current_terminals_show_alone(tabs: &TerminalTabs, tab: i32, visible: Vec<bool>, step: FocusStep, i: int)
    requires
        call_ensures(TerminalTabs::show_only, (tabs, tab), visible),
        call_ensures(TerminalTabs::focus_active, (tabs, tab), step),
        0 <= i < tabs.stack@.len(),
    ensures
        visible@.len() == tabs.stack@.len(),
        visible@[i] <==> i == tab,
        visible@[i] ==> step == FocusStep::Focus(i as usize),
        step is AddTerminal <==> tab < 0,
        step is Nothing <==> tab >= tabs.stack@.len(),
{
}

/// An area without tabs shows its hint, and gets a terminal when it is seen.
pub proof fn empty_areas_fill_themselves(tabs: &TerminalTabs, visible: bool, show: bool, create: bool)
    requires
        call_ensures(TerminalTabs::update_empty, (tabs,), show),
        call_ensures(TerminalTabs::autocreate, (tabs, visible), create),
    ensures
        tabs.bar@.len() == 0 ==> show && create == visible,
        tabs.bar@.len() > 0 ==> !show && !create,
{
}

/// A fresh tab area has no terminal.
pub proof fn tab_areas_start_empty(tabs: TerminalTabs, panel: TerminalPanel)
    requires
        call_ensures(TerminalTabs::new, (), tabs),
        call_ensures(TerminalPanel::new, (), panel),
    ensures
        tabs.bar@.len() == 0 && tabs.stack@.len() == 0,
        panel.terminals@.len() == 0 && panel.count == 0,
{
}

/// A title that says something goes to the tab of the terminal that told it.
pub proof fn titles_go_to_their_tab(tabs: &TerminalTabs, title: &str, at: i32, tab: Option<usize>)
    requires
        call_ensures(TerminalTabs::on_title_changed, (tabs, title, at), tab),
    ensures
        title@.len() == 0 || at < 0 || at >= tabs.bar@.len() ==> tab is None,
        title@.len() > 0 && 0 <= at < tabs.bar@.len() ==> tab is Some && tab->0 == at,
{
}

/// Docked terminals are told apart by a number from the second on, and
/// numbering starts again once none is left.
pub proof fn dock_terminals_are_numbered(panel: &mut TerminalPanel, then: &mut TerminalPanel, a: i64, b: i64, title: &str, first: String, second: String)
    requires
        call_ensures(TerminalPanel::new_dock_terminal, (panel, a, title), first),
        call_ensures(TerminalPanel::new_dock_terminal, (then, b, title), second),
        *final(panel) == *old(then),
        old(panel).terminals@.len() == 0,
    ensures
        first@ == title@,
        second@ == title@ + " ("@ + seq!['2'] + ")"@,
        final(panel).terminals@ == seq![a],
        final(then).terminals@ == seq![a, b],
{
    reveal_with_fuel(crate::text::decimal, 2);
    assert(final(panel).terminals@ =~= seq![a]);
    assert(final(then).terminals@ =~= seq![a, b]);
    assert(crate::text::decimal(2) =~= seq!['2']);
}

/// The number of a docked terminal is one above the last one's, in decimal.
pub proof fn dock_numbers_count_up(panel: &mut TerminalPanel, id: i64, title: &str, name: String)
    requires
        call_ensures(TerminalPanel::new_dock_terminal, (panel, id, title), name),
        old(panel).terminals@.len() > 0,
        1 <= old(panel).count < u32::MAX,
    ensures
        final(panel).count == old(panel).count + 1,
        name@ == title@ + " ("@ + crate::text::decimal(old(panel).count + 1) + ")"@,
        final(panel).terminals@ == old(panel).terminals@.push(id),
{
}

/// A terminal that exited is no longer listed, and the others are, in order.
pub proof fn exited_terminals_are_forgotten(panel: &mut TerminalPanel, then: &mut TerminalPanel, a: i64, other: i64, title: &str, name: String)
    requires
        call_ensures(TerminalPanel::new_dock_terminal, (panel, a, title), name),
        call_ensures(TerminalPanel::on_exited, (then, a), ()),
        *final(panel) == *old(then),
    ensures
        !final(then).terminals@.contains(a),
        other != a ==> final(then).terminals@.contains(other) == old(panel).terminals@.contains(other),
        !old(panel).terminals@.contains(a) ==> final(then).terminals@ == old(panel).terminals@,
        final(then).count == final(panel).count,
{
    let keep = |t: i64| t != a;
    let all = final(panel).terminals@;
    let before = old(panel).terminals@;
    assert(all == before.push(a));
    filtered(all, keep, a);
    filtered(all, keep, other);
    if before.contains(other) {
        let i = choose|i: int| 0 <= i < before.len() && before[i] == other;
        assert(all[i] == other);
    }
    if all.contains(other) && other != a {
        let i = choose|i: int| 0 <= i < all.len() && all[i] == other;
        assert(before[i] == other);
    }
    if !before.contains(a) {
        assert forall|i: int| 0 <= i < before.len() implies keep(#[trigger] before[i]) by {
            assert(before.contains(before[i]));
        }
        all_kept(before, keep);
        assert(all.drop_last() =~= before);
        reveal(Seq::filter);
        assert(all.filter(keep) =~= before);
    }
}

proof fn filtered(s: Seq<i64>, keep: spec_fn(i64) -> bool, x: i64)
    ensures
        s.filter(keep).contains(x) == (s.contains(x) && keep(x)),
    decreases s.len(),
{
    reveal(Seq::filter);
    if s.len() > 0 {
        filtered(s.drop_last(), keep, x);
        let rest = s.drop_last().filter(keep);
        if keep(s.last()) {
            let all = rest.push(s.last());
            if rest.contains(x) {
                let i = choose|i: int| 0 <= i < rest.len() && rest[i] == x;
                assert(all[i] == x);
            }
            assert(all[rest.len() as int] == s.last());
            if all.contains(x) {
                let i = choose|i: int| 0 <= i < all.len() && all[i] == x;
                if i < rest.len() {
                    assert(rest[i] == x);
                }
            }
        }
        if s.drop_last().contains(x) {
            let i = choose|i: int| 0 <= i < s.drop_last().len() && s.drop_last()[i] == x;
            assert(s[i] == x);
        }
        if s.contains(x) {
            let i = choose|i: int| 0 <= i < s.len() && s[i] == x;
            if i < s.len() - 1 {
                assert(s.drop_last()[i] == x);
            }
        }
        assert(s[s.len() - 1] == s.last());
    }
}

proof fn all_kept(s: Seq<i64>, keep: spec_fn(i64) -> bool)
    requires
        forall|i: int| 0 <= i < s.len() ==> keep(#[trigger] s[i]),
    ensures
        s.filter(keep) == s,
    decreases s.len(),
{
    reveal(Seq::filter);
    if s.len() > 0 {
        assert forall|i: int| 0 <= i < s.drop_last().len() implies keep(#[trigger] s.drop_last()[i]) by {
            assert(keep(s[i]));
        }
        all_kept(s.drop_last(), keep);
        assert(keep(s[s.len() - 1]));
        assert(s.drop_last().push(s.last()) =~= s);
    }
    assert(s.filter(keep) =~= s);
}

/// A node stands below each of its parents and below no other.
pub proof fn parents_stand_above(parents: &Vec<i64>, ancestor: i64, r: bool, i: int)
    requires
        call_ensures(is_descendant, (parents, ancestor), r),
    ensures
        0 <= i < parents@.len() && parents@[i] == ancestor ==> r,
        (forall|k: int| 0 <= k < parents@.len() ==> #[trigger] parents@[k] != ancestor) ==> !r,
{
}

/// A focused control is a place to return to exactly where it is inside
/// neither tab area.
pub proof fn focus_is_remembered_outside_the_tabs(parents: &Vec<i64>, panel: Option<i64>, main: Option<i64>, remember: bool, in_panel: bool, in_main: bool)
    requires
        call_ensures(on_focus_changed, (parents, panel, main), remember),
        panel is Some ==> call_ensures(is_descendant, (parents, panel->0), in_panel),
        main is Some ==> call_ensures(is_descendant, (parents, main->0), in_main),
    ensures
        remember <==> !(panel is Some && in_panel) && !(main is Some && in_main),
{
}

/// Toggling from inside the panel hides it and goes back to where the focus
/// was; from anywhere else, or from nowhere, it shows the panel. Without a
/// panel nothing happens.
pub proof fn toggling_hides_or_shows(panel: i64, parents: &Vec<i64>, other: bool, inside: bool, step: ToggleStep, unfocused: ToggleStep, missing: ToggleStep)
    requires
        call_ensures(is_descendant, (parents, panel), inside),
        call_ensures(toggle_terminal_focus, (Some(panel), Some(parents), other), step),
        call_ensures(toggle_terminal_focus, (Some(panel), None, other), unfocused),
        call_ensures(toggle_terminal_focus, (None, Some(parents), other), missing),
    ensures
        inside ==> step == (ToggleStep::Hide { refocus: other }),
        !inside ==> step is Show,
        unfocused is Show,
        missing is Nothing,
{
}

/// Syncing runs exactly while the setting asks for it, which it does where it
/// is not set.
pub proof fn syncing_follows_the_setting(setting: Option<bool>, running: bool, change: SyncChange)
    requires
        call_ensures(update_sync, (setting, running), change),
    ensures
        ({
            let after = match change {
                SyncChange::Keep => running,
                SyncChange::Start => true,
                SyncChange::Stop => false,
            };
            &&& setting is None || setting->0 ==> after
            &&& setting is Some && !setting->0 ==> !after
            &&& change !is Keep ==> after != running
        }),
{
}

/// A docked terminal's title goes to the nearest tab container above it; with
/// none it goes to the window of a floating one. Empty titles go nowhere.
pub proof fn titles_go_to_the_nearest_container(title: &str, containers: &Vec<bool>, floating: bool, target: TitleTarget, k: int)
    requires
        call_ensures(on_title_changed, (title, containers, floating), target),
    ensures
        title@.len() == 0 ==> target is Nowhere,
        target is Dock ==> target->Dock_0 < containers@.len() && containers@[target->Dock_0 as int],
        title@.len() > 0 && 0 <= k < containers@.len() && containers@[k] ==> target is Dock && target->Dock_0 <= k,
        title@.len() > 0 && !containers@.contains(true) && floating ==> target is Window,
        title@.len() > 0 && !containers@.contains(true) && !floating ==> target is Nowhere,
{
    if 0 <= k < containers@.len() && containers@[k] {
        assert(containers@.contains(true));
    }
}

/// Only a fresh press of the shortcut toggles the panel.
pub proof fn fresh_presses_toggle(pressed: bool, echo: bool, matching: bool, toggles: bool)
    requires
        call_ensures(shortcut_input, (pressed, echo, matching), toggles),
    ensures
        toggles ==> pressed && !echo && matching,
        !toggles ==> !pressed || echo || !matching,
{
}

/// Settings within reason are taken as they are; dock slots that the editor
/// does not know become the first one, and font sizes the nearest that makes
/// sense.
pub proof fn settings_are_kept_within_reason(v: i64, slot: i32, none: i32, size: i32)
    requires
        call_ensures(dock_slot, (Some(v),), slot),
        call_ensures(dock_slot, (None,), none),
        call_ensures(font_size, (v,), size),
        -0x8000_0000 <= v < 0x8000_0000,
    ensures
        -1 <= v <= 9 ==> slot == v,
        v < -1 || v > 9 ==> slot == 0,
        none == 0,
        6 <= v <= 72 ==> size == v,
        v < 6 ==> size == 6,
        v > 72 ==> size == 72,
{
}

/// Of a setting only the low thirty-two bits count.
pub proof fn settings_have_thirty_two_bits(a: i64, b: i64, slot_a: i32, slot_b: i32, size_a: i32, size_b: i32)
    requires
        call_ensures(dock_slot, (Some(a),), slot_a),
        call_ensures(dock_slot, (Some(b),), slot_b),
        call_ensures(font_size, (a,), size_a),
        call_ensures(font_size, (b,), size_b),
        (a as u64) % 0x1_0000_0000 == (b as u64) % 0x1_0000_0000,
    ensures
        slot_a == slot_b,
        size_a == size_b,
{
    assert(a as i32 == b as i32) by (bit_vector)
        requires
            (a as u64) % 0x1_0000_0000 == (b as u64) % 0x1_0000_0000,
    ;
}

/// An empty shell setting configures none, any other is the shell; and a
/// terminal goes by the name at the end of the configured shell's path, else
/// of the user's, else by `shell`.
pub proof fn shells_give_the_title(setting: Option<String>, shell: Option<String>, configured: Option<String>, user: Option<String>, title: String, path: &str, name: String)
    requires
        call_ensures(configured_shell, (setting,), shell),
        call_ensures(default_title, (configured, user), title),
        call_ensures(last_component, (path,), name),
    ensures
        setting is None || setting->0@.len() == 0 ==> shell is None,
        setting is Some && setting->0@.len() > 0 ==> shell == setting,
        configured is Some && configured->0@ == path@ && name@.len() > 0 ==> title@ == name@,
        configured is None && user is Some && user->0@ == path@ && name@.len() > 0 ==> title@ == name@,
        configured is Some && configured->0@ == path@ && name@.len() == 0 ==> title@ == "shell"@,
        configured is None && user is Some && user->0@ == path@ && name@.len() == 0 ==> title@ == "shell"@,
        configured is None && user is None ==> title@ == "shell"@,
{
    crate::text::empty_paths_have_no_name();
}

/// A setting always holds a value of its default's type: the one it had where
/// that is of the type, else the default.
pub proof fn settings_keep_their_type(current: Option<Value>, default: Value, value: Value)
    requires
        call_ensures(ensure_setting, (current, default), value),
    ensures
        default is Text <==> value is Text,
        default is Number <==> value is Number,
        default is Flag <==> value is Flag,
        current is None ==> value == default,
        current is Some && (current->0 is Text && default is Text || current->0 is Number && default is Number || current->0 is Flag
            && default is Flag) ==> value == current->0,
        current is Some && !(current->0 is Text && default is Text || current->0 is Number && default is Number || current->0 is Flag
            && default is Flag) ==> value == default,
{
}

/// The settings, as the editor lists them.
pub proof fn settings_are_listed(macos: bool, list: Vec<Setting>)
    requires
        call_ensures(settings, (macos,), list),
    ensures
        list@.len() == 7,
        list@[0].name@ == "godotty/terminal/shell"@ && list@[0].default is Text && list@[0].default->Text_0@.len() == 0 && list@[0].hint is Placeholder,
        list@[0].hint_text@ == "program, no arguments; empty = auto"@,
        list@[1].name@ == "godotty/terminal/font_size"@ && list@[1].default == Value::Number(14) && list@[1].hint is Range
            && list@[1].hint_text@ == "6,32,1"@,
        list@[2].name@ == "godotty/terminal/color_scheme"@ && list@[2].default == Value::Number(0) && list@[2].hint is Choice
            && list@[2].hint_text@ == "Auto,Dark,Light"@,
        list@[3].name@ == "godotty/terminal/ligatures"@ && list@[3].default == Value::Flag(true) && list@[3].hint is Plain
            && list@[3].hint_text@ == ""@,
        list@[4].name@ == "godotty/terminal/default_dock_slot"@ && list@[4].default == Value::Number(0) && list@[4].hint is Choice,
        list@[4].hint_text@
            == "Far Left Top,Far Left Bottom,Left Top (Scene),Left Bottom (FileSystem),Right Top (Inspector),Right Bottom,Far Right Top,Far Right Bottom"@,
        list@[5].name@ == "godotty/terminal/passthrough_shortcuts"@ && list@[5].default is Text && list@[5].hint is Plain
            && list@[5].hint_text@ == ""@,
        macos ==> list@[5].default->Text_0@ == "Meta+Shift+P"@,
        !macos ==> list@[5].default->Text_0@ == "Ctrl+Shift+P"@,
        list@[6].name@ == "godotty/terminal/sync_external_changes"@ && list@[6].default == Value::Flag(true) && list@[6].hint is Plain
            && list@[6].hint_text@ == ""@,
{
}

/// The shortcuts: the backquote with Ctrl toggles the panel; equal sign, minus
/// and zero zoom, with Cmd on macOS and with Ctrl elsewhere.
pub proof fn shortcuts_are_bound(macos: bool, list: Vec<Binding>, i: int)
    requires
        call_ensures(shortcuts, (macos,), list),
        1 <= i < 4,
    ensures
        list@.len() == 4,
        list@[0].path@ == "godotty/toggle_terminal_panel"@ && list@[0].keycode == 96 && list@[0].ctrl && !list@[0].meta,
        list@[1].path@ == "godotty/increase_font_size"@ && list@[1].keycode == 61,
        list@[2].path@ == "godotty/decrease_font_size"@ && list@[2].keycode == 45,
        list@[3].path@ == "godotty/reset_font_size"@ && list@[3].keycode == 48,
        list@[i].meta == macos && list@[i].ctrl == !macos,
{
    assert(i == 1 || i == 2 || i == 3);
}

/// One command for each place that a terminal can open in.
pub proof fn every_place_has_a_command(list: Vec<Command>)
    requires
        call_ensures(commands, (), list),
    ensures
        list@.len() == 3,
        list@[0].title@ == "Terminal: New Terminal in Dock"@ && list@[0].key@ == "godotty/new_dock"@ && list@[0].method@
            == "cmd_new_dock_terminal"@,
        list@[1].title@ == "Terminal: New Terminal in Bottom Panel"@ && list@[1].key@ == "godotty/new_panel"@ && list@[1].method@
            == "cmd_new_panel_terminal"@,
        list@[2].title@ == "Terminal: New Terminal in Main Screen"@ && list@[2].key@ == "godotty/new_main"@ && list@[2].method@
            == "cmd_new_main_terminal"@,
{
}

/// Libraries are for the editor only as long as each of them is; with none
/// listed they are.
pub proof fn libraries_are_judged_one_by_one(list: &Vec<String>, one: &Vec<String>, all: bool, single: bool, none: bool, i: int)
    requires
        call_ensures(editor_only_libraries, (Some(list),), all),
        call_ensures(editor_only_libraries, (Some(one),), single),
        call_ensures(editor_only_libraries, (None,), none),
        0 <= i < list@.len(),
        one@ == seq![list@[i]],
    ensures
        none,
        !single ==> !all,
        !all ==> exists|k: int| 0 <= k < list@.len() && !is_editor_key((#[trigger] list@[k])@),
        single == is_editor_key(list@[i]@),
{
    editor_keys(list@[i]@);
    assert(one@[0] == list@[i]);
    if !all {
        let k = choose|k: int| 0 <= k < list@.len() && !crate::text::split((#[trigger] list@[k])@, '.').contains("editor"@);
        editor_keys(list@[k]@);
        assert(!is_editor_key(list@[k]@));
    }
}

/// The word `editor` stands in a key, with a dot or the key's end to either
/// side.
pub open spec fn is_editor_key(key: Seq<char>) -> bool {
    exists|at: int| editor_at(key, at)
}

pub open spec fn editor_at(key: Seq<char>, at: int) -> bool {
    &&& 0 <= at && at + 6 <= key.len()
    &&& key.subrange(at, at + 6) == seq!['e', 'd', 'i', 't', 'o', 'r']
    &&& at == 0 || key[at - 1] == '.'
    &&& at + 6 == key.len() || key[at + 6] == '.'
}

proof fn in_either(a: Seq<Seq<char>>, b: Seq<Seq<char>>, word: Seq<char>)
    ensures
        (a + b).contains(word) == (a.contains(word) || b.contains(word)),
{
    if a.contains(word) {
        let i = choose|i: int| 0 <= i < a.len() && a[i] == word;
        assert((a + b)[i] == word);
    }
    if b.contains(word) {
        let i = choose|i: int| 0 <= i < b.len() && b[i] == word;
        assert((a + b)[a.len() + i] == word);
    }
    if (a + b).contains(word) {
        let i = choose|i: int| 0 <= i < (a + b).len() && (a + b)[i] == word;
        if i < a.len() {
            assert(a[i] == word);
        } else {
            assert(b[i - a.len()] == word);
        }
    }
}

proof fn editor_before_or_behind(key: Seq<char>, dot: int)
    requires
        0 <= dot < key.len(),
        key[dot] == '.',
    ensures
        is_editor_key(key) == (is_editor_key(key.take(dot)) || is_editor_key(key.skip(dot + 1))),
{
    let head = key.take(dot);
    let tail = key.skip(dot + 1);
    if is_editor_key(head) {
        let at = choose|at: int| editor_at(head, at);
        assert(key.subrange(at, at + 6) =~= head.subrange(at, at + 6));
        assert(editor_at(key, at));
    }
    if is_editor_key(tail) {
        let at = choose|at: int| editor_at(tail, at);
        assert(key.subrange(dot + 1 + at, dot + 1 + at + 6) =~= tail.subrange(at, at + 6));
        assert(editor_at(key, dot + 1 + at));
    }
    if is_editor_key(key) {
        let at = choose|at: int| editor_at(key, at);
        let found = key.subrange(at, at + 6);
        if at <= dot < at + 6 {
            assert(found[dot - at] == '.');
            assert(false);
        }
        if at + 6 <= dot {
            assert(head.subrange(at, at + 6) =~= found);
            assert(editor_at(head, at));
        } else {
            assert(tail.subrange(at - dot - 1, at - dot - 1 + 6) =~= found);
            assert(editor_at(tail, at - dot - 1));
        }
    }
}

proof fn undotted_editor_keys(key: Seq<char>)
    requires
        !key.contains('.'),
    ensures
        crate::text::split(key, '.') == seq![key],
        is_editor_key(key) == (key == seq!['e', 'd', 'i', 't', 'o', 'r']),
{
    let word = seq!['e', 'd', 'i', 't', 'o', 'r'];
    assert forall|i: int| 0 <= i < key.len() implies #[trigger] key[i] != '.' by {
        if key[i] == '.' {
            assert(key.contains('.'));
        }
    }
    crate::text::one_piece(key, '.');
    if key == word {
        assert(key.subrange(0, 6) =~= word);
        assert(editor_at(key, 0));
    }
    if is_editor_key(key) {
        let at = choose|at: int| editor_at(key, at);
        assert(key =~= key.subrange(at, at + 6));
    }
}

proof fn editor_keys(key: Seq<char>)
    ensures
        crate::text::split(key, '.').contains("editor"@) == is_editor_key(key),
    decreases key.len(),
{
    let word = "editor"@;
    assert(word =~= seq!['e', 'd', 'i', 't', 'o', 'r']) by {
        reveal_strlit("editor");
    }
    if key.contains('.') {
        let dot = choose|i: int| 0 <= i < key.len() && key[i] == '.';
        let head = key.take(dot);
        let tail = key.skip(dot + 1);
        assert(key =~= head.push('.') + tail);
        crate::text::split_joins(head, tail, '.');
        editor_keys(head);
        editor_keys(tail);
        in_either(crate::text::split(head, '.'), crate::text::split(tail, '.'), word);
        editor_before_or_behind(key, dot);
    } else {
        undotted_editor_keys(key);
        if key == word {
            assert(seq![key][0] == word);
        }
    }
}

/// Of an export the addon's own files are left out, while its libraries are
/// for the editor only; every other file is kept.
pub proof fn addon_files_are_left_out(path: &str, tail: Seq<char>, keys: Option<&Vec<String>>, skip: bool, only: bool)
    requires
        call_ensures(export_file, (path, keys), skip),
        call_ensures(editor_only_libraries, (keys,), only),
    ensures
        path@ == "res://addons/godotty/"@ + tail ==> skip == only,
        skip ==> path@.len() >= 21 && path@.take(21) == "res://addons/godotty/"@,
{
    reveal_strlit("res://addons/godotty/");
    if path@ == "res://addons/godotty/"@ + tail {
        assert(path@.take(21) =~= "res://addons/godotty/"@);
    }
}

} // verus!
