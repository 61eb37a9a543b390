//! The terminal node's decisions: grid geometry, what one frame does, and what
//! input events do. Times are nanoseconds, sizes fixed-point pixels.

use vstd::prelude::*;
use vstd::string::*;

use crate::color::Rgb;
use crate::fixed::{whole, EXTENT, UNIT};
use crate::input::{MouseGeometry, MouseKey, KEY_C, KEY_V};
use crate::paint::PAD;
use crate::pty::Drained;
use crate::theme::{scheme_report, ColorScheme};

verus! {

/// Lines a wheel tick scrolls.
pub const SCROLL_LINES: i32 = 3;

pub const TITLE_POLL: u64 = 500_000_000;

/// Output is parsed every frame, but the grid is re-recorded at most this
/// often.
pub const REPAINT_MIN: u64 = 25_000_000;

/// Reflow is applied once the size has stopped changing, to avoid redrawing
/// the prompt over and over during a resize.
pub const RESIZE_SETTLE: u64 = 100_000_000;

pub const MAX_SCROLLBACK: u32 = 100_000;

// ---------------------------------------------------------------------------
// Geometry
// ---------------------------------------------------------------------------

/// Control size in fixed-point pixels.
#[derive(Clone, Copy, Debug, PartialEq, Eq, Structural)]
pub struct Size {
    pub x: i64,
    pub y: i64,
}

impl Size {
    pub open spec fn valid(self) -> bool {
        -EXTENT <= self.x <= EXTENT && -EXTENT <= self.y <= EXTENT
    }
}

/// Grid geometry derived from the font metrics and control size. Cells are
/// whole pixels.
#[derive(Clone, Copy, Debug, PartialEq, Eq, Structural)]
pub struct Geometry {
    pub cell_w: u32,
    pub cell_h: u32,
    pub ascent: i32,
    pub cols: u16,
    pub rows: u16,
    pub size: Size,
}

/// What size reports tell.
#[derive(Clone, Copy, Debug, PartialEq, Eq, Structural)]
pub struct SharedGeo {
    pub cols: u16,
    pub rows: u16,
    pub cell_w: u32,
    pub cell_h: u32,
}

/// Cells that fit between the paddings along one axis: at least one, at most
/// what the terminal can count.
pub open spec fn cells_in(extent: int, cell: int) -> int {
    let n = (extent - 2 * PAD * UNIT) / (cell * UNIT);
    if n < 1 {
        1
    } else if n > u16::MAX {
        u16::MAX as int
    } else {
        n
    }
}

fn count_cells(extent: i64, cell: u32) -> (n: u16)
    requires
        -EXTENT <= extent <= EXTENT,
        cell > 0,
    ensures
        n == cells_in(extent as int, cell as int),
        n >= 1,
{
    let inner: i64 = extent - 2 * (PAD as i64) * UNIT;
    let size: i64 = cell as i64 * UNIT;
    if inner < size {
        assert((extent - 2 * PAD * UNIT) / (cell * UNIT) < 1) by (nonlinear_arith)
            requires
                inner == extent - 2 * PAD * UNIT,
                size == cell * UNIT,
                inner < size,
                size > 0,
        ;
        return 1;
    }
    let n: i64 = inner / size;
    assert(n >= 1) by (nonlinear_arith)
        requires
            inner >= size,
            size > 0,
            n == (inner as int) / (size as int),
    ;
    if n > 65535 {
        65535
    } else {
        n as u16
    }
}

impl Geometry {
    pub open spec fn valid(self) -> bool {
        self.cell_w > 0 && self.cell_h > 0
    }

    /// The grid is the one that fits the size.
    pub open spec fn fits(self) -> bool {
        self.cols == cells_in(self.size.x as int, self.cell_w as int) && self.rows == cells_in(self.size.y as int, self.cell_h as int)
    }

    pub fn fit(&mut self, size: Size)
        requires
            old(self).valid(),
            size.valid(),
        ensures
            *final(self) == (Geometry { size, cols: final(self).cols, rows: final(self).rows, ..*old(self) }),
            final(self).fits(),
    {
        self.size = size;
        self.cols = count_cells(size.x, self.cell_w);
        self.rows = count_cells(size.y, self.cell_h);
    }

    pub fn shared(&self) -> (geo: SharedGeo)
        ensures
            geo == (SharedGeo { cols: self.cols, rows: self.rows, cell_w: self.cell_w, cell_h: self.cell_h }),
    {
        SharedGeo { cols: self.cols, rows: self.rows, cell_w: self.cell_w, cell_h: self.cell_h }
    }

    pub fn mouse(&self) -> (geo: MouseGeometry)
        ensures
            geo.screen_width == whole_px(self.size.x as int),
            geo.screen_height == whole_px(self.size.y as int),
            geo.cell_width == self.cell_w,
            geo.cell_height == self.cell_h,
            geo.padding == PAD,
    {
        MouseGeometry {
            screen_width: px_u32(self.size.x),
            screen_height: px_u32(self.size.y),
            cell_width: self.cell_w,
            cell_height: self.cell_h,
            padding: PAD as u32,
        }
    }
}

/// Whole pixels of a size, as far as thirty-two bits count.
pub open spec fn whole_px(v: int) -> int {
    let px = v / UNIT as int;
    if v < 0 {
        0
    } else if px > u32::MAX {
        u32::MAX as int
    } else {
        px
    }
}

fn px_u32(v: i64) -> (px: u32)
    ensures
        px == whole_px(v as int),
{
    let px: u64 = whole(v);
    if px > 0xffff_ffff {
        0xffff_ffff
    } else {
        px as u32
    }
}

/// The grid never outgrows the control: the cells and both paddings fit
/// wherever at least one cell does.
pub proof fn grids_fit_the_control(extent: int, cell: int)
    requires
        cell > 0,
        extent >= (cell + 2 * PAD) * UNIT,
    ensures
        (cells_in(extent, cell) * cell + 2 * PAD) * UNIT <= extent,
{
    let inner = extent - 2 * PAD * UNIT;
    let size = cell * UNIT;
    let n = inner / size;
    let k = cells_in(extent, cell);
    assert((cell + 2 * PAD) * UNIT == size + 2 * PAD * UNIT) by (nonlinear_arith)
        requires
            size == cell * UNIT,
    ;
    assert(n >= 1 && n * size <= inner) by (nonlinear_arith)
        requires
            inner >= size,
            size > 0,
            n == inner / size,
    ;
    assert(k <= n);
    assert(k * size <= n * size) by (nonlinear_arith)
        requires
            k <= n,
            size > 0,
    ;
    assert((k * cell + 2 * PAD) * UNIT == k * size + 2 * PAD * UNIT) by (nonlinear_arith)
        requires
            size == cell * UNIT,
    ;
}

// ---------------------------------------------------------------------------
// Start
// ---------------------------------------------------------------------------

/// What a terminal is started with, resolved from its node and its font.
pub struct Spawn {
    pub font_size: i32,
    pub scrollback: u32,
    pub shell: String,
    pub login: bool,
}

/// The node's own configuration.
pub struct NodeConfig {
    pub scrollback: u32,
    pub shell: String,
    pub login: bool,
}

/// Resolve the node's configuration; `scaled_font` is its font size times the
/// editor scale, rounded.
pub fn resolve_spawn(config: NodeConfig, scaled_font: i32) -> (spawn: Spawn)
    ensures
        spawn.font_size == (if scaled_font < 1 { 1 } else { scaled_font }),
        spawn.scrollback == (if config.scrollback > MAX_SCROLLBACK { MAX_SCROLLBACK } else { config.scrollback }),
        spawn.shell == config.shell,
        spawn.login == config.login,
{
    Spawn {
        font_size: if scaled_font < 1 { 1 } else { scaled_font },
        scrollback: if config.scrollback > MAX_SCROLLBACK { MAX_SCROLLBACK } else { config.scrollback },
        shell: config.shell,
        login: config.login,
    }
}

/// The outside work that starting takes, in order.
#[derive(Clone, Copy, Debug, PartialEq, Eq, Structural)]
pub enum StartStep {
    Pty,
    Vt,
    VtResize,
    Theme,
    Effects,
    Input,
    Render,
    Done,
}

/// The step after this one.
pub open spec fn start_after(step: StartStep) -> StartStep {
    match step {
        StartStep::Pty => StartStep::Vt,
        StartStep::Vt => StartStep::VtResize,
        StartStep::VtResize => StartStep::Theme,
        StartStep::Theme => StartStep::Effects,
        StartStep::Effects => StartStep::Input,
        StartStep::Input => StartStep::Render,
        StartStep::Render | StartStep::Done => StartStep::Done,
    }
}

/// What an error of a step is reported under.
pub open spec fn start_label(step: StartStep) -> Seq<char> {
    match step {
        StartStep::Pty => "pty: "@,
        StartStep::Vt => "terminal: "@,
        StartStep::VtResize => "terminal resize: "@,
        StartStep::Theme => "theme: "@,
        StartStep::Effects => "effect: "@,
        StartStep::Input => "input: "@,
        StartStep::Render => "render: "@,
        StartStep::Done => ""@,
    }
}

impl StartStep {
    pub fn next(self) -> (step: StartStep)
        ensures
            step == start_after(self),
    {
        match self {
            StartStep::Pty => StartStep::Vt,
            StartStep::Vt => StartStep::VtResize,
            StartStep::VtResize => StartStep::Theme,
            StartStep::Theme => StartStep::Effects,
            StartStep::Effects => StartStep::Input,
            StartStep::Input => StartStep::Render,
            StartStep::Render | StartStep::Done => StartStep::Done,
        }
    }

    /// The message of a failed step.
    pub fn failure(self, error: &str) -> (message: String)
        ensures
            message@ == start_label(self) + error@,
    {
        let label = match self {
            StartStep::Pty => "pty: ",
            StartStep::Vt => "terminal: ",
            StartStep::VtResize => "terminal resize: ",
            StartStep::Theme => "theme: ",
            StartStep::Effects => "effect: ",
            StartStep::Input => "input: ",
            StartStep::Render => "render: ",
            StartStep::Done => "",
        };
        let mut message = label.to_owned();
        message.append(error);
        message
    }
}

/// Decisions' state of one terminal.
pub struct State {
    pub geo: Geometry,
    pub exited: bool,
    pub eof: bool,
    pub selecting: bool,
    pub title: String,
    pub title_timer: u64,
    pub bg: Rgb,
    pub needs_paint: bool,
    pub since_repaint: u64,
    pub pending_size: Option<Size>,
    pub settle: u64,
}

/// Why a terminal cannot start.
#[derive(Clone, Copy, Debug, PartialEq, Eq, Structural)]
pub enum StartError {
    /// The font produced zero cell size.
    EmptyCell,
}

impl StartError {
    pub fn message(self) -> (text: String)
        ensures
            text@ == "font produced zero cell size"@,
    {
        "font produced zero cell size".to_owned()
    }
}

/// A fresh terminal of this geometry: the title is due and so is the first
/// recording.
pub open spec fn fresh(state: State, geo: Geometry, bg: Rgb) -> bool {
    &&& state.geo == geo
    &&& !state.exited
    &&& !state.eof
    &&& !state.selecting
    &&& state.title@.len() == 0
    &&& state.title_timer == TITLE_POLL
    &&& state.bg == bg
    &&& state.needs_paint
    &&& state.since_repaint == REPAINT_MIN
    &&& state.pending_size is None
    &&& state.settle == 0
}

/// The pty a terminal is started on.
pub struct PtyPlan {
    pub cols: u16,
    pub rows: u16,
    pub cell_w: u16,
    pub cell_h: u16,
    /// The configured shell; none takes the default one.
    pub shell: Option<String>,
    pub login: bool,
}

pub open spec fn clamp_u16(v: int) -> int {
    if v > u16::MAX {
        u16::MAX as int
    } else {
        v
    }
}

fn to_u16(v: u32) -> (r: u16)
    ensures
        r == clamp_u16(v as int),
{
    if v > 65535 {
        65535
    } else {
        v as u16
    }
}

impl State {
    pub open spec fn wf(self) -> bool {
        self.geo.valid() && self.geo.fits()
    }

    /// Decide the geometry and the pty of a new terminal. `cell_w`, `cell_h`
    /// and `ascent` are the font's metrics in whole pixels.
    pub fn new(spawn: &Spawn, bg: Rgb, size: Size, cell_w: i32, cell_h: i32, ascent: i32) -> (r: Result<(State, PtyPlan), StartError>)
        requires
            size.valid(),
        ensures
            r is Err <==> cell_w <= 0 || cell_h <= 0,
            r matches Ok((state, plan)) ==> {
                &&& state.wf()
                &&& state.geo.cell_w == cell_w
                &&& state.geo.cell_h == cell_h
                &&& state.geo.ascent == ascent
                &&& state.geo.size == size
                &&& fresh(state, state.geo, bg)
                &&& plan.cols == state.geo.cols
                &&& plan.rows == state.geo.rows
                &&& plan.cell_w == clamp_u16(cell_w as int)
                &&& plan.cell_h == clamp_u16(cell_h as int)
                &&& plan.shell == (if spawn.shell@.len() == 0 { None } else { Some(spawn.shell) })
                &&& plan.login == spawn.login
            },
    {
        if cell_w <= 0 || cell_h <= 0 {
            return Err(StartError::EmptyCell);
        }
        let mut geo = Geometry { cell_w: cell_w as u32, cell_h: cell_h as u32, ascent, cols: 0, rows: 0, size };
        geo.fit(size);
        let plan = PtyPlan {
            cols: geo.cols,
            rows: geo.rows,
            cell_w: to_u16(geo.cell_w),
            cell_h: to_u16(geo.cell_h),
            shell: if spawn.shell.as_str().is_empty() { None } else { Some(spawn.shell.clone()) },
            login: spawn.login,
        };
        let state = State {
            geo,
            exited: false,
            eof: false,
            selecting: false,
            title: String::new(),
            title_timer: TITLE_POLL,
            bg,
            needs_paint: true,
            since_repaint: REPAINT_MIN,
            pending_size: None,
            settle: 0,
        };
        Ok((state, plan))
    }
}

/// Where the shell starts.
#[derive(Clone, Copy, Debug, PartialEq, Eq, Structural)]
pub enum Cwd {
    Configured,
    Project,
    Home,
    UserProfile,
    Current,
    Dot,
}

/// What is known of the candidates.
#[derive(Clone, Copy, Debug, PartialEq, Eq, Structural)]
pub struct CwdFacts {
    /// A directory is configured, and whether it exists.
    pub configured: Option<bool>,
    pub project_exists: bool,
    pub home_set: bool,
    pub user_profile_set: bool,
    pub current_known: bool,
}

/// The configured directory if it exists, then the project root, then the
/// user's home, then wherever the editor runs. Also tells whether to warn that
/// the configured one does not exist.
pub fn resolve_cwd(facts: CwdFacts) -> (r: (Cwd, bool))
    ensures
        r.1 == (facts.configured == Some(false)),
        r.0 == (if facts.configured == Some(true) {
            Cwd::Configured
        } else if facts.project_exists {
            Cwd::Project
        } else if facts.home_set {
            Cwd::Home
        } else if facts.user_profile_set {
            Cwd::UserProfile
        } else if facts.current_known {
            Cwd::Current
        } else {
            Cwd::Dot
        }),
{
    let mut warn: bool = false;
    if let Some(is_dir) = facts.configured {
        if is_dir {
            return (Cwd::Configured, false);
        }
        warn = true;
    }
    if facts.project_exists {
        return (Cwd::Project, warn);
    }
    if facts.home_set {
        return (Cwd::Home, warn);
    }
    if facts.user_profile_set {
        return (Cwd::UserProfile, warn);
    }
    if facts.current_known {
        return (Cwd::Current, warn);
    }
    (Cwd::Dot, warn)
}

// ---------------------------------------------------------------------------
// Frames
// ---------------------------------------------------------------------------

/// What one frame brought.
pub struct FrameInput {
    pub delta: u64,
    pub visible: bool,
    /// The grid was resized at the start of this frame.
    pub resized: bool,
    /// What draining the output gave; not asked after its end.
    pub drained: Option<Drained>,
    /// The exit code, once the process has ended; not asked again after.
    pub exit: Option<u32>,
    /// The title the program set, and the foreground process's name. Both are
    /// looked at only where the title is due.
    pub osc_title: Option<String>,
    pub process_name: Option<String>,
}

/// What one frame does.
pub struct FramePlan {
    pub repaint: bool,
    /// Signals to emit.
    pub exited: Option<i64>,
    pub title: Option<String>,
}

pub open spec fn later(timer: u64, delta: u64) -> int {
    if timer + delta > u64::MAX {
        u64::MAX as int
    } else {
        timer + delta
    }
}

/// The title to show: an explicit one wins, else the foreground process name.
pub open spec fn shown_title(osc: Option<Seq<char>>, process: Option<Seq<char>>) -> Seq<char> {
    match osc {
        Some(t) if t.len() > 0 => t,
        _ => match process {
            Some(name) => name,
            None => seq![],
        },
    }
}

pub open spec fn view_of(s: Option<String>) -> Option<Seq<char>> {
    match s {
        Some(t) => Some(t@),
        None => None,
    }
}

impl State {
    /// Output is still to be drained: to its end, not to the exit, since final
    /// output may still be in flight.
    pub fn wants_output(&self) -> (r: bool)
        ensures
            r == !self.eof,
    {
        !self.eof
    }

    /// The process's exit is still to be seen.
    pub fn wants_exit(&self) -> (r: bool)
        ensures
            r == !self.exited,
    {
        !self.exited
    }

    /// The title is due after this much time.
    pub open spec fn title_due(self, delta: u64) -> bool {
        later(self.title_timer, delta) >= TITLE_POLL
    }

    /// A title is told: it is due, and it is another one than before.
    pub open spec fn title_changes(self, shown: Seq<char>, delta: u64) -> bool {
        self.title_due(delta) && shown.len() > 0 && shown != self.title@
    }

    pub fn wants_title(&self, delta: u64) -> (r: bool)
        ensures
            r == self.title_due(delta),
    {
        self.title_timer.saturating_add(delta) >= TITLE_POLL
    }

    /// Reflow only when the cell grid actually changed. Tells whether to
    /// resize the terminal and its pty.
    pub fn refit(&mut self, size: Size) -> (resized: bool)
        requires
            old(self).wf(),
            size.valid(),
        ensures
            final(self).wf(),
            *final(self) == (State { geo: final(self).geo, ..*old(self) }),
            final(self).geo == (Geometry { size, cols: final(self).geo.cols, rows: final(self).geo.rows, ..old(self).geo }),
            resized == (final(self).geo.cols != old(self).geo.cols || final(self).geo.rows != old(self).geo.rows),
    {
        let (cols, rows) = (self.geo.cols, self.geo.rows);
        self.geo.fit(size);
        self.geo.cols != cols || self.geo.rows != rows
    }

    /// Follow the control's size once it has stopped changing. Tells whether
    /// the grid was resized.
    pub fn follow_size(&mut self, size: Size, delta: u64) -> (resized: bool)
        requires
            old(self).wf(),
            size.valid(),
        ensures
            final(self).wf(),
            size == old(self).geo.size ==> !resized && *final(self) == *old(self),
            size != old(self).geo.size && old(self).pending_size != Some(size) ==> !resized && *final(self) == (State {
                pending_size: Some(size),
                settle: 0,
                ..*old(self)
            }),
            size != old(self).geo.size && old(self).pending_size == Some(size) ==> {
                let settle = later(old(self).settle, delta) as u64;
                if settle < RESIZE_SETTLE {
                    !resized && *final(self) == (State { settle, ..*old(self) })
                } else {
                    &&& *final(self) == (State { settle, pending_size: None, geo: final(self).geo, ..*old(self) })
                    &&& final(self).geo == (Geometry { size, cols: final(self).geo.cols, rows: final(self).geo.rows, ..old(self).geo })
                    &&& resized == (final(self).geo.cols != old(self).geo.cols || final(self).geo.rows != old(self).geo.rows)
                }
            },
    {
        if size == self.geo.size {
            return false;
        }
        let pending: bool = match self.pending_size {
            Some(pending) => pending == size,
            None => false,
        };
        if pending {
            self.settle = self.settle.saturating_add(delta);
            if self.settle >= RESIZE_SETTLE {
                self.pending_size = None;
                return self.refit(size);
            }
        } else {
            self.pending_size = Some(size);
            self.settle = 0;
        }
        false
    }

    /// Polled title: tells the title where it changed.
    pub fn poll_title(&mut self, delta: u64, osc: Option<String>, process: Option<String>) -> (changed: Option<String>)
        requires
            old(self).wf(),
        ensures
            final(self).wf(),
            ({
                let shown = shown_title(view_of(osc), view_of(process));
                let new = old(self).title_changes(shown, delta);
                &&& changed is Some <==> new
                &&& changed matches Some(t) ==> t@ == shown
                &&& final(self).title@ == (if new { shown } else { old(self).title@ })
            }),
            *final(self) == (State {
                title_timer: if old(self).title_due(delta) { 0 } else { later(old(self).title_timer, delta) as u64 },
                title: final(self).title,
                ..*old(self)
            }),
    {
        self.title_timer = self.title_timer.saturating_add(delta);
        if self.title_timer < TITLE_POLL {
            return None;
        }
        self.title_timer = 0;
        let explicit: Option<String> = match osc {
            Some(t) if !t.as_str().is_empty() => Some(t),
            _ => None,
        };
        let title: String = match explicit {
            Some(t) => t,
            None => match process {
                Some(name) => name,
                None => String::new(),
            },
        };
        assert(title@ == shown_title(view_of(osc), view_of(process)));
        if title.as_str().is_empty() || title == self.title {
            return None;
        }
        self.title = title.clone();
        Some(title)
    }

    /// Something changed that the grid does not show yet.
    pub open spec fn is_dirty(self, input: FrameInput) -> bool {
        ||| self.needs_paint
        ||| input.resized
        ||| (!self.eof && input.drained == Some(Drained::Data))
        ||| (!self.exited && input.exit is Some)
    }

    /// The grid is re-recorded: something changed, it can be seen, and the last
    /// recording is long enough ago.
    pub open spec fn repaint_due(self, input: FrameInput) -> bool {
        self.is_dirty(input) && input.visible && later(self.since_repaint, input.delta) >= REPAINT_MIN
    }

    /// One frame: note what the pty brought, poll the title, and decide
    /// whether to record the grid. Hidden terminals keep draining but skip the
    /// recording; that it is owed is remembered for the first visible frame.
    pub fn process(&mut self, input: FrameInput) -> (plan: FramePlan)
        requires
            old(self).wf(),
        ensures
            final(self).wf(),
            plan.repaint == old(self).repaint_due(input),
            plan.exited == (match input.exit {
                Some(code) if !old(self).exited => Some(code as i64),
                _ => None,
            }),
            ({
                let shown = shown_title(view_of(input.osc_title), view_of(input.process_name));
                let new = old(self).title_changes(shown, input.delta);
                &&& plan.title is Some <==> new
                &&& plan.title matches Some(t) ==> t@ == shown
                &&& final(self).title@ == (if new { shown } else { old(self).title@ })
            }),
            *final(self) == (State {
                eof: old(self).eof || input.drained == Some(Drained::Eof),
                exited: old(self).exited || input.exit is Some,
                needs_paint: old(self).is_dirty(input) && !old(self).repaint_due(input),
                since_repaint: if old(self).repaint_due(input) { 0 } else { later(old(self).since_repaint, input.delta) as u64 },
                title_timer: if old(self).title_due(input.delta) { 0 } else { later(old(self).title_timer, input.delta) as u64 },
                title: final(self).title,
                ..*old(self)
            }),
    {
        let mut dirty: bool = self.needs_paint || input.resized;
        if !self.eof {
            match input.drained {
                Some(Drained::Data) => {
                    dirty = true;
                },
                Some(Drained::Eof) => {
                    self.eof = true;
                },
                _ => {},
            }
        }
        let mut exited: Option<i64> = None;
        if !self.exited {
            if let Some(code) = input.exit {
                self.exited = true;
                dirty = true;
                exited = Some(code as i64);
            }
        }
        let title = self.poll_title(input.delta, input.osc_title, input.process_name);
        self.since_repaint = self.since_repaint.saturating_add(input.delta);
        let mut repaint: bool = false;
        if dirty {
            if input.visible && self.since_repaint >= REPAINT_MIN {
                self.since_repaint = 0;
                self.needs_paint = false;
                repaint = true;
            } else {
                self.needs_paint = true;
            }
        }
        FramePlan { repaint, exited, title }
    }

    /// After the default colors were swapped: the grid is owed a recording.
    /// Gives the report on the scheme that the program gets.
    pub fn apply_theme(&mut self, from: ColorScheme, to: ColorScheme, reports: bool) -> (report: Vec<u8>)
        ensures
            *final(self) == (State { needs_paint: true, ..*old(self) }),
            report@ == crate::theme::report_bytes(from, to, reports),
    {
        self.needs_paint = true;
        scheme_report(from, to, reports)
    }

    /// After a recording: its background is the one drawn behind the grid. A
    /// failed recording is owed again. Tells whether to redraw the background.
    pub fn painted(&mut self, bg: Option<Rgb>, ok: bool) -> (redraw: bool)
        ensures
            *final(self) == (State {
                bg: match bg {
                    Some(bg) => bg,
                    None => old(self).bg,
                },
                needs_paint: old(self).needs_paint || !ok,
                ..*old(self)
            }),
            redraw == (ok && final(self).bg != old(self).bg),
    {
        let mut changed: bool = false;
        if let Some(bg) = bg {
            changed = bg != self.bg;
            self.bg = bg;
        }
        if !ok {
            self.needs_paint = true;
        }
        ok && changed
    }

    /// Tabs were rebuilt (a dock move, a theme change) and restart from the
    /// node name, so the title is told anew on the next frame.
    pub fn retitle(&mut self)
        ensures
            final(self).title@.len() == 0,
            *final(self) == (State { title: final(self).title, title_timer: TITLE_POLL, ..*old(self) }),
    {
        self.title = String::new();
        self.title_timer = TITLE_POLL;
    }
}

/// A title is told once, however often it is polled, and told anew after tabs
/// were rebuilt.
pub proof fn titles_are_told_once(told: State, rebuilt: State, shown: Seq<char>, delta: u64)
    requires
        shown.len() > 0,
        told.title@ == shown,
        rebuilt.title@.len() == 0,
        rebuilt.title_timer == TITLE_POLL,
    ensures
        !told.title_changes(shown, delta),
        rebuilt.title_changes(shown, delta),
{
}

/// A recording that is owed stays owed until it is made, however long the
/// terminal stays hidden.
pub proof fn owed_recordings_are_kept(before: State, after: State, first: FrameInput, second: FrameInput)
    requires
        before.is_dirty(first),
        !before.repaint_due(first),
        after.needs_paint == (before.is_dirty(first) && !before.repaint_due(first)),
    ensures
        after.is_dirty(second),
        second.visible && later(after.since_repaint, second.delta) >= REPAINT_MIN ==> after.repaint_due(second),
{
}

/// The time since the last recording after some more frames without one.
pub open spec fn elapsed(deltas: Seq<u64>) -> int
    decreases deltas.len(),
{
    if deltas.len() == 0 {
        0
    } else {
        elapsed(deltas.drop_last()) + deltas.last()
    }
}

/// Recordings are at least the minimum apart: frames that add up to less
/// after one bring no other.
pub proof fn recordings_are_spaced(state: State, deltas: Seq<u64>, input: FrameInput)
    requires
        state.since_repaint == elapsed(deltas),
        elapsed(deltas) + input.delta < REPAINT_MIN,
    ensures
        !state.repaint_due(input),
        later(state.since_repaint, input.delta) == elapsed(deltas.push(input.delta)),
{
    assert(deltas.push(input.delta).drop_last() == deltas);
}

// ---------------------------------------------------------------------------
// Keys
// ---------------------------------------------------------------------------

/// A key event as far as chords go.
#[derive(Clone, Copy, Debug, PartialEq, Eq, Structural)]
pub struct Chord {
    pub keycode: i32,
    pub shift: bool,
    pub ctrl: bool,
    pub alt: bool,
    pub meta: bool,
}

/// Copy/paste chord: Cmd on macOS, Ctrl+Shift elsewhere.
pub open spec fn chord_is(macos: bool, key: Chord, which: i32) -> bool {
    key.keycode == which && (if macos { key.meta } else { key.ctrl && key.shift })
}

pub fn is_chord(macos: bool, key: Chord, which: i32) -> (r: bool)
    ensures
        r == chord_is(macos, key, which),
{
    if key.keycode != which {
        return false;
    }
    if macos {
        key.meta
    } else {
        key.ctrl && key.shift
    }
}

/// The chords a comma separated setting lists.
pub fn passthrough_chords(setting: &str) -> (list: Vec<String>)
    ensures
        crate::text::texts(list@) == crate::text::filled_pieces(crate::text::split(setting@, ',')),
{
    crate::text::entries(setting, ',')
}

/// What decides whether a chord belongs to the editor.
pub struct PassthroughFacts {
    pub in_editor: bool,
    /// Editor settings can be read.
    pub settings: bool,
    /// The chord is the shortcut that toggles the terminal panel.
    pub toggles_panel: bool,
    /// Keycodes with modifiers of the listed chords, and of this one.
    pub listed: Vec<i64>,
    pub combo: i64,
}

/// Chords that belong to the editor even while a terminal is focused: the
/// toggle shortcut always, and those the setting lists. Plain keys never do.
pub fn is_editor_passthrough(key: Chord, facts: &PassthroughFacts) -> (r: bool)
    ensures
        r == ((key.ctrl || key.alt || key.meta) && facts.in_editor && facts.settings && (facts.toggles_panel
            || facts.listed@.contains(facts.combo))),
{
    if !(key.ctrl || key.alt || key.meta) {
        return false;
    }
    if !facts.in_editor {
        return false;
    }
    if !facts.settings {
        return false;
    }
    // The toggle shortcut is always passed through, no separate listing.
    if facts.toggles_panel {
        return true;
    }
    let mut i: usize = 0;
    while i < facts.listed.len()
        invariant
            i <= facts.listed@.len(),
            (key.ctrl || key.alt || key.meta) && facts.in_editor && facts.settings,
            forall|k: int| 0 <= k < i ==> facts.listed@[k] != facts.combo,
        decreases facts.listed@.len() - i,
    {
        if facts.listed[i] == facts.combo {
            assert(facts.listed@.contains(facts.combo));
            return true;
        }
        i = i + 1;
    }
    false
}

/// What a key event does.
#[derive(Clone, Copy, Debug, PartialEq, Eq, Structural)]
pub enum KeyOutcome {
    /// Left to the editor.
    Pass,
    /// Copy the selection; the event is consumed.
    Copy,
    /// Paste the clipboard; the event is consumed.
    Paste,
    /// A paste chord on an exited terminal; consumed without effect.
    Swallow,
    /// Encode the key and send it; the event is consumed.
    Encode,
}

/// What a key event does on a terminal that is or is not running.
pub open spec fn key_outcome(macos: bool, key: Chord, pressed: bool, passthrough: bool, exited: bool) -> KeyOutcome {
    if passthrough {
        KeyOutcome::Pass
    } else if pressed && chord_is(macos, key, KEY_C) {
        KeyOutcome::Copy
    } else if pressed && chord_is(macos, key, KEY_V) {
        if exited { KeyOutcome::Swallow } else { KeyOutcome::Paste }
    } else if exited {
        KeyOutcome::Pass
    } else {
        KeyOutcome::Encode
    }
}

impl State {
    pub fn handle_key(&mut self, macos: bool, key: Chord, pressed: bool, passthrough: bool) -> (outcome: KeyOutcome)
        ensures
            outcome == key_outcome(macos, key, pressed, passthrough, old(self).exited),
            *final(self) == (State { needs_paint: old(self).needs_paint || outcome is Paste, ..*old(self) }),
    {
        if passthrough {
            return KeyOutcome::Pass;
        }
        if pressed {
            if is_chord(macos, key, KEY_C) {
                return KeyOutcome::Copy;
            }
            if is_chord(macos, key, KEY_V) {
                if self.exited {
                    return KeyOutcome::Swallow;
                }
                self.needs_paint = true;
                return KeyOutcome::Paste;
            }
        }
        if self.exited {
            KeyOutcome::Pass
        } else {
            KeyOutcome::Encode
        }
    }

    /// After encoding: keys that send bytes also drop the selection and return
    /// to the bottom. Tells whether they do.
    pub fn key_sent(&mut self, bytes: usize) -> (sends: bool)
        ensures
            sends == (bytes > 0),
            *final(self) == (State { needs_paint: old(self).needs_paint || sends, ..*old(self) }),
    {
        if bytes > 0 {
            self.needs_paint = true;
            true
        } else {
            false
        }
    }
}

/// Copying works on exited terminals too; everything else that is not the
/// editor's reaches only a running process.
pub proof fn exited_terminals_only_copy(macos: bool, key: Chord, pressed: bool, passthrough: bool)
    ensures
        ({
            let outcome = key_outcome(macos, key, pressed, passthrough, true);
            !(outcome is Encode) && !(outcome is Paste)
        }),
        !passthrough && pressed && chord_is(macos, key, KEY_C) ==> key_outcome(macos, key, pressed, passthrough, true) is Copy,
{
}

// ---------------------------------------------------------------------------
// Mouse
// ---------------------------------------------------------------------------

pub const BUTTON_LEFT: i32 = 1;
pub const BUTTON_RIGHT: i32 = 2;
pub const BUTTON_MIDDLE: i32 = 3;
pub const BUTTON_WHEEL_UP: i32 = 4;
pub const BUTTON_WHEEL_DOWN: i32 = 5;

/// What a mouse button event does.
#[derive(Clone, Copy, Debug, PartialEq, Eq, Structural)]
pub enum ButtonOutcome {
    /// Left to the editor.
    Pass,
    /// Consumed without effect.
    Swallow,
    /// Send a wheel tick to the program.
    SendScroll { up: bool },
    /// Scroll the viewport by lines, up being negative.
    Scroll { lines: i32 },
    /// Finish the selection and copy it to the primary clipboard.
    FinishSelection,
    /// Start a selection.
    StartSelection,
    /// Send a button to the program.
    SendButton { button: MouseKey, pressed: bool },
}

/// Mouse events go to the program: it runs, asked for them, and shift does not
/// bypass it so that text stays selectable.
pub open spec fn is_tracking(exited: bool, mode: bool, shift: bool) -> bool {
    !exited && mode && !shift
}

/// What a button event does. A selection in progress always completes on
/// release, even if shift was let go first. Exited terminals keep selection
/// and scrollback, nothing else.
pub open spec fn button_outcome(index: i32, pressed: bool, tracking: bool, selecting: bool) -> ButtonOutcome {
    if index == BUTTON_WHEEL_UP || index == BUTTON_WHEEL_DOWN {
        let up = index == BUTTON_WHEEL_UP;
        if !pressed {
            ButtonOutcome::Pass
        } else if tracking {
            ButtonOutcome::SendScroll { up }
        } else {
            ButtonOutcome::Scroll { lines: (if up { -SCROLL_LINES } else { SCROLL_LINES as int }) as i32 }
        }
    } else if index == BUTTON_LEFT {
        if !pressed && selecting {
            ButtonOutcome::FinishSelection
        } else if tracking {
            ButtonOutcome::SendButton { button: MouseKey::Left, pressed }
        } else if pressed {
            ButtonOutcome::StartSelection
        } else {
            ButtonOutcome::Swallow
        }
    } else if index == BUTTON_MIDDLE && tracking {
        ButtonOutcome::SendButton { button: MouseKey::Middle, pressed }
    } else if index == BUTTON_RIGHT && tracking {
        ButtonOutcome::SendButton { button: MouseKey::Right, pressed }
    } else {
        ButtonOutcome::Pass
    }
}

/// A button event: what it does and whether it focuses the terminal. It is
/// consumed unless passed.
#[derive(Clone, Copy, Debug, PartialEq, Eq, Structural)]
pub struct ButtonPlan {
    pub grab_focus: bool,
    pub outcome: ButtonOutcome,
}

/// What a motion event does.
#[derive(Clone, Copy, Debug, PartialEq, Eq, Structural)]
pub enum MotionOutcome {
    Ignore,
    /// Extend the selection, as a rectangle or along the text.
    Drag { rectangle: bool },
    /// Send the motion to the program with the button held.
    SendMotion { held: Option<MouseKey> },
}

pub open spec fn bit(mask: u64, value: u64) -> bool {
    mask / value % 2 == 1
}

/// The button that a motion is reported with: left before right before
/// middle.
pub open spec fn held_button(mask: u64) -> Option<MouseKey> {
    if bit(mask, 1) {
        Some(MouseKey::Left)
    } else if bit(mask, 2) {
        Some(MouseKey::Right)
    } else if bit(mask, 4) {
        Some(MouseKey::Middle)
    } else {
        None
    }
}

impl State {
    /// `mode` tells whether the program asked for mouse events.
    pub fn handle_mouse_button(&mut self, index: i32, pressed: bool, shift: bool, mode: bool) -> (plan: ButtonPlan)
        ensures
            plan.grab_focus == (index == BUTTON_LEFT && pressed),
            plan.outcome == button_outcome(index, pressed, is_tracking(old(self).exited, mode, shift), old(self).selecting),
            *final(self) == (State {
                selecting: if plan.outcome is FinishSelection {
                    false
                } else {
                    old(self).selecting || plan.outcome is StartSelection
                },
                needs_paint: old(self).needs_paint || plan.outcome !is Pass,
                ..*old(self)
            }),
    {
        let grab_focus: bool = index == BUTTON_LEFT && pressed;
        let tracking: bool = !self.exited && mode && !shift;
        let wheel_up: bool = index == BUTTON_WHEEL_UP;
        let outcome: ButtonOutcome = if wheel_up || index == BUTTON_WHEEL_DOWN {
            if !pressed {
                ButtonOutcome::Pass
            } else if tracking {
                ButtonOutcome::SendScroll { up: wheel_up }
            } else {
                ButtonOutcome::Scroll { lines: if wheel_up { -SCROLL_LINES } else { SCROLL_LINES } }
            }
        } else if index == BUTTON_LEFT {
            if !pressed && self.selecting {
                self.selecting = false;
                ButtonOutcome::FinishSelection
            } else if tracking {
                ButtonOutcome::SendButton { button: MouseKey::Left, pressed }
            } else if pressed {
                self.selecting = true;
                ButtonOutcome::StartSelection
            } else {
                ButtonOutcome::Swallow
            }
        } else if index == BUTTON_MIDDLE && tracking {
            ButtonOutcome::SendButton { button: MouseKey::Middle, pressed }
        } else if index == BUTTON_RIGHT && tracking {
            ButtonOutcome::SendButton { button: MouseKey::Right, pressed }
        } else {
            ButtonOutcome::Pass
        };
        if outcome != ButtonOutcome::Pass {
            self.needs_paint = true;
        }
        ButtonPlan { grab_focus, outcome }
    }

    /// `mask` holds the buttons down; `mode` tells whether the program asked
    /// for mouse events.
    pub fn handle_mouse_motion(&mut self, mask: u64, alt: bool, mode: bool) -> (outcome: MotionOutcome)
        ensures
            outcome == (if old(self).selecting {
                MotionOutcome::Drag { rectangle: alt }
            } else if !old(self).exited && mode {
                MotionOutcome::SendMotion { held: held_button(mask) }
            } else {
                MotionOutcome::Ignore
            }),
            *final(self) == (State { needs_paint: old(self).needs_paint || old(self).selecting, ..*old(self) }),
    {
        if self.selecting {
            self.needs_paint = true;
            return MotionOutcome::Drag { rectangle: alt };
        }
        if self.exited || !mode {
            return MotionOutcome::Ignore;
        }
        let held: Option<MouseKey> = if mask % 2 == 1 {
            Some(MouseKey::Left)
        } else if mask / 2 % 2 == 1 {
            Some(MouseKey::Right)
        } else if mask / 4 % 2 == 1 {
            Some(MouseKey::Middle)
        } else {
            None
        };
        MotionOutcome::SendMotion { held }
    }
}

/// A selection that was started completes on release, whatever shift and the
/// program's mouse mode do in between.
pub proof fn selections_complete(tracking: bool)
    ensures
        button_outcome(BUTTON_LEFT, false, tracking, true) == ButtonOutcome::FinishSelection,
{
}

/// Shift, and an exited process, keep every button from the program.
pub proof fn shift_bypasses_tracking(index: i32, pressed: bool, mode: bool, shift: bool, exited: bool, selecting: bool)
    requires
        shift || exited,
    ensures
        ({
            let outcome = button_outcome(index, pressed, is_tracking(exited, mode, shift), selecting);
            outcome !is SendButton && outcome !is SendScroll
        }),
{
}

// ---------------------------------------------------------------------------
// Clipboard
// ---------------------------------------------------------------------------

/// Where a copied selection goes.
#[derive(Clone, Copy, Debug, PartialEq, Eq, Structural)]
pub enum CopyTarget {
    Nowhere,
    Clipboard,
    Primary,
}

/// Where the selection goes: to the system clipboard, or to the primary one
/// where there is one. Nothing is copied without text, or if it is not UTF-8.
pub fn copy_selection(bytes: Option<&Vec<u8>>, primary: bool, has_primary: bool) -> (target: CopyTarget)
    ensures
        target == (match bytes {
            Some(bytes) if vstd::utf8::valid_utf8(bytes@) && bytes@.len() > 0 => if !primary {
                CopyTarget::Clipboard
            } else if has_primary {
                CopyTarget::Primary
            } else {
                CopyTarget::Nowhere
            },
            _ => CopyTarget::Nowhere,
        }),
{
    match bytes {
        Some(bytes) if bytes.len() > 0 && crate::path::is_utf8(bytes.as_slice()) => {
            if !primary {
                CopyTarget::Clipboard
            } else if has_primary {
                CopyTarget::Primary
            } else {
                CopyTarget::Nowhere
            }
        },
        _ => CopyTarget::Nowhere,
    }
}

/// What encoding a paste gave.
#[derive(Clone, Copy, Debug, PartialEq, Eq, Structural)]
pub enum PasteResult {
    Written(usize),
    /// The buffer has to be this large.
    NeedsSpace(usize),
    Failed,
}

/// What to do next with a paste.
#[derive(Clone, Copy, Debug, PartialEq, Eq, Structural)]
pub enum PasteStep {
    /// Encode into a buffer of this size.
    Encode(usize),
    /// Send this much of the buffer, drop the selection and return to the
    /// bottom.
    Send(usize),
    Drop,
}

/// The buffer a paste is first encoded into; nothing is done without text.
pub fn paste_start(len: usize) -> (step: PasteStep)
    requires
        len <= isize::MAX,
    ensures
        step == (if len == 0 { PasteStep::Drop } else { PasteStep::Encode((len + 16) as usize) }),
{
    if len == 0 {
        PasteStep::Drop
    } else {
        PasteStep::Encode(len + 16)
    }
}

/// The step after an encoding: one retry with the size that it asked for.
pub fn paste_next(result: PasteResult, retried: bool) -> (step: PasteStep)
    ensures
        step == (match result {
            PasteResult::Written(n) => PasteStep::Send(n),
            PasteResult::NeedsSpace(n) if !retried => PasteStep::Encode(n),
            _ => PasteStep::Drop,
        }),
{
    match result {
        PasteResult::Written(n) => PasteStep::Send(n),
        PasteResult::NeedsSpace(n) if !retried => PasteStep::Encode(n),
        _ => PasteStep::Drop,
    }
}

// ---------------------------------------------------------------------------
// What frames and events come to
// ---------------------------------------------------------------------------

/// The grid is the largest that fits: its cells and four pixels on either side
/// lie inside the control, one more column or row would not, and there is
/// always one.
pub proof fn grids_are_the_largest_that_fit(geo: &mut Geometry, size: Size)
    requires
        call_ensures(Geometry::fit, (geo, size), ()),
        old(geo).cell_w > 0,
        old(geo).cell_h > 0,
    ensures
        final(geo).cols >= 1 && final(geo).rows >= 1,
        final(geo).cols > 1 ==> (final(geo).cols * old(geo).cell_w + 8) * UNIT <= size.x,
        final(geo).rows > 1 ==> (final(geo).rows * old(geo).cell_h + 8) * UNIT <= size.y,
        final(geo).cols < 0xffff ==> size.x < ((final(geo).cols + 1) * old(geo).cell_w + 8) * UNIT,
        final(geo).rows < 0xffff ==> size.y < ((final(geo).rows + 1) * old(geo).cell_h + 8) * UNIT,
        final(geo).size == size && final(geo).cell_w == old(geo).cell_w && final(geo).cell_h == old(geo).cell_h && final(geo).ascent
            == old(geo).ascent,
{
    largest_along(size.x as int, old(geo).cell_w as int);
    largest_along(size.y as int, old(geo).cell_h as int);
}

proof fn largest_along(extent: int, cell: int)
    requires
        cell > 0,
    ensures
        ({
            let n = cells_in(extent, cell);
            &&& 1 <= n <= 0xffff
            &&& n > 1 ==> (n * cell + 8) * UNIT <= extent
            &&& n < 0xffff ==> extent < ((n + 1) * cell + 8) * UNIT
        }),
{
    let n = cells_in(extent, cell);
    let size = cell * UNIT;
    let inner = extent - 8 * UNIT;
    let q = inner / size;
    assert(size > 0);
    assert(q * size <= inner < (q + 1) * size) by (nonlinear_arith)
        requires
            size > 0,
            q == inner / size,
    ;
    assert((n * cell + 8) * UNIT == n * size + 8 * UNIT && ((n + 1) * cell + 8) * UNIT == (n + 1) * size + 8 * UNIT) by (nonlinear_arith)
        requires
            size == cell * UNIT,
    ;
    if n > 1 {
        assert(n <= q);
        assert(n * size <= q * size) by (nonlinear_arith)
            requires
                n <= q,
                size > 0,
        ;
    }
    if n < 0xffff {
        assert(q <= n);
        assert((q + 1) * size <= (n + 1) * size) by (nonlinear_arith)
            requires
                q <= n,
                size > 0,
        ;
    }
}

/// The mouse measures with the grid's own cells and padding, on the whole
/// pixels of the control; size reports tell the same grid.
pub proof fn mouse_and_reports_share_the_grid(geo: &Geometry, mouse: MouseGeometry, shared: SharedGeo)
    requires
        call_ensures(Geometry::mouse, (geo,), mouse),
        call_ensures(Geometry::shared, (geo,), shared),
    ensures
        mouse.cell_width == geo.cell_w && mouse.cell_height == geo.cell_h && mouse.padding == 4,
        0 <= geo.size.x < 0x1_0000_0000 * UNIT ==> mouse.screen_width * UNIT <= geo.size.x < (mouse.screen_width + 1) * UNIT,
        0 <= geo.size.y < 0x1_0000_0000 * UNIT ==> mouse.screen_height * UNIT <= geo.size.y < (mouse.screen_height + 1) * UNIT,
        geo.size.x < 0 ==> mouse.screen_width == 0,
        geo.size.y < 0 ==> mouse.screen_height == 0,
        shared.cols == geo.cols && shared.rows == geo.rows && shared.cell_w == geo.cell_w && shared.cell_h == geo.cell_h,
{
}

/// Configured values are taken as they are where they make sense: a font has a
/// size, and the scrollback an end.
pub proof fn sensible_configurations_are_kept(config: NodeConfig, scaled_font: i32, spawn: Spawn)
    requires
        call_ensures(resolve_spawn, (config, scaled_font), spawn),
    ensures
        spawn.font_size >= 1 && spawn.scrollback <= 100_000,
        scaled_font >= 1 ==> spawn.font_size == scaled_font,
        config.scrollback <= 100_000 ==> spawn.scrollback == config.scrollback,
        config.scrollback > 100_000 ==> spawn.scrollback == 100_000,
        spawn.shell@ == config.shell@ && spawn.login == config.login,
{
}

/// How many steps of starting came before this one.
pub open spec fn steps_before(step: StartStep) -> int {
    match step {
        StartStep::Pty => 0,
        StartStep::Vt => 1,
        StartStep::VtResize => 2,
        StartStep::Theme => 3,
        StartStep::Effects => 4,
        StartStep::Input => 5,
        StartStep::Render => 6,
        StartStep::Done => 7,
    }
}

/// Starting takes every step once, in order, and a failure tells its error
/// behind the step's own label.
pub proof fn starts_take_every_step(step: StartStep, next: StartStep, error: &str, message: String)
    requires
        call_ensures(StartStep::next, (step,), next),
        call_ensures(StartStep::failure, (step, error), message),
    ensures
        step !is Done ==> steps_before(next) == steps_before(step) + 1,
        step is Done ==> next is Done,
        message@.len() >= error@.len(),
        message@.skip(message@.len() - error@.len()) == error@,
        step !is Done ==> message@.len() > error@.len() + 2,
{
    reveal_strlit("pty: ");
    reveal_strlit("terminal: ");
    reveal_strlit("terminal resize: ");
    reveal_strlit("theme: ");
    reveal_strlit("effect: ");
    reveal_strlit("input: ");
    reveal_strlit("render: ");
    reveal_strlit("");
    let label = start_label(step);
    assert((label + error@).skip(label.len() as int) =~= error@);
}

/// A terminal starts wherever its font has cells, on the largest grid that
/// fits, with the first recording and the title due on its first frame.
pub proof fn new_terminals_show_at_once(
    spawn: &Spawn,
    bg: Rgb,
    size: Size,
    cell_w: i32,
    cell_h: i32,
    ascent: i32,
    r: Result<(State, PtyPlan), StartError>,
    st: &mut State,
    input: FrameInput,
    plan: FramePlan,
)
    requires
        call_ensures(State::new, (spawn, bg, size, cell_w, cell_h, ascent), r),
        cell_w > 0 && cell_h > 0,
        r is Ok && r->Ok_0.0 == *old(st),
        call_ensures(State::process, (st, input), plan),
        input.visible,
    ensures
        plan.repaint,
        has_text(input.osc_title) ==> (plan.title matches Some(told) && told@ == input.osc_title->0@),
        r matches Ok((state, pty)) ==> {
            &&& pty.cols == state.geo.cols && pty.rows == state.geo.rows
            &&& state.geo.cols > 1 ==> (state.geo.cols * cell_w + 8) * UNIT <= size.x
            &&& state.geo.rows > 1 ==> (state.geo.rows * cell_h + 8) * UNIT <= size.y
            &&& state.geo.cols < 0xffff ==> size.x < ((state.geo.cols + 1) * cell_w + 8) * UNIT
            &&& state.geo.rows < 0xffff ==> size.y < ((state.geo.rows + 1) * cell_h + 8) * UNIT
            &&& state.geo.ascent == ascent && state.bg == bg
            &&& !state.exited && !state.eof && !state.selecting
            &&& cell_w <= 0xffff ==> pty.cell_w == cell_w
            &&& cell_h <= 0xffff ==> pty.cell_h == cell_h
            &&& pty.login == spawn.login
            &&& pty.shell is None <==> spawn.shell@.len() == 0
            &&& pty.shell matches Some(shell) ==> shell@ == spawn.shell@
        },
{
    largest_along(size.x as int, cell_w as int);
    largest_along(size.y as int, cell_h as int);
}

/// A font without cells starts no terminal.
pub proof fn fonts_without_cells_start_nothing(
    spawn: &Spawn,
    bg: Rgb,
    size: Size,
    cell_w: i32,
    cell_h: i32,
    ascent: i32,
    r: Result<(State, PtyPlan), StartError>,
)
    requires
        call_ensures(State::new, (spawn, bg, size, cell_w, cell_h, ascent), r),
    ensures
        r is Ok <==> cell_w >= 1 && cell_h >= 1,
{
}

/// A shell starts in the configured directory if that exists, whatever else
/// is there; else in the project, whatever else but that is there; and so on.
/// It is warned of a configured directory that does not exist, and of nothing
/// else.
pub proof fn shells_start_where_configured(facts: CwdFacts, r: (Cwd, bool))
    requires
        call_ensures(resolve_cwd, (facts,), r),
    ensures
        r.0 is Configured <==> facts.configured == Some(true),
        facts.configured != Some(true) ==> (r.0 is Project <==> facts.project_exists),
        r.0 is Home ==> facts.home_set && !facts.project_exists,
        r.0 is UserProfile ==> facts.user_profile_set && !facts.home_set && !facts.project_exists,
        r.0 is Current ==> facts.current_known && !facts.user_profile_set && !facts.home_set && !facts.project_exists,
        r.0 is Dot ==> !(facts.current_known || facts.user_profile_set || facts.home_set || facts.project_exists),
        r.1 <==> facts.configured == Some(false),
{
}

/// A control that has taken another size and kept it for a tenth of a second
/// gives the grid that size, and the grid is told as resized exactly if it has
/// other cells. Before that, nothing of the grid changes.
pub proof fn settled_sizes_are_followed(
    first: &mut State,
    then: &mut State,
    size: Size,
    delta: u64,
    waited: u64,
    early: bool,
    resized: bool,
)
    requires
        call_ensures(State::follow_size, (first, size, delta), early),
        call_ensures(State::follow_size, (then, size, waited), resized),
        *final(first) == *old(then),
        size != old(first).geo.size,
        old(first).pending_size != Some(size),
    ensures
        !early && final(first).geo == old(first).geo,
        waited >= 100_000_000 ==> final(then).geo.size == size && final(then).pending_size is None,
        waited < 100_000_000 ==> final(then).geo == old(first).geo && !resized,
        resized <==> final(then).geo.cols != old(first).geo.cols || final(then).geo.rows != old(first).geo.rows,
        final(then).needs_paint == old(first).needs_paint && final(then).title == old(first).title && final(then).exited == old(first).exited,
{
}

/// While a control keeps changing its size, the grid stays as it is; a size
/// that it has already changes nothing.
pub proof fn moving_sizes_are_waited_for(st: &mut State, size: Size, delta: u64, resized: bool)
    requires
        call_ensures(State::follow_size, (st, size, delta), resized),
    ensures
        old(st).pending_size != Some(size) ==> !resized && final(st).geo == old(st).geo,
        old(st).pending_size != Some(size) && size != old(st).geo.size ==> final(st).pending_size == Some(size) && final(st).settle == 0,
        size == old(st).geo.size ==> !resized && *final(st) == *old(st),
        old(st).pending_size == Some(size) && size != old(st).geo.size && old(st).settle + delta < 100_000_000 ==> final(st).settle
            == old(st).settle + delta && final(st).pending_size == Some(size),
{
}

/// Reflowing is told exactly if the grid has other cells than before.
pub proof fn reflows_are_told(st: &mut State, size: Size, resized: bool)
    requires
        call_ensures(State::refit, (st, size), resized),
    ensures
        final(st).geo.size == size,
        !resized ==> final(st).geo.cols == old(st).geo.cols && final(st).geo.rows == old(st).geo.rows,
        resized ==> final(st).geo.cols != old(st).geo.cols || final(st).geo.rows != old(st).geo.rows,
        final(st).needs_paint == old(st).needs_paint,
{
}

/// A frame that resized the grid, brought output or saw the exit leaves no old
/// grid standing: it is recorded in that frame or owed after it, and recorded
/// where the terminal is visible and the last recording long enough ago. So it
/// is with one that was owed before.
pub proof fn changes_are_recorded_or_owed(st: &mut State, input: FrameInput, plan: FramePlan)
    requires
        call_ensures(State::process, (st, input), plan),
        input.resized || old(st).needs_paint || (input.drained == Some(Drained::Data) && !old(st).eof) || (input.exit is Some && !old(st).exited),
    ensures
        plan.repaint || final(st).needs_paint,
        input.visible && old(st).since_repaint + input.delta >= 25_000_000 ==> plan.repaint,
{
}

/// Nothing is recorded unseen, too soon after the last recording, or without
/// anything to show; a recording settles what was owed and starts the wait for
/// the next one, and otherwise the wait goes on.
pub proof fn recordings_have_a_reason(st: &mut State, input: FrameInput, plan: FramePlan)
    requires
        call_ensures(State::process, (st, input), plan),
    ensures
        plan.repaint ==> input.visible && old(st).since_repaint + input.delta >= 25_000_000,
        plan.repaint || final(st).needs_paint ==> input.resized || old(st).needs_paint || input.drained == Some(Drained::Data)
            || input.exit is Some,
        plan.repaint ==> !final(st).needs_paint && final(st).since_repaint == 0,
        !plan.repaint && old(st).since_repaint + input.delta <= u64::MAX ==> final(st).since_repaint == old(st).since_repaint
            + input.delta,
        !plan.repaint && old(st).since_repaint + input.delta > u64::MAX ==> final(st).since_repaint == u64::MAX,
        final(st).geo == old(st).geo && final(st).selecting == old(st).selecting && final(st).bg == old(st).bg,
{
}

/// An exit is told once, with its code, in the frame that saw it, and the
/// terminal stays exited.
pub proof fn exits_are_told_once(first: &mut State, then: &mut State, a: FrameInput, b: FrameInput, plan: FramePlan, later: FramePlan)
    requires
        call_ensures(State::process, (first, a), plan),
        call_ensures(State::process, (then, b), later),
        *final(first) == *old(then),
        a.exit is Some,
    ensures
        !old(first).exited ==> plan.exited == Some(a.exit->0 as i64),
        old(first).exited ==> plan.exited is None,
        final(first).exited && final(then).exited,
        later.exited is None,
{
}

/// Without an exit nothing is told of one, and output is asked for until its
/// end, exited or not.
pub proof fn output_is_read_to_its_end(st: &mut State, input: FrameInput, plan: FramePlan, wants: bool, wants_exit: bool)
    requires
        call_ensures(State::process, (st, input), plan),
        call_ensures(State::wants_output, (&*final(st),), wants),
        call_ensures(State::wants_exit, (&*final(st),), wants_exit),
    ensures
        input.exit is None ==> plan.exited is None && final(st).exited == old(st).exited,
        !wants <==> old(st).eof || input.drained == Some(Drained::Eof),
        !wants_exit <==> old(st).exited || input.exit is Some,
{
}

/// There is a text, and it is not empty.
pub open spec fn has_text(s: Option<String>) -> bool {
    s is Some && s->0@.len() > 0
}

/// A title that is due is told if it is another one than before: the
/// program's own if it set one, else the foreground process's name. What was
/// told is remembered; an empty one never is.
pub proof fn due_titles_are_told(st: &mut State, input: FrameInput, plan: FramePlan)
    requires
        call_ensures(State::process, (st, input), plan),
    ensures
        plan.title matches Some(t) ==> t@.len() > 0 && t@ != old(st).title@ && final(st).title@ == t@,
        plan.title is None ==> final(st).title@ == old(st).title@,
        old(st).title_timer + input.delta < 500_000_000 ==> plan.title is None,
        old(st).title_timer + input.delta >= 500_000_000 ==> final(st).title_timer == 0 && {
            &&& has_text(input.osc_title) ==> (plan.title is Some <==> input.osc_title->0@ != old(st).title@)
            &&& has_text(input.osc_title) && plan.title is Some ==> plan.title->0@ == input.osc_title->0@
            &&& !has_text(input.osc_title) && input.process_name is None ==> plan.title is None
            &&& !has_text(input.osc_title) && input.process_name is Some && plan.title is Some ==> plan.title->0@
                == input.process_name->0@
            &&& !has_text(input.osc_title) && input.process_name is Some ==> (plan.title is Some
                <==> input.process_name->0@.len() > 0 && input.process_name->0@ != old(st).title@)
        },
        old(st).title_timer + input.delta < 500_000_000 ==> final(st).title_timer == old(st).title_timer + input.delta,
{
}

/// After tabs were rebuilt the next frame tells the title again.
pub proof fn rebuilt_tabs_get_their_title(st: &mut State, then: &mut State, input: FrameInput, plan: FramePlan)
    requires
        call_ensures(State::retitle, (st,), ()),
        call_ensures(State::process, (then, input), plan),
        *final(st) == *old(then),
        input.osc_title is None,
        input.process_name is Some,
        input.process_name->0@.len() > 0,
    ensures
        plan.title is Some && plan.title->0@ == input.process_name->0@,
{
}

/// A recording that failed is owed again, one that worked is not; the
/// background drawn behind the grid is the last one recorded, and is redrawn
/// exactly if it changed.
pub proof fn failed_recordings_are_owed(st: &mut State, bg: Option<Rgb>, ok: bool, redraw: bool)
    requires
        call_ensures(State::painted, (st, bg, ok), redraw),
    ensures
        !ok ==> final(st).needs_paint && !redraw,
        ok ==> final(st).needs_paint == old(st).needs_paint,
        bg matches Some(color) ==> final(st).bg == color,
        bg is None ==> final(st).bg == old(st).bg,
        ok && bg is Some ==> (redraw <==> bg->0 != old(st).bg),
        final(st).since_repaint == old(st).since_repaint && final(st).geo == old(st).geo,
{
}

/// New default colors are shown with the next recording.
pub proof fn new_themes_are_recorded(st: &mut State, then: &mut State, from: ColorScheme, to: ColorScheme, reports: bool, report: Vec<u8>, input: FrameInput, plan: FramePlan)
    requires
        call_ensures(State::apply_theme, (st, from, to, reports), report),
        call_ensures(State::process, (then, input), plan),
        *final(st) == *old(then),
    ensures
        input.visible && old(st).since_repaint + input.delta >= 25_000_000 ==> plan.repaint,
        report@.len() > 0 <==> reports && from != to,
        final(st).geo == old(st).geo && final(st).exited == old(st).exited && final(st).selecting == old(st).selecting,
{
}

/// The copy and paste chords are the letter with Cmd on macOS and with Ctrl
/// and Shift elsewhere, and no other key.
pub proof fn chords_are_the_platforms(macos: bool, key: Chord, which: i32, r: bool)
    requires
        call_ensures(is_chord, (macos, key, which), r),
    ensures
        r ==> key.keycode == which,
        macos && key.keycode == which ==> (r <==> key.meta),
        !macos && key.keycode == which ==> (r <==> key.ctrl && key.shift),
{
}

/// Copying works on any terminal and pasting on a running one; the editor's
/// own chords are left to it; any other key reaches a running program and is
/// left to the editor on an exited terminal.
pub proof fn keys_do_what_they_should(st: &mut State, macos: bool, key: Chord, pressed: bool, passthrough: bool, outcome: KeyOutcome, copies: bool, pastes: bool)
    requires
        call_ensures(State::handle_key, (st, macos, key, pressed, passthrough), outcome),
        call_ensures(is_chord, (macos, key, 67), copies),
        call_ensures(is_chord, (macos, key, 86), pastes),
    ensures
        passthrough ==> outcome is Pass,
        outcome is Copy <==> !passthrough && pressed && copies,
        outcome is Paste <==> !passthrough && pressed && pastes && !old(st).exited,
        outcome is Swallow <==> !passthrough && pressed && pastes && old(st).exited,
        outcome is Encode <==> !passthrough && !old(st).exited && !(pressed && (copies || pastes)),
        outcome is Paste ==> final(st).needs_paint,
        outcome !is Paste ==> final(st).needs_paint == old(st).needs_paint,
        final(st).exited == old(st).exited && final(st).selecting == old(st).selecting && final(st).geo == old(st).geo,
{
}

/// Keys that send bytes drop the selection, which is to be seen.
pub proof fn sent_keys_are_shown(st: &mut State, bytes: usize, sends: bool)
    requires
        call_ensures(State::key_sent, (st, bytes), sends),
    ensures
        sends <==> bytes >= 1,
        sends ==> final(st).needs_paint,
        !sends ==> *final(st) == *old(st),
{
}

/// A listed chord with a modifier is the editor's, and so is the one that
/// toggles the panel; nothing else is, and outside the editor nothing at all.
pub proof fn listed_chords_pass_through(key: Chord, facts: &PassthroughFacts, i: int, r: bool)
    requires
        call_ensures(is_editor_passthrough, (key, facts), r),
    ensures
        facts.in_editor && facts.settings && (key.ctrl || key.alt || key.meta) && 0 <= i < facts.listed@.len() && facts.listed@[i]
            == facts.combo ==> r,
        facts.in_editor && facts.settings && (key.ctrl || key.alt || key.meta) && facts.toggles_panel ==> r,
        r ==> facts.in_editor && facts.settings && (key.ctrl || key.alt || key.meta),
        r && !facts.toggles_panel ==> exists|k: int| 0 <= k < facts.listed@.len() && #[trigger] facts.listed@[k] == facts.combo,
{
}

/// Where the program asked for the mouse and neither shift nor its exit keep
/// it from it, buttons and the wheel go to the program, but for the release
/// that ends a selection.
pub proof fn programs_get_the_mouse(st: &mut State, index: i32, pressed: bool, shift: bool, mode: bool, plan: ButtonPlan)
    requires
        call_ensures(State::handle_mouse_button, (st, index, pressed, shift, mode), plan),
        mode && !shift && !old(st).exited,
    ensures
        index == 4 && pressed ==> plan.outcome == (ButtonOutcome::SendScroll { up: true }),
        index == 5 && pressed ==> plan.outcome == (ButtonOutcome::SendScroll { up: false }),
        index == 1 && (pressed || !old(st).selecting) ==> plan.outcome == (ButtonOutcome::SendButton { button: MouseKey::Left, pressed }),
        index == 2 ==> plan.outcome == (ButtonOutcome::SendButton { button: MouseKey::Right, pressed }),
        index == 3 ==> plan.outcome == (ButtonOutcome::SendButton { button: MouseKey::Middle, pressed }),
        index == 1 && pressed ==> plan.grab_focus,
{
}

/// Where the program does not get the mouse, the wheel scrolls the viewport by
/// three lines, up being negative, a press of the left button starts a
/// selection, and the other buttons are left to the editor.
pub proof fn terminals_keep_the_mouse(st: &mut State, index: i32, pressed: bool, shift: bool, mode: bool, plan: ButtonPlan)
    requires
        call_ensures(State::handle_mouse_button, (st, index, pressed, shift, mode), plan),
        !mode || shift || old(st).exited,
    ensures
        index == 4 && pressed ==> (plan.outcome matches ButtonOutcome::Scroll { lines } && lines == -3),
        index == 5 && pressed ==> (plan.outcome matches ButtonOutcome::Scroll { lines } && lines == 3),
        index == 1 && pressed ==> plan.outcome is StartSelection && final(st).selecting && plan.grab_focus,
        index == 1 && !pressed && !old(st).selecting ==> plan.outcome is Swallow,
        index != 1 && index != 4 && index != 5 ==> plan.outcome is Pass,
{
}

/// A selection lasts from the press that starts it to the next release of the
/// left button, whatever the program and shift do meanwhile; what the mouse
/// did to the terminal is recorded.
pub proof fn selections_last_from_press_to_release(st: &mut State, index: i32, pressed: bool, shift: bool, mode: bool, plan: ButtonPlan)
    requires
        call_ensures(State::handle_mouse_button, (st, index, pressed, shift, mode), plan),
    ensures
        old(st).selecting && index == 1 && !pressed ==> plan.outcome is FinishSelection && !final(st).selecting,
        old(st).selecting && !(index == 1 && !pressed) ==> final(st).selecting,
        !old(st).selecting ==> (final(st).selecting <==> plan.outcome is StartSelection),
        plan.outcome is StartSelection ==> index == 1 && pressed,
        plan.outcome is FinishSelection ==> old(st).selecting,
        plan.outcome !is Pass ==> final(st).needs_paint,
        plan.outcome is Pass ==> *final(st) == *old(st),
        plan.grab_focus ==> index == 1 && pressed,
        !pressed && (index == 4 || index == 5) ==> plan.outcome is Pass,
        final(st).exited == old(st).exited && final(st).geo == old(st).geo && final(st).title == old(st).title,
{
}

/// Motion extends a selection in progress; else it goes to a running program
/// that asked for it, with the button that is held, if one is.
pub proof fn motions_drag_or_report(st: &mut State, mask: u64, alt: bool, mode: bool, outcome: MotionOutcome)
    requires
        call_ensures(State::handle_mouse_motion, (st, mask, alt, mode), outcome),
    ensures
        old(st).selecting ==> outcome == (MotionOutcome::Drag { rectangle: alt }) && final(st).needs_paint,
        !old(st).selecting ==> *final(st) == *old(st),
        final(st).selecting == old(st).selecting,
        !old(st).selecting && (old(st).exited || !mode) ==> outcome is Ignore,
        !old(st).selecting && !old(st).exited && mode ==> outcome is SendMotion && {
            &&& mask % 2 == 1 ==> outcome->held == Some(MouseKey::Left)
            &&& mask % 4 == 2 ==> outcome->held == Some(MouseKey::Right)
            &&& mask % 8 == 4 ==> outcome->held == Some(MouseKey::Middle)
            &&& mask % 8 == 0 ==> outcome->held is None
        },
{
}

/// A selection is copied exactly if it has text: to the clipboard, or on
/// request to the primary one where there is one.
pub proof fn selected_text_is_copied(bytes: Option<&Vec<u8>>, primary: bool, has_primary: bool, target: CopyTarget)
    requires
        call_ensures(copy_selection, (bytes, primary, has_primary), target),
    ensures
        target is Clipboard ==> !primary,
        target is Primary ==> primary && has_primary,
        bytes is Some && bytes->0@.len() > 0 && vstd::utf8::valid_utf8(bytes->0@) && (!primary || has_primary) ==> target !is Nowhere,
        target !is Nowhere ==> (bytes matches Some(b) && b@.len() > 0 && vstd::utf8::valid_utf8(b@)),
{
}

/// A paste with text is encoded, into room for it and its brackets; what was
/// written is sent; one that did not fit is tried once more with the room it
/// asked for, and never a third time.
pub proof fn pastes_are_sent(len: usize, start: PasteStep, result: PasteResult, retried: bool, next: PasteStep)
    requires
        call_ensures(paste_start, (len,), start),
        len <= isize::MAX,
        call_ensures(paste_next, (result, retried), next),
    ensures
        start is Drop <==> len == 0,
        len > 0 ==> (start matches PasteStep::Encode(room) && room >= len + 12),
        result matches PasteResult::Written(n) ==> next == PasteStep::Send(n),
        !retried ==> (result matches PasteResult::NeedsSpace(n) ==> next == PasteStep::Encode(n)),
        retried || result is Failed ==> next !is Encode,
        next is Send ==> result is Written,
        result is Failed ==> next is Drop,
{
}

/// A title is asked for in the frames that may tell one, and told as a frame
/// tells it.
pub proof fn titles_are_asked_for_when_due(st: &State, polled: &mut State, whole: &mut State, input: FrameInput, plan: FramePlan, wants: bool, told: Option<String>)
    requires
        call_ensures(State::wants_title, (st, input.delta), wants),
        *old(polled) == *st,
        *old(whole) == *st,
        call_ensures(State::poll_title, (polled, input.delta, input.osc_title, input.process_name), told),
        call_ensures(State::process, (whole, input), plan),
    ensures
        wants <==> st.title_timer + input.delta >= 500_000_000,
        told is Some ==> wants,
        told is Some <==> plan.title is Some,
        told is Some ==> told->0@ == plan.title->0@,
        final(polled).title@ == final(whole).title@ && final(polled).title_timer == final(whole).title_timer,
        final(polled).needs_paint == st.needs_paint && final(polled).eof == st.eof && final(polled).exited == st.exited,
{
}

/// Chords that pass through are listed with commas: the list is what stands
/// before a comma and then what stands behind it.
pub proof fn chords_are_listed_with_commas(
    whole: &str,
    head: &str,
    tail: &str,
    all: Vec<String>,
    a: Vec<String>,
    b: Vec<String>,
    one: Vec<String>,
)
    requires
        call_ensures(passthrough_chords, (whole,), all),
        call_ensures(passthrough_chords, (head,), a),
        call_ensures(passthrough_chords, (tail,), b),
        call_ensures(crate::text::entries, (whole, ','), one),
        whole@ == head@.push(',') + tail@,
    ensures
        crate::text::texts(all@) == crate::text::texts(a@) + crate::text::texts(b@),
        crate::text::texts(all@) == crate::text::texts(one@),
{
    crate::text::split_joins(head@, tail@, ',');
    crate::text::filled_joins(crate::text::split(head@, ','), crate::text::split(tail@, ','));
}

/// A font without cells is named as the reason.
pub proof fn empty_cells_are_named(e: StartError, text: String)
    requires
        call_ensures(StartError::message, (e,), text),
    ensures
        text@ == "font produced zero cell size"@,
{
}

} // verus!
