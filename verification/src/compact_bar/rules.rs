//! The bar's state, and the rules it follows.
use crate::dict::Dict;
use crate::host::{
    opt_text, tab_views, InputMode, ModeInfo, ModeView, PaletteColor, PaneManifest, PaneView,
    TabInfo, TabView,
};
use crate::readmodel::{home_in, state_path, ReadResult};
use crate::tab_flags;
use crate::tab_flags::{PaneAgent, TabFlag};
use crate::text;
use vstd::prelude::*;

verus! {

/// How often the readmodel is polled, in tenths of a second.
pub const AGENT_POLL_TENTHS: u32 = 15;

#[derive(Clone, Copy, Debug, PartialEq, Eq, Structural)]
pub enum CopyDestination {
    Command,
    Primary,
    System,
}

/// A piece of the tab line.
#[derive(Debug)]
pub struct LinePart {
    pub part: String,
    pub len: usize,
    pub tab_index: Option<usize>,
}

pub ghost struct PartView {
    pub part: Seq<char>,
    pub len: usize,
    pub tab_index: Option<usize>,
}

impl View for LinePart {
    type V = PartView;

    open spec fn view(&self) -> PartView {
        PartView { part: self.part@, len: self.len, tab_index: self.tab_index }
    }
}

pub open spec fn part_views(v: Seq<LinePart>) -> Seq<PartView> {
    v.map_values(|p: LinePart| p@)
}

pub struct State {
    /// The agents' state directory, relative to the home directory.
    pub state_dir: String,
    pub tabs: Vec<TabInfo>,
    /// Counted from one; zero while no tab is known.
    pub active_tab_idx: usize,
    pub mode_info: ModeInfo,
    pub tab_line: Vec<LinePart>,
    pub display_area_rows: usize,
    pub display_area_cols: usize,
    pub text_copy_destination: Option<CopyDestination>,
    pub display_system_clipboard_failure: bool,
    pub config: Dict<String, String>,
    pub own_plugin_id: Option<u32>,
    pub toggle_tooltip_key: Option<String>,
    pub is_tooltip: bool,
    pub tooltip_is_active: bool,
    pub persist: bool,
    pub is_first_run: bool,
    pub own_tab_index: Option<usize>,
    pub own_client_id: u16,
    /// The key bindings, encoded; empty where none are known.
    pub cached_keybinds: Vec<u8>,
    pub agent_snapshot_host_path: Option<String>,
    pub agent_seen_events_dir: Option<String>,
    pub pane_manifest: PaneManifest,
    pub pane_agents: Dict<u32, PaneAgent>,
    pub tab_flags: Dict<usize, TabFlag>,
    pub seen_disk: Dict<String, i64>,
}

/// The state of a bar.
#[verifier::ext_equal]
pub ghost struct Bar {
    pub state_dir: Seq<char>,
    pub tabs: Seq<TabView>,
    pub active: usize,
    pub mode: ModeView,
    pub tab_line: Seq<PartView>,
    pub rows: usize,
    pub cols: usize,
    pub copied: Option<CopyDestination>,
    pub clipboard_failed: bool,
    pub config: Map<Seq<char>, Seq<char>>,
    pub plugin: Option<u32>,
    pub toggle_key: Option<Seq<char>>,
    pub is_tooltip: bool,
    pub tooltip_is_active: bool,
    pub persist: bool,
    pub is_first_run: bool,
    pub own_tab: Option<usize>,
    pub client: u16,
    pub keybinds: Seq<u8>,
    pub snapshot_path: Option<Seq<char>>,
    pub seen_dir: Option<Seq<char>>,
    pub panes: Map<usize, Seq<PaneView>>,
    pub pane_agents: Map<u32, PaneAgent>,
    pub flags: Map<usize, TabFlag>,
    pub seen: Map<Seq<char>, i64>,
}

pub open spec fn texts_of(m: Map<Seq<char>, String>) -> Map<Seq<char>, Seq<char>> {
    m.map_values(|s: String| s@)
}

impl View for State {
    type V = Bar;

    open spec fn view(&self) -> Bar {
        Bar {
            state_dir: self.state_dir@,
            tabs: tab_views(self.tabs@),
            active: self.active_tab_idx,
            mode: self.mode_info@,
            tab_line: part_views(self.tab_line@),
            rows: self.display_area_rows,
            cols: self.display_area_cols,
            copied: self.text_copy_destination,
            clipboard_failed: self.display_system_clipboard_failure,
            config: texts_of(self.config@),
            plugin: self.own_plugin_id,
            toggle_key: opt_text(self.toggle_tooltip_key),
            is_tooltip: self.is_tooltip,
            tooltip_is_active: self.tooltip_is_active,
            persist: self.persist,
            is_first_run: self.is_first_run,
            own_tab: self.own_tab_index,
            client: self.own_client_id,
            keybinds: self.cached_keybinds@,
            snapshot_path: opt_text(self.agent_snapshot_host_path),
            seen_dir: opt_text(self.agent_seen_events_dir),
            panes: self.pane_manifest@,
            pane_agents: self.pane_agents@,
            flags: self.tab_flags@,
            seen: self.seen_disk@,
        }
    }
}

/// What the bar subscribes to.
#[derive(Clone, Copy, Debug, PartialEq, Eq, Structural)]
pub enum EventType {
    ModeUpdate,
    TabUpdate,
    PaneUpdate,
    Mouse,
    CopyToClipboard,
    InputReceived,
    SystemClipboardFailure,
    InitialKeybinds,
    Timer,
    PermissionRequestResult,
}

#[derive(Clone, Copy, Debug, PartialEq, Eq, Structural)]
pub enum PermissionType {
    ReadApplicationState,
    FullHdAccess,
    ReadSessionEnvironmentVariables,
}

/// Where a floating pane is put.
#[derive(Clone, Copy, Debug, PartialEq, Eq, Structural)]
pub struct Coordinates {
    pub x: usize,
    pub y: usize,
    pub width: usize,
    pub height: usize,
    pub pinned: bool,
    pub borderless: bool,
}

pub enum Event {
    InitialKeybinds(Vec<u8>),
    ModeUpdate(ModeInfo),
    TabUpdate(Vec<TabInfo>),
    PaneUpdate(PaneManifest),
    Timer,
    /// The user has answered the permission prompt; the session's environment.
    PermissionRequestResult(Dict<String, String>),
    /// A click on the bar, and the tab it hits, counted from one.
    LeftClick(Option<usize>),
    ScrollUp,
    ScrollDown,
    CopyToClipboard(CopyDestination),
    SystemClipboardFailure,
    InputReceived,
    /// What reading the snapshot came to.
    Snapshot(ReadResult),
    /// What the directory of seen events holds.
    SeenEvents(Dict<String, i64>),
    /// The tints are to be computed, from what the directory of seen events holds
    /// now where there is one.
    Recompute(Option<Dict<String, i64>>),
    Other,
}

/// Where messages to other instances of this plugin go.
pub const OWN_URL: &'static str = "zellij:OWN_URL";

/// A message to another plugin instance.
pub struct TooltipMessage {
    pub name: String,
    /// The plugin it goes to.
    pub url: String,
    /// The configuration of an instance that is launched by it.
    pub config: Dict<String, String>,
    pub coordinates: Coordinates,
    /// The title of the pane of an instance that is launched by it.
    pub title: String,
    pub args: Dict<String, String>,
}

pub enum Action {
    Subscribe(Vec<EventType>),
    RequestPermissions(Vec<PermissionType>),
    /// Merge this into the configuration, and into the one on disk only where so
    /// said.
    Reconfigure { config: String, write_to_disk: bool },
    SetSelectable(bool),
    /// Mount this folder at `/host`.
    ChangeHostFolder(String),
    /// Read this snapshot, and report what came of it.
    ReadSnapshot(String),
    /// Read the seen events in this directory, and report them.
    ReadSeenEvents(String),
    /// Read the seen events where a directory is given, and have the tints
    /// computed.
    RecomputeTabFlags(Option<String>),
    /// Arm the timer, in tenths of a second.
    SetTimeout(u32),
    SwitchTabTo(u32),
    CloseSelf,
    PipeMessage(TooltipMessage),
    ChangeCoordinates { plugin_id: u32, coordinates: Coordinates },
    RenamePane { plugin_id: u32, title: String },
    /// Move the plugin's pane to the tab at this position, and the focus with it
    /// only where so said.
    BreakPaneToTab { plugin_id: u32, tab_index: usize, change_focus: bool },
}

pub ghost enum ActionView {
    Subscribe(Seq<EventType>),
    RequestPermissions(Seq<PermissionType>),
    Reconfigure { config: Seq<char>, write_to_disk: bool },
    SetSelectable(bool),
    ChangeHostFolder(Seq<char>),
    ReadSnapshot(Seq<char>),
    ReadSeenEvents(Seq<char>),
    RecomputeTabFlags(Option<Seq<char>>),
    SetTimeout(u32),
    SwitchTabTo(u32),
    CloseSelf,
    PipeMessage {
        name: Seq<char>,
        url: Seq<char>,
        config: Map<Seq<char>, Seq<char>>,
        coordinates: Coordinates,
        title: Seq<char>,
        args: Map<Seq<char>, Seq<char>>,
    },
    ChangeCoordinates { plugin_id: u32, coordinates: Coordinates },
    RenamePane { plugin_id: u32, title: Seq<char> },
    BreakPaneToTab { plugin_id: u32, tab_index: usize, change_focus: bool },
}

impl View for Action {
    type V = ActionView;

    open spec fn view(&self) -> ActionView {
        match *self {
            Action::Subscribe(v) => ActionView::Subscribe(v@),
            Action::RequestPermissions(v) => ActionView::RequestPermissions(v@),
            Action::Reconfigure { config, write_to_disk } => ActionView::Reconfigure {
                config: config@,
                write_to_disk,
            },
            Action::SetSelectable(b) => ActionView::SetSelectable(b),
            Action::ChangeHostFolder(s) => ActionView::ChangeHostFolder(s@),
            Action::ReadSnapshot(s) => ActionView::ReadSnapshot(s@),
            Action::ReadSeenEvents(s) => ActionView::ReadSeenEvents(s@),
            Action::RecomputeTabFlags(s) => ActionView::RecomputeTabFlags(opt_text(s)),
            Action::SetTimeout(t) => ActionView::SetTimeout(t),
            Action::SwitchTabTo(t) => ActionView::SwitchTabTo(t),
            Action::CloseSelf => ActionView::CloseSelf,
            Action::PipeMessage(m) => ActionView::PipeMessage {
                name: m.name@,
                url: m.url@,
                config: texts_of(m.config@),
                coordinates: m.coordinates,
                title: m.title@,
                args: texts_of(m.args@),
            },
            Action::ChangeCoordinates { plugin_id, coordinates } => ActionView::ChangeCoordinates {
                plugin_id,
                coordinates,
            },
            Action::RenamePane { plugin_id, title } => ActionView::RenamePane {
                plugin_id,
                title: title@,
            },
            Action::BreakPaneToTab { plugin_id, tab_index, change_focus } => {
                ActionView::BreakPaneToTab { plugin_id, tab_index, change_focus }
            },
        }
    }
}

pub open spec fn action_views(v: Seq<Action>) -> Seq<ActionView> {
    v.map_values(|a: Action| a@)
}

/// What comes of an event.
pub struct Outcome {
    /// Whether the bar is to be drawn again.
    pub rerender: bool,
    /// What the host is to do, in this order.
    pub actions: Vec<Action>,
}

#[verifier::ext_equal]
pub ghost struct Next {
    pub bar: Bar,
    pub rerender: bool,
    pub actions: Seq<ActionView>,
}

pub open spec fn quiet(bar: Bar, rerender: bool) -> Next {
    Next { bar, rerender, actions: Seq::empty() }
}

/// The name of a mode, as the tooltip is titled.
pub open spec fn mode_name(mode: InputMode) -> Seq<char> {
    match mode {
        InputMode::Normal => "Normal"@,
        InputMode::Locked => "Locked"@,
        InputMode::Resize => "Resize"@,
        InputMode::Pane => "Pane"@,
        InputMode::Tab => "Tab"@,
        InputMode::Scroll => "Scroll"@,
        InputMode::EnterSearch => "EnterSearch"@,
        InputMode::Search => "Search"@,
        InputMode::RenameTab => "RenameTab"@,
        InputMode::RenamePane => "RenamePane"@,
        InputMode::Session => "Session"@,
        InputMode::Move => "Move"@,
        InputMode::Prompt => "Prompt"@,
        InputMode::Tmux => "Tmux"@,
        InputMode::CopyMode => "CopyMode"@,
    }
}

/// Modes in which a tooltip would be in the way.
pub open spec fn restricted(mode: InputMode) -> bool {
    match mode {
        InputMode::Locked
        | InputMode::EnterSearch
        | InputMode::RenameTab
        | InputMode::RenamePane
        | InputMode::Prompt
        | InputMode::Tmux
        | InputMode::CopyMode => true,
        _ => false,
    }
}

/// A switch in the configuration: on or off where it says so, else as given.
pub open spec fn switch_in(
    config: Map<Seq<char>, Seq<char>>,
    key: Seq<char>,
    default: bool,
) -> bool {
    if config.contains_key(key) && config[key] == "true"@ {
        true
    } else if config.contains_key(key) && config[key] == "false"@ {
        false
    } else {
        default
    }
}

/// The size of a tooltip's contents that leaves room for its frame.
pub open spec fn frameable(size: (usize, usize)) -> bool {
    size.0 <= usize::MAX - 4 && size.1 <= usize::MAX - 4
}

/// Where the tooltip goes: at the bottom left, just above the bar.
pub open spec fn tooltip_place(b: Bar, size: (usize, usize)) -> Coordinates {
    let width = size.1 + 4;
    let height = size.0 + 2;
    Coordinates {
        x: 2,
        y: if b.rows >= height + 2 {
            (b.rows - (height + 2)) as usize
        } else {
            0
        },
        width: width as usize,
        height: height as usize,
        pinned: true,
        borderless: false,
    }
}

/// What a message says beside its name: whether the tooltip is to stay.
pub open spec fn message_args(persist: bool) -> Map<Seq<char>, Seq<char>> {
    if persist {
        Map::empty().insert("persist"@, Seq::empty())
    } else {
        Map::empty()
    }
}

/// A message to a tooltip, which is launched where there is none.
pub open spec fn tooltip_message(
    b: Bar,
    name: Seq<char>,
    size: (usize, usize),
    persist: bool,
) -> ActionView {
    ActionView::PipeMessage {
        name,
        url: OWN_URL@,
        config: b.config.insert("is_tooltip"@, "true"@),
        coordinates: tooltip_place(b, size),
        title: mode_name(b.mode.mode),
        args: message_args(persist),
    }
}

pub open spec fn base_of(mode: ModeView) -> InputMode {
    match mode.base_mode {
        Some(m) => m,
        None => InputMode::Normal,
    }
}

/// The actions on a new mode. A tooltip closes when the mode is left, unless it
/// is to stay, and else follows the mode; the bar launches one where a key for it
/// is set.
pub open spec fn mode_actions(b: Bar, old_mode: InputMode, size: (usize, usize)) -> Seq<ActionView> {
    let new = b.mode.mode;
    let base = base_of(b.mode);
    if b.is_tooltip {
        if !b.persist && (new == base || restricted(new)) {
            seq![ActionView::CloseSelf]
        } else if (new != old_mode || b.persist) && b.plugin is Some {
            seq![
                ActionView::ChangeCoordinates {
                    plugin_id: b.plugin->0,
                    coordinates: tooltip_place(b, size),
                },
                ActionView::RenamePane { plugin_id: b.plugin->0, title: mode_name(new) },
            ]
        } else {
            Seq::empty()
        }
    } else if b.toggle_key is Some && new != base && !restricted(new) {
        seq![tooltip_message(b, "launch_tooltip_if_not_launched"@, size, false)]
    } else {
        Seq::empty()
    }
}

/// A mode report may leave the key bindings out: then the last known ones stand.
pub open spec fn after_mode(b: Bar, mode: ModeView, size: (usize, usize)) -> Next {
    let known = if mode.keybinds.len() == 0 {
        b.keybinds
    } else {
        mode.keybinds
    };
    let full = ModeView { keybinds: known, ..mode };
    let q = Bar { mode: full, keybinds: known, ..b };
    Next {
        bar: q,
        rerender: b.mode != full,
        actions: mode_actions(q, b.mode.mode, size),
    }
}

pub open spec fn after_keybinds(b: Bar, keybinds: Seq<u8>) -> Next {
    quiet(
        Bar {
            keybinds,
            mode: ModeView {
                keybinds: if keybinds.len() == 0 {
                    b.mode.keybinds
                } else {
                    keybinds
                },
                ..b.mode
            },
            ..b
        },
        true,
    )
}

/// The place of the first active tab.
pub open spec fn active_place(tabs: Seq<TabView>) -> Option<int>
    decreases tabs.len(),
{
    if tabs.len() == 0 {
        None
    } else {
        let before = active_place(tabs.drop_last());
        if before is Some {
            before
        } else if tabs.last().active {
            Some(tabs.len() - 1)
        } else {
            None
        }
    }
}

/// New tabs. Without an active one the report is of no use. A tooltip moves along
/// to the active tab; the bar has its tints computed anew.
pub open spec fn after_tabs(b: Bar, tabs: Seq<TabView>) -> Next {
    match active_place(tabs) {
        Some(i) => {
            let active = (i + 1) as usize;
            let moved = b.active != active;
            Next {
                bar: Bar {
                    tabs,
                    active,
                    rows: tabs[i].display_area_rows,
                    cols: tabs[i].display_area_columns,
                    ..b
                },
                rerender: moved || b.tabs != tabs,
                actions: if moved && b.is_tooltip && b.plugin is Some {
                    seq![ActionView::BreakPaneToTab {
                        plugin_id: b.plugin->0,
                        tab_index: i as usize,
                        change_focus: false,
                    }]
                } else if moved && !b.is_tooltip {
                    seq![ActionView::RecomputeTabFlags(b.seen_dir)]
                } else {
                    Seq::empty()
                },
            }
        },
        None => quiet(b, false),
    }
}

pub open spec fn is_tooltip_pane(p: PaneView) -> bool {
    p.plugin_url == Some("zellij:compact-bar"@) && p.pane_x != p.pane_content_x
}

/// Whether a tooltip is on some tab.
pub open spec fn tooltip_present(panes: Map<usize, Seq<PaneView>>) -> bool {
    exists|tab: usize, i: int|
        panes.contains_key(tab) && 0 <= i < panes[tab].len() && is_tooltip_pane(
            #[trigger] panes[tab][i],
        )
}

/// Whether a tab holds the plugin's own pane.
pub open spec fn holds_plugin(panes: Seq<PaneView>, plugin: Option<u32>) -> bool {
    exists|i: int|
        0 <= i < panes.len() && (#[trigger] panes[i]).is_plugin && Some(panes[i].id) == plugin
}

/// The tab that holds the plugin's own pane. Where several do, any of them may be
/// found.
pub open spec fn may_be_own_tab(
    panes: Map<usize, Seq<PaneView>>,
    plugin: Option<u32>,
    tab: Option<usize>,
) -> bool {
    match tab {
        Some(t) => panes.contains_key(t) && holds_plugin(panes[t], plugin),
        None => forall|t: usize| #[trigger]
            panes.contains_key(t) ==> !holds_plugin(panes[t], plugin),
    }
}

/// New panes; `own_tab` is where the plugin's own pane was found. Only a bar with
/// a key for the tooltip looks for either.
pub open spec fn after_panes(
    b: Bar,
    panes: Map<usize, Seq<PaneView>>,
    own_tab: Option<usize>,
) -> Next {
    let q = if b.toggle_key is Some {
        Bar { tooltip_is_active: tooltip_present(panes), own_tab, ..b }
    } else {
        b
    };
    let changed = q.tooltip_is_active != b.tooltip_is_active;
    if !b.is_tooltip && b.panes != panes {
        Next {
            bar: Bar { panes, ..q },
            rerender: changed,
            actions: seq![ActionView::RecomputeTabFlags(b.seen_dir)],
        }
    } else {
        quiet(q, changed)
    }
}

/// The permission prompt has been answered.
pub open spec fn after_permission(b: Bar, env: Map<Seq<char>, String>) -> Next {
    if b.is_tooltip || b.snapshot_path is Some {
        quiet(b, false)
    } else {
        match home_in(env) {
            Some(home) => Next {
                bar: Bar {
                    snapshot_path: Some(state_path(b.state_dir, "agent-readmodel.json"@)),
                    seen_dir: Some(state_path(b.state_dir, "agent-seen-events"@)),
                    ..b
                },
                rerender: false,
                actions: seq![
                    ActionView::SetSelectable(false),
                    ActionView::ChangeHostFolder(home),
                    ActionView::ReadSeenEvents(state_path(b.state_dir, "agent-seen-events"@)),
                    ActionView::SetTimeout(AGENT_POLL_TENTHS),
                ],
            },
            None => Next {
                bar: b,
                rerender: false,
                actions: seq![
                    ActionView::SetSelectable(false),
                    ActionView::SetTimeout(AGENT_POLL_TENTHS),
                ],
            },
        }
    }
}

/// Everything is read again, and the tints are computed whatever came of it.
pub open spec fn after_timer(b: Bar) -> Next {
    Next {
        bar: b,
        rerender: false,
        actions: (match b.snapshot_path {
            Some(path) => seq![ActionView::ReadSnapshot(path)],
            None => Seq::empty(),
        }) + (match b.seen_dir {
            Some(dir) => seq![ActionView::ReadSeenEvents(dir)],
            None => Seq::empty(),
        }) + seq![
            ActionView::RecomputeTabFlags(b.seen_dir),
            ActionView::SetTimeout(AGENT_POLL_TENTHS),
        ],
    }
}

pub open spec fn session_of(b: Bar) -> Seq<char> {
    match b.mode.session_name {
        Some(s) => s,
        None => Seq::empty(),
    }
}

pub open spec fn after_snapshot(b: Bar, read: ReadResult) -> Next {
    quiet(
        Bar {
            pane_agents: match read {
                ReadResult::Loaded(agents) => tab_flags::projected(agents@, session_of(b)),
                _ => Map::empty(),
            },
            ..b
        },
        false,
    )
}

pub open spec fn active_position(b: Bar) -> Option<usize> {
    if b.active > 0 {
        Some((b.active - 1) as usize)
    } else {
        None
    }
}

pub open spec fn seen_map(seen: Option<Dict<String, i64>>) -> Option<Map<Seq<char>, i64>> {
    match seen {
        Some(m) => Some(m@),
        None => None,
    }
}

pub open spec fn after_recompute(b: Bar, seen: Option<Map<Seq<char>, i64>>) -> Next {
    let q = match seen {
        Some(m) => Bar { seen: m, ..b },
        None => b,
    };
    let flags = tab_flags::tab_flags(q.pane_agents, q.panes, active_position(q), q.seen);
    quiet(Bar { flags, ..q }, flags != b.flags)
}

/// The tab to the right, as the host counts tabs.
pub open spec fn tab_up(b: Bar) -> int {
    if b.active < b.tabs.len() {
        b.active + 1
    } else {
        b.tabs.len() as int
    }
}

/// The tab to the left; the first has none.
pub open spec fn tab_down(b: Bar) -> int {
    if b.active >= 2 {
        b.active - 1
    } else {
        1
    }
}

/// A tab number as the host takes it.
pub open spec fn tab_number(n: int) -> u32 {
    (n % 0x1_0000_0000) as u32
}

pub open spec fn switching(b: Bar, tab: u32) -> Next {
    Next { bar: b, rerender: false, actions: seq![ActionView::SwitchTabTo(tab)] }
}

/// A click switches to the tab it hits, but on a tooltip.
pub open spec fn after_click(b: Bar, hit: Option<usize>) -> Next {
    if b.is_tooltip || hit is None {
        quiet(b, false)
    } else {
        switching(b, hit->0 as u32)
    }
}

/// The wheel switches to the tab beside, but on a tooltip.
pub open spec fn after_scroll(b: Bar, up: bool) -> Next {
    if b.is_tooltip {
        quiet(b, false)
    } else if up {
        switching(b, tab_number(tab_up(b)))
    } else {
        switching(b, tab_number(tab_down(b)))
    }
}

pub open spec fn after_copy(b: Bar, destination: CopyDestination) -> Next {
    if b.is_tooltip {
        quiet(b, false)
    } else {
        quiet(Bar { copied: Some(destination), ..b }, b.copied != Some(destination))
    }
}

pub open spec fn after_clipboard_failure(b: Bar) -> Next {
    if b.is_tooltip {
        quiet(b, false)
    } else {
        quiet(Bar { clipboard_failed: true, ..b }, true)
    }
}

/// Input takes the clipboard's message off the bar.
pub open spec fn after_input(b: Bar) -> Next {
    if b.is_tooltip {
        quiet(b, false)
    } else {
        quiet(
            Bar { copied: None, clipboard_failed: false, ..b },
            b.copied is Some || b.clipboard_failed,
        )
    }
}

/// What the bar makes of an event. `size` is that of the tooltip for the mode
/// that holds after it, `own_tab` where the plugin's own pane was found.
pub open spec fn updated(
    b0: Bar,
    event: Event,
    size: (usize, usize),
    own_tab: Option<usize>,
) -> Next {
    let b = Bar { is_first_run: false, ..b0 };
    match event {
        Event::InitialKeybinds(k) => after_keybinds(b, k@),
        Event::ModeUpdate(mode) => after_mode(b, mode@, size),
        Event::TabUpdate(tabs) => after_tabs(b, tab_views(tabs@)),
        Event::PaneUpdate(panes) => after_panes(b, panes@, own_tab),
        Event::Timer => after_timer(b),
        Event::PermissionRequestResult(env) => after_permission(b, env@),
        Event::LeftClick(hit) => after_click(b, hit),
        Event::ScrollUp => after_scroll(b, true),
        Event::ScrollDown => after_scroll(b, false),
        Event::CopyToClipboard(dest) => after_copy(b, dest),
        Event::SystemClipboardFailure => after_clipboard_failure(b),
        Event::InputReceived => after_input(b),
        Event::Snapshot(read) => after_snapshot(b, read),
        Event::SeenEvents(seen) => quiet(Bar { seen: seen@, ..b }, false),
        Event::Recompute(seen) => after_recompute(b, seen_map(seen)),
        Event::Other => quiet(b, false),
    }
}

/// A message to this plugin.
#[derive(Debug)]
pub struct PipeMessage {
    pub name: String,
    pub payload: Option<String>,
    pub is_private: bool,
}

/// A message over a pipe. A tooltip that was just launched is told to stay, and
/// one that stays is closed by the same message; the bar answers its key only in
/// the tab the user is in, and only for its own client.
pub open spec fn after_pipe(
    b: Bar,
    name: Seq<char>,
    payload: Option<Seq<char>>,
    is_private: bool,
    size: (usize, usize),
) -> Next {
    if b.is_tooltip && is_private {
        if name == "toggle_persisted_tooltip"@ {
            if b.is_first_run {
                quiet(Bar { persist: true, ..b }, false)
            } else {
                Next { bar: b, rerender: false, actions: seq![ActionView::CloseSelf] }
            }
        } else {
            quiet(b, false)
        }
    } else if name == "toggle_tooltip"@ && is_private && b.toggle_key is Some && b.own_tab == Some(
        if b.active > 0 {
            (b.active - 1) as usize
        } else {
            0
        },
    ) && payload == Some(text::decimal(b.client as nat)) {
        Next {
            bar: b,
            rerender: false,
            actions: seq![tooltip_message(b, "toggle_persisted_tooltip"@, size, true)],
        }
    } else {
        quiet(b, false)
    }
}

/// The key binding that toggles the tooltip.
pub open spec fn toggle_binding(key: Seq<char>, client: u16) -> Seq<char> {
    "\n        keybinds {\n            shared {\n                bind \""@ + key
        + "\" {\n                  MessagePlugin \"compact-bar\" {\n                      name \"toggle_tooltip\"\n                      tooltip \""@
        + key + "\"\n                      payload \""@ + text::decimal(client as nat)
        + "\"\n                  }\n                }\n            }\n        }\n    "@
}

pub open spec fn subscriptions(is_tooltip: bool) -> Seq<EventType> {
    if is_tooltip {
        seq![EventType::ModeUpdate, EventType::TabUpdate, EventType::InitialKeybinds]
    } else {
        seq![
            EventType::TabUpdate,
            EventType::PaneUpdate,
            EventType::ModeUpdate,
            EventType::Mouse,
            EventType::CopyToClipboard,
            EventType::InputReceived,
            EventType::SystemClipboardFailure,
            EventType::InitialKeybinds,
            EventType::Timer,
            EventType::PermissionRequestResult,
        ]
    }
}

/// The bar has been loaded with a configuration.
pub open spec fn loaded(
    b: Bar,
    config: Map<Seq<char>, Seq<char>>,
    plugin: u32,
    client: u16,
) -> Next {
    let is_tooltip = switch_in(config, "is_tooltip"@, false);
    let toggle_key = if !is_tooltip && config.contains_key("tooltip"@) {
        Some(config["tooltip"@])
    } else {
        b.toggle_key
    };
    Next {
        bar: Bar {
            config,
            plugin: Some(plugin),
            client,
            is_tooltip,
            toggle_key,
            is_first_run: is_tooltip || b.is_first_run,
            ..b
        },
        rerender: false,
        actions: seq![ActionView::Subscribe(subscriptions(is_tooltip))] + (if !is_tooltip
            && toggle_key is Some {
            seq![ActionView::Reconfigure {
                config: toggle_binding(toggle_key->0, client),
                write_to_disk: false,
            }]
        } else {
            Seq::empty()
        }) + (if !is_tooltip {
            seq![
                ActionView::RequestPermissions(
                    seq![
                        PermissionType::ReadApplicationState,
                        PermissionType::FullHdAccess,
                        PermissionType::ReadSessionEnvironmentVariables,
                    ],
                ),
            ]
        } else {
            Seq::empty()
        }),
    }
}

/// One tab of the line, before it is styled.
#[derive(Debug)]
pub struct TabCell {
    /// The tab's place among the tabs.
    pub index: usize,
    pub name: String,
    /// Every other tab is painted in another shade.
    pub is_alternate: bool,
    pub flag: Option<TabFlag>,
}

pub ghost struct CellView {
    pub index: usize,
    pub name: Seq<char>,
    pub is_alternate: bool,
    pub flag: Option<TabFlag>,
}

impl View for TabCell {
    type V = CellView;

    open spec fn view(&self) -> CellView {
        CellView {
            index: self.index,
            name: self.name@,
            is_alternate: self.is_alternate,
            flag: self.flag,
        }
    }
}

/// What the line of tabs is made of.
#[derive(Debug)]
pub struct TabRenderData {
    pub tabs: Vec<TabCell>,
    pub active_tab_index: usize,
    pub active_swap_layout_name: Option<String>,
    pub is_swap_layout_dirty: bool,
}

#[verifier::ext_equal]
pub ghost struct RenderView {
    pub tabs: Seq<CellView>,
    pub active_tab_index: usize,
    pub active_swap_layout_name: Option<Seq<char>>,
    pub is_swap_layout_dirty: bool,
}

impl View for TabRenderData {
    type V = RenderView;

    open spec fn view(&self) -> RenderView {
        RenderView {
            tabs: self.tabs@.map_values(|c: TabCell| c@),
            active_tab_index: self.active_tab_index,
            active_swap_layout_name: opt_text(self.active_swap_layout_name),
            is_swap_layout_dirty: self.is_swap_layout_dirty,
        }
    }
}

/// The name a tab is shown under: a hint where it is being renamed to nothing.
pub open spec fn shown_name(b: Bar, tab: TabView) -> Seq<char> {
    if tab.active && b.mode.mode == InputMode::RenameTab && tab.name.len() == 0 {
        "Enter name..."@
    } else {
        tab.name
    }
}

pub open spec fn flag_at(b: Bar, position: usize) -> Option<TabFlag> {
    if b.flags.contains_key(position) {
        Some(b.flags[position])
    } else {
        None
    }
}

/// The line of the first `n` tabs. The swap layout is that of the active tab, and
/// not shown while a tab is renamed.
pub open spec fn tab_data(b: Bar, n: nat) -> RenderView
    decreases n,
{
    if n == 0 {
        RenderView {
            tabs: Seq::empty(),
            active_tab_index: 0,
            active_swap_layout_name: None,
            is_swap_layout_dirty: false,
        }
    } else {
        let before = tab_data(b, (n - 1) as nat);
        let tab = b.tabs[n - 1];
        let swap = tab.active && b.mode.mode != InputMode::RenameTab;
        RenderView {
            tabs: before.tabs.push(
                CellView {
                    index: (n - 1) as usize,
                    name: shown_name(b, tab),
                    is_alternate: (n - 1) % 2 == 1,
                    flag: flag_at(b, tab.position),
                },
            ),
            active_tab_index: if tab.active {
                tab.position
            } else {
                before.active_tab_index
            },
            active_swap_layout_name: if swap {
                tab.active_swap_layout_name
            } else {
                before.active_swap_layout_name
            },
            is_swap_layout_dirty: if swap {
                tab.is_swap_layout_dirty
            } else {
                before.is_swap_layout_dirty
            },
        }
    }
}

/// What is to be drawn.
#[derive(Debug)]
pub enum Face {
    Tooltip,
    ClipboardHint(CopyDestination),
    ClipboardError,
    Tabs(TabRenderData),
    Nothing,
}

pub ghost enum FaceView {
    Tooltip,
    ClipboardHint(CopyDestination),
    ClipboardError,
    Tabs(RenderView),
    Nothing,
}

pub open spec fn face_view(f: Face) -> FaceView {
    match f {
        Face::Tooltip => FaceView::Tooltip,
        Face::ClipboardHint(d) => FaceView::ClipboardHint(d),
        Face::ClipboardError => FaceView::ClipboardError,
        Face::Tabs(d) => FaceView::Tabs(d@),
        Face::Nothing => FaceView::Nothing,
    }
}

/// A copy is told of before a clipboard that failed, and both before the tabs.
pub open spec fn face(b: Bar) -> FaceView {
    if b.is_tooltip {
        FaceView::Tooltip
    } else if b.copied is Some {
        FaceView::ClipboardHint(b.copied->0)
    } else if b.clipboard_failed {
        FaceView::ClipboardError
    } else if b.tabs.len() == 0 {
        FaceView::Nothing
    } else {
        FaceView::Tabs(tab_data(b, b.tabs.len()))
    }
}

/// A text with the bar's background over the rest of the line.
pub open spec fn on_background(line: Seq<char>, background: PaletteColor) -> Seq<char> {
    match background {
        PaletteColor::Rgb(r, g, b) => line + "\u{1b}[48;2;"@ + text::decimal(r as nat) + ";"@
            + text::decimal(g as nat) + ";"@ + text::decimal(b as nat) + "m\u{1b}[0K"@,
        PaletteColor::EightBit(c) => line + "\u{1b}[48;5;"@ + text::decimal(c as nat)
            + "m\u{1b}[0K"@,
    }
}

/// The parts of a line, one behind the other.
pub open spec fn line_text(parts: Seq<PartView>) -> Seq<char>
    decreases parts.len(),
{
    if parts.len() == 0 {
        Seq::empty()
    } else {
        line_text(parts.drop_last()) + parts.last().part
    }
}

} // verus!
