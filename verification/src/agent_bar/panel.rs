//! The panel's state, and what it makes of what happens.
//!
//! The panel never calls the host. It answers an event with actions for the
//! host to carry out, and what the host found out by one comes back as another
//! event: the seen events, the snapshot, the list of sessions.
use super::groups::SessionMeta;
use crate::dict::Dict;
use crate::host::{opt_text, ModeInfo, ModeView, PaneManifest, PaneView};
use crate::readmodel::{Agent, ReadResult};
use vstd::prelude::*;

verus! {

/// How often the readmodel is polled, in tenths of a second.
pub const POLL_TENTHS: u32 = 15;

/// The tick while a spinner turns, in tenths of a second.
pub const SPIN_TENTHS: u32 = 1;

/// A spinner is dropped after this many ticks even if its command never reports
/// back.
pub const MAX_SPIN_TICKS: u32 = 100;

/// What a rendered row routes to when clicked.
#[derive(Debug)]
pub enum RowTarget {
    Agent(String),
    /// A live session's header.
    Session(String),
}

pub ghost enum TargetView {
    Agent(Seq<char>),
    Session(Seq<char>),
}

impl View for RowTarget {
    type V = TargetView;

    open spec fn view(&self) -> TargetView {
        match self {
            RowTarget::Agent(s) => TargetView::Agent(s@),
            RowTarget::Session(s) => TargetView::Session(s@),
        }
    }
}

pub open spec fn target_views(v: Seq<(usize, RowTarget)>) -> Seq<(usize, TargetView)> {
    v.map_values(|t: (usize, RowTarget)| (t.0, t.1@))
}

#[derive(Debug)]
pub enum LoadState {
    AwaitingPermission,
    NoHomeInEnv,
    Polling { path: String, last: Option<ReadResult> },
}

pub ghost enum ReadView {
    Loaded(Seq<Agent>),
    Missing,
    Unreadable(Seq<char>),
    ParseError(Seq<char>),
}

pub open spec fn read_view(r: ReadResult) -> ReadView {
    match r {
        ReadResult::Loaded(a) => ReadView::Loaded(a@),
        ReadResult::Missing => ReadView::Missing,
        ReadResult::Unreadable(e) => ReadView::Unreadable(e@),
        ReadResult::ParseError(e) => ReadView::ParseError(e@),
    }
}

pub ghost enum LoadView {
    AwaitingPermission,
    NoHomeInEnv,
    Polling { path: Seq<char>, last: Option<ReadView> },
}

pub open spec fn load_view(l: LoadState) -> LoadView {
    match l {
        LoadState::AwaitingPermission => LoadView::AwaitingPermission,
        LoadState::NoHomeInEnv => LoadView::NoHomeInEnv,
        LoadState::Polling { path, last } => LoadView::Polling {
            path: path@,
            last: match last {
                Some(r) => Some(read_view(r)),
                None => None,
            },
        },
    }
}

pub struct State {
    /// The agents' state directory, relative to the home directory.
    pub state_dir: String,
    pub load: LoadState,
    pub mode_info: ModeInfo,
    /// Click hit-test: rendered row, and what it routes to.
    pub row_ranges: Vec<(usize, RowTarget)>,
    /// By agent, the session to focus when its row is clicked. Absent where there
    /// is no pane to focus.
    pub focus_targets: Dict<String, String>,
    pub pane_manifest: PaneManifest,
    pub active_tab_idx: Option<usize>,
    /// Every live zellij session, by name.
    pub sessions: Dict<String, SessionMeta>,
    /// Latest scan of the seen events, by agent.
    pub seen_disk: Dict<String, i64>,
    /// Optimistic mark-seen overlay: what counts is the later of the two.
    pub seen_overlay: Dict<String, i64>,
    pub seen_events_dir: Option<String>,
    /// Agents the user dismissed, hidden until the daemon drops them.
    pub dismissed_overlay: Dict<String, ()>,
    pub dismissed_events_dir: Option<String>,
    /// Keyboard cursor: agent index in display order.
    pub selected_idx: Option<usize>,
    pub own_plugin_id: Option<u32>,
    pub was_focused: bool,
    pub last_external_focused_pane: Option<u32>,
    /// First line shown.
    pub scroll_offset: usize,
    /// Set whenever the cursor moves, consumed by the next render. The viewport
    /// chases the selection only then.
    pub follow_selection: bool,
    /// Agents whose focus command has not reported back, with the ticks since.
    pub in_flight: Dict<String, u32>,
    /// What the pending timer was armed at, in tenths of a second.
    pub cur_timeout: u32,
    /// Time gathered towards the next poll, in tenths of a second.
    pub since_poll: u32,
}

/// The state of a panel.
#[verifier::ext_equal]
pub ghost struct Panel {
    pub state_dir: Seq<char>,
    pub load: LoadView,
    pub mode: ModeView,
    pub row_ranges: Seq<(usize, TargetView)>,
    pub focus_targets: Map<Seq<char>, Seq<char>>,
    pub panes: Map<usize, Seq<PaneView>>,
    pub active_tab: Option<usize>,
    pub sessions: Map<Seq<char>, SessionMeta>,
    pub seen_disk: Map<Seq<char>, i64>,
    pub seen_overlay: Map<Seq<char>, i64>,
    pub seen_events_dir: Option<Seq<char>>,
    pub dismissed: Set<Seq<char>>,
    pub dismissed_events_dir: Option<Seq<char>>,
    pub selected: Option<usize>,
    pub own_plugin_id: Option<u32>,
    pub was_focused: bool,
    pub last_external: Option<u32>,
    pub scroll: usize,
    pub follow: bool,
    pub in_flight: Map<Seq<char>, u32>,
    pub cur_timeout: u32,
    pub since_poll: u32,
}

impl View for State {
    type V = Panel;

    open spec fn view(&self) -> Panel {
        Panel {
            state_dir: self.state_dir@,
            load: load_view(self.load),
            mode: self.mode_info@,
            row_ranges: target_views(self.row_ranges@),
            focus_targets: self.focus_targets@.map_values(|s: String| s@),
            panes: self.pane_manifest@,
            active_tab: self.active_tab_idx,
            sessions: self.sessions@,
            seen_disk: self.seen_disk@,
            seen_overlay: self.seen_overlay@,
            seen_events_dir: opt_text(self.seen_events_dir),
            dismissed: self.dismissed_overlay@.dom(),
            dismissed_events_dir: opt_text(self.dismissed_events_dir),
            selected: self.selected_idx,
            own_plugin_id: self.own_plugin_id,
            was_focused: self.was_focused,
            last_external: self.last_external_focused_pane,
            scroll: self.scroll_offset,
            follow: self.follow_selection,
            in_flight: self.in_flight@,
            cur_timeout: self.cur_timeout,
            since_poll: self.since_poll,
        }
    }
}

/// What holds of every state: no spinner turns past its cap, and the timer's
/// accounts stay within one poll.
pub open spec fn in_bounds(p: Panel) -> bool {
    &&& forall|k: Seq<char>| #[trigger] p.in_flight.contains_key(k) ==> p.in_flight[k]
        <= MAX_SPIN_TICKS
    &&& p.cur_timeout <= POLL_TENTHS
    &&& p.since_poll <= POLL_TENTHS
}

impl State {
    pub open spec fn wf(self) -> bool {
        in_bounds(self@)
    }

    /// A panel that has not been told anything yet.
    pub fn new(state_dir: String, mode_info: ModeInfo) -> (r: State)
        ensures
            r.wf(),
            r@ == fresh(state_dir@, mode_info@),
    {
        let r = State {
            state_dir,
            load: LoadState::AwaitingPermission,
            mode_info,
            row_ranges: Vec::new(),
            focus_targets: Dict::new(),
            pane_manifest: PaneManifest { panes: Dict::new() },
            active_tab_idx: None,
            sessions: Dict::new(),
            seen_disk: Dict::new(),
            seen_overlay: Dict::new(),
            seen_events_dir: None,
            dismissed_overlay: Dict::new(),
            dismissed_events_dir: None,
            selected_idx: None,
            own_plugin_id: None,
            was_focused: false,
            last_external_focused_pane: None,
            scroll_offset: 0,
            follow_selection: false,
            in_flight: Dict::new(),
            cur_timeout: 0,
            since_poll: 0,
        };
        assert(r@ =~= fresh(state_dir@, mode_info@));
        r
    }
}

/// The state before anything has happened.
pub open spec fn fresh(state_dir: Seq<char>, mode: ModeView) -> Panel {
    Panel {
        state_dir,
        load: LoadView::AwaitingPermission,
        mode,
        row_ranges: Seq::empty(),
        focus_targets: Map::empty(),
        panes: Map::empty(),
        active_tab: None,
        sessions: Map::empty(),
        seen_disk: Map::empty(),
        seen_overlay: Map::empty(),
        seen_events_dir: None,
        dismissed: Set::empty(),
        dismissed_events_dir: None,
        selected: None,
        own_plugin_id: None,
        was_focused: false,
        last_external: None,
        scroll: 0,
        follow: false,
        in_flight: Map::empty(),
        cur_timeout: 0,
        since_poll: 0,
    }
}

} // verus!
