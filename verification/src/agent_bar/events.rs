//! What can happen to a panel, what it asks of the host, and the rules between
//! the two.
use super::group_laws;
use super::groups;
use super::groups::SessionMeta;
use super::panel::{
    read_view, LoadView, Panel, ReadView, TargetView, MAX_SPIN_TICKS, POLL_TENTHS, SPIN_TENTHS,
};
use crate::dict::Dict;
use crate::host::{opt_text, tab_views, ModeInfo, PaneManifest, PaneView, TabInfo, TabView};
use crate::keys::{BareKey, KeyModifier, KeyWithModifier};
use crate::readmodel::{home_in, same_status, state_path, Agent, ReadResult};
use crate::text;
use vstd::prelude::*;

verus! {

/// A live session as the host lists it. The age is what the host reports: it is
/// made a point in time once, when the session is first seen.
#[derive(Debug)]
pub struct SessionReport {
    pub name: String,
    pub clients: usize,
    pub age_ms: i64,
}

pub enum Event {
    /// The user has answered the permission prompt; the session's environment.
    PermissionRequestResult(Dict<String, String>),
    ModeUpdate(ModeInfo),
    TabUpdate(Vec<TabInfo>),
    PaneUpdate(PaneManifest),
    Timer,
    ScrollUp(usize),
    ScrollDown(usize),
    /// A click on a row of the panel.
    LeftClick(isize),
    Key(KeyWithModifier),
    /// A command has finished; the context it was run with.
    RunCommandResult(Dict<String, String>),
    /// What the directory of seen events holds.
    SeenEvents(Dict<String, i64>),
    /// What reading the snapshot came to.
    Snapshot(ReadResult),
    /// The live sessions, or `None` where the host cannot list them.
    Sessions(Option<Vec<SessionReport>>),
    Other,
}

/// What the panel subscribes to.
#[derive(Clone, Copy, Debug, PartialEq, Eq, Structural)]
pub enum EventType {
    ModeUpdate,
    TabUpdate,
    PaneUpdate,
    Timer,
    Mouse,
    Key,
    PermissionRequestResult,
    RunCommandResult,
}

#[derive(Clone, Copy, Debug, PartialEq, Eq, Structural)]
pub enum PermissionType {
    ReadApplicationState,
    FullHdAccess,
    ReadSessionEnvironmentVariables,
    RunCommands,
    WriteToClipboard,
}

#[derive(Debug)]
pub enum Action {
    Subscribe(Vec<EventType>),
    RequestPermissions(Vec<PermissionType>),
    /// Mount this folder at `/host`.
    ChangeHostFolder(String),
    /// Read the seen events in this directory, and report them.
    ReadSeenEvents(String),
    /// Read this snapshot, and report what came of it.
    ReadSnapshot(String),
    /// List the live sessions, and report them.
    ListSessions,
    /// Arm the timer, in tenths of a second.
    SetTimeout(u32),
    SwitchSession(String),
    RunCommand { args: Vec<String>, context: Vec<(String, String)> },
    CopyToClipboard(String),
    FocusRight,
    /// Write the bytes to `<name>.json` in the directory, through a temporary
    /// file.
    WriteEvent { dir: String, name: String, bytes: Vec<u8> },
}

pub ghost enum ActionView {
    Subscribe(Seq<EventType>),
    RequestPermissions(Seq<PermissionType>),
    ChangeHostFolder(Seq<char>),
    ReadSeenEvents(Seq<char>),
    ReadSnapshot(Seq<char>),
    ListSessions,
    SetTimeout(u32),
    SwitchSession(Seq<char>),
    RunCommand { args: Seq<Seq<char>>, context: Seq<(Seq<char>, Seq<char>)> },
    CopyToClipboard(Seq<char>),
    FocusRight,
    WriteEvent { dir: Seq<char>, name: Seq<char>, bytes: Seq<u8> },
}

pub open spec fn pair_views(v: Seq<(String, String)>) -> Seq<(Seq<char>, Seq<char>)> {
    v.map_values(|p: (String, String)| (p.0@, p.1@))
}

impl View for Action {
    type V = ActionView;

    open spec fn view(&self) -> ActionView {
        match *self {
            Action::Subscribe(v) => ActionView::Subscribe(v@),
            Action::RequestPermissions(v) => ActionView::RequestPermissions(v@),
            Action::ChangeHostFolder(s) => ActionView::ChangeHostFolder(s@),
            Action::ReadSeenEvents(s) => ActionView::ReadSeenEvents(s@),
            Action::ReadSnapshot(s) => ActionView::ReadSnapshot(s@),
            Action::ListSessions => ActionView::ListSessions,
            Action::SetTimeout(t) => ActionView::SetTimeout(t),
            Action::SwitchSession(s) => ActionView::SwitchSession(s@),
            Action::RunCommand { args, context } => ActionView::RunCommand {
                args: text::texts(args@),
                context: pair_views(context@),
            },
            Action::CopyToClipboard(s) => ActionView::CopyToClipboard(s@),
            Action::FocusRight => ActionView::FocusRight,
            Action::WriteEvent { dir, name, bytes } => ActionView::WriteEvent {
                dir: dir@,
                name: name@,
                bytes: bytes@,
            },
        }
    }
}

pub open spec fn action_views(v: Seq<Action>) -> Seq<ActionView> {
    v.map_values(|a: Action| a@)
}

/// What comes of an event.
#[derive(Debug)]
pub struct Outcome {
    /// Whether the panel is to be drawn again.
    pub rerender: bool,
    /// What the host is to do, in this order.
    pub actions: Vec<Action>,
}

#[verifier::ext_equal]
pub ghost struct Next {
    pub panel: Panel,
    pub rerender: bool,
    pub actions: Seq<ActionView>,
}

pub open spec fn quiet(panel: Panel, rerender: bool) -> Next {
    Next { panel, rerender, actions: Seq::empty() }
}

/// The panel has been loaded: it says what it wants to hear of, and asks for what
/// it needs to be allowed.
pub open spec fn loaded(p: Panel, plugin_id: u32) -> Next {
    Next {
        panel: Panel { own_plugin_id: Some(plugin_id), ..p },
        rerender: false,
        actions: seq![
            ActionView::Subscribe(
                seq![
                    EventType::ModeUpdate,
                    EventType::TabUpdate,
                    EventType::PaneUpdate,
                    EventType::Timer,
                    EventType::Mouse,
                    EventType::Key,
                    EventType::PermissionRequestResult,
                    EventType::RunCommandResult,
                ],
            ),
            ActionView::RequestPermissions(
                seq![
                    PermissionType::ReadApplicationState,
                    PermissionType::FullHdAccess,
                    PermissionType::ReadSessionEnvironmentVariables,
                    PermissionType::RunCommands,
                    PermissionType::WriteToClipboard,
                ],
            ),
        ],
    }
}

/// The agents of the last snapshot that could be read.
pub open spec fn current(p: Panel) -> Seq<Agent> {
    match p.load {
        LoadView::Polling { path, last: Some(ReadView::Loaded(a)) } => a,
        _ => Seq::empty(),
    }
}

pub open spec fn not_dismissed(dismissed: Set<Seq<char>>) -> spec_fn(Agent) -> bool {
    |a: Agent| !dismissed.contains(a.session_id@)
}

/// The agents less those the user dismissed.
pub open spec fn visible(p: Panel) -> Seq<Agent> {
    current(p).filter(not_dismissed(p.dismissed))
}

/// The agents as the panel lists them, from top to bottom.
pub open spec fn shown(p: Panel) -> Seq<Agent> {
    group_laws::display_order(groups::grouping(visible(p), p.sessions))
}

/// The first agent of a session id.
pub open spec fn find(agents: Seq<Agent>, sid: Seq<char>) -> Option<Agent>
    decreases agents.len(),
{
    if agents.len() == 0 {
        None
    } else {
        let before = find(agents.drop_last(), sid);
        if before is Some {
            before
        } else if agents.last().session_id@ == sid {
            Some(agents.last())
        } else {
            None
        }
    }
}

/// The place of the first agent that a test holds of.
pub open spec fn first_place(agents: Seq<Agent>, p: spec_fn(Agent) -> bool) -> Option<usize>
    decreases agents.len(),
{
    if agents.len() == 0 {
        None
    } else {
        let before = first_place(agents.drop_last(), p);
        if before is Some {
            before
        } else if p(agents.last()) {
            Some((agents.len() - 1) as usize)
        } else {
            None
        }
    }
}

pub open spec fn has_sid(sid: Seq<char>) -> spec_fn(Agent) -> bool {
    |a: Agent| a.session_id@ == sid
}

pub open spec fn has_pane(pane: u32) -> spec_fn(Agent) -> bool {
    |a: Agent| a.zellij_pane_id == Some(pane)
}

/// The agent under the keyboard cursor.
pub open spec fn selected_agent(p: Panel) -> Option<Agent> {
    match p.selected {
        Some(i) => if i < shown(p).len() {
            Some(shown(p)[i as int])
        } else {
            None
        },
        None => None,
    }
}

/// The panes of the active tab.
pub open spec fn panes_here(p: Panel) -> Seq<PaneView> {
    match p.active_tab {
        Some(tab) => if p.panes.contains_key(tab) {
            p.panes[tab]
        } else {
            Seq::empty()
        },
        None => Seq::empty(),
    }
}

/// Whether the panel itself has the focus.
pub open spec fn am_focused(p: Panel) -> bool {
    p.own_plugin_id is Some && exists|i: int|
        0 <= i < panes_here(p).len() && (#[trigger] panes_here(p)[i]).is_plugin
            && panes_here(p)[i].id == p.own_plugin_id->0 && panes_here(p)[i].is_focused
}

/// The first pane that has the focus and is no plugin.
pub open spec fn focused_terminal(panes: Seq<PaneView>) -> Option<u32>
    decreases panes.len(),
{
    if panes.len() == 0 {
        None
    } else {
        let before = focused_terminal(panes.drop_last());
        if before is Some {
            before
        } else if panes.last().is_focused && !panes.last().is_plugin {
            Some(panes.last().id)
        } else {
            None
        }
    }
}

/// Where the cursor goes when the panel gets the focus: to the agent in the pane
/// that had it before, else to the first.
pub open spec fn initial_selection(p: Panel) -> Option<usize> {
    if shown(p).len() == 0 {
        None
    } else if p.last_external is Some && first_place(
        shown(p),
        has_pane(p.last_external->0),
    ) is Some {
        first_place(shown(p), has_pane(p.last_external->0))
    } else {
        Some(0)
    }
}

pub open spec fn same_agent(x: Agent, y: Agent) -> bool {
    &&& x.session_id@ == y.session_id@
    &&& same_status(x.status, y.status)
    &&& x.zellij_pane_id == y.zellij_pane_id
    &&& opt_text(x.zellij_session) == opt_text(y.zellij_session)
    &&& x.name@ == y.name@
    &&& x.started_at_ms == y.started_at_ms
    &&& x.attention_at_ms == y.attention_at_ms
    &&& x.active == y.active
}

/// Whether two lists of agents show alike.
pub open spec fn same_agents(a: Seq<Agent>, b: Seq<Agent>) -> bool {
    a.len() == b.len() && forall|i: int| 0 <= i < a.len() ==> same_agent(#[trigger] a[i], b[i])
}

/// Whether a new read shows what the last one did.
pub open spec fn same_result(a: Option<ReadView>, b: ReadView) -> bool {
    match (a, b) {
        (Some(ReadView::Loaded(x)), ReadView::Loaded(y)) => same_agents(x, y),
        (Some(ReadView::Missing), ReadView::Missing) => true,
        (Some(ReadView::Unreadable(x)), ReadView::Unreadable(y)) => x == y,
        (Some(ReadView::ParseError(x)), ReadView::ParseError(y)) => x == y,
        _ => false,
    }
}

/// The bytes that `serde_json::to_vec` writes for an object of a text field and
/// a number field.
pub uninterp spec fn json_object(
    text_key: Seq<char>,
    text: Seq<char>,
    number_key: Seq<char>,
    number: i64,
) -> Seq<u8>;

/// `serde_json::to_vec` on a `serde_json::Value::Object` of two fields, which
/// cannot fail: the keys are texts, and the bytes go to memory.
#[verifier::external_body]
pub(crate) fn to_json(text_key: &str, text: &str, number_key: &str, number: i64) -> (r: Option<
    Vec<u8>,
>)
    ensures
        r is Some,
        r->0@ == json_object(text_key@, text@, number_key@, number),
{
    let mut object = serde_json::Map::new();
    object.insert(text_key.to_string(), serde_json::Value::from(text));
    object.insert(number_key.to_string(), serde_json::Value::from(number));
    serde_json::to_vec(&serde_json::Value::Object(object)).ok()
}

/// Where a mark is to be kept, the action that writes it.
pub open spec fn event_writes(
    dir: Option<Seq<char>>,
    sid: Seq<char>,
    time_key: Seq<char>,
    at_ms: i64,
) -> Seq<ActionView> {
    match dir {
        Some(d) => seq![ActionView::WriteEvent {
            dir: d,
            name: sid,
            bytes: json_object("session_id"@, sid, time_key, at_ms),
        }],
        None => Seq::empty(),
    }
}

pub open spec fn later(a: i64, b: i64) -> i64 {
    if a > b {
        a
    } else {
        b
    }
}

pub open spec fn time_or_none(m: Map<Seq<char>, i64>, sid: Seq<char>) -> i64 {
    if m.contains_key(sid) {
        m[sid]
    } else {
        0
    }
}

/// Mark an agent's attention as seen: at once in the overlay, and on disk for
/// every other panel.
pub open spec fn acknowledged(p: Panel, sid: Seq<char>) -> Next {
    match find(current(p), sid) {
        Some(a) => if a.attention_at_ms == 0 {
            quiet(p, true)
        } else {
            Next {
                panel: Panel {
                    seen_overlay: p.seen_overlay.insert(
                        sid,
                        later(a.attention_at_ms, time_or_none(p.seen_overlay, sid)),
                    ),
                    ..p
                },
                rerender: true,
                actions: event_writes(
                    p.seen_events_dir,
                    sid,
                    "seen_at_ms"@,
                    a.attention_at_ms,
                ),
            }
        },
        None => quiet(p, true),
    }
}

/// The command that goes to an agent's pane. The row it was asked for from is
/// echoed back when it is done.
pub open spec fn focus_command(focus_sid: Seq<char>, echo_sid: Seq<char>) -> ActionView {
    ActionView::RunCommand {
        args: seq!["mux"@, "focus-agent"@, focus_sid],
        context: seq![("click_label"@, text::short(focus_sid)), ("session_id"@, echo_sid)],
    }
}

/// Go to a row's pane, where it routes to one. A row whose agent is gone routes
/// only where that is allowed.
pub open spec fn routed(p: Panel, sid: Seq<char>, allow_dead: bool) -> Next {
    let dead = match find(current(p), sid) {
        Some(a) => !a.active,
        None => false,
    };
    if (dead && !allow_dead) || !p.focus_targets.contains_key(sid) {
        quiet(p, true)
    } else {
        Next {
            panel: Panel { in_flight: p.in_flight.insert(sid, 0), ..p },
            rerender: true,
            actions: seq![focus_command(p.focus_targets[sid], sid)],
        }
    }
}

/// Acknowledge a row, then go to its pane.
pub open spec fn activated(p: Panel, sid: Seq<char>, allow_dead: bool) -> Next {
    let seen = acknowledged(p, sid);
    let gone = routed(seen.panel, sid, allow_dead);
    Next { panel: gone.panel, rerender: true, actions: seen.actions + gone.actions }
}

/// Put the cursor on an agent; the viewport follows.
pub open spec fn selecting(p: Panel, i: usize) -> Panel {
    Panel { selected: Some(i), follow: true, ..p }
}

pub open spec fn after_click(p: Panel, target: TargetView) -> Next {
    match target {
        TargetView::Session(name) => Next {
            panel: p,
            rerender: true,
            actions: seq![ActionView::SwitchSession(name)],
        },
        TargetView::Agent(sid) => {
            let place = first_place(shown(p), has_sid(sid));
            let q = match place {
                Some(i) => selecting(p, i),
                None => p,
            };
            activated(q, sid, false)
        },
    }
}

/// What a rendered row routes to: the first entry for it.
pub open spec fn target_at(ranges: Seq<(usize, TargetView)>, row: usize) -> Option<TargetView>
    decreases ranges.len(),
{
    if ranges.len() == 0 {
        None
    } else {
        let before = target_at(ranges.drop_last(), row);
        if before is Some {
            before
        } else if ranges.last().0 == row {
            Some(ranges.last().1)
        } else {
            None
        }
    }
}

pub open spec fn bare(key: KeyWithModifier) -> bool {
    forall|m: KeyModifier| !key.holds(m)
}

/// Hide an agent at once, and leave a mark for the daemon to drop it.
pub open spec fn dismissing(p: Panel, sid: Seq<char>, now: i64) -> Next {
    Next {
        panel: Panel { dismissed: p.dismissed.insert(sid), ..p },
        rerender: true,
        actions: event_writes(p.dismissed_events_dir, sid, "dismissed_at_ms"@, now),
    }
}

pub open spec fn after_key(p: Panel, key: KeyWithModifier, now: i64) -> Next {
    let n = shown(p).len();
    let agent = selected_agent(p);
    if !bare(key) {
        quiet(p, false)
    } else {
        match key.bare_key {
            BareKey::Up | BareKey::Char('k') => if n > 0 {
                quiet(
                    selecting(
                        p,
                        match p.selected {
                            Some(i) => if i > 0 {
                                (i - 1) as usize
                            } else {
                                0
                            },
                            None => 0,
                        },
                    ),
                    true,
                )
            } else {
                quiet(p, false)
            },
            BareKey::Down | BareKey::Char('j') => if n > 0 {
                quiet(
                    selecting(
                        p,
                        match p.selected {
                            Some(i) => if i < n - 1 {
                                (i + 1) as usize
                            } else {
                                (n - 1) as usize
                            },
                            None => 0,
                        },
                    ),
                    true,
                )
            } else {
                quiet(p, false)
            },
            BareKey::Home => if n > 0 {
                quiet(selecting(p, 0), true)
            } else {
                quiet(p, false)
            },
            BareKey::End | BareKey::Char('G') => if n > 0 {
                quiet(selecting(p, (n - 1) as usize), true)
            } else {
                quiet(p, false)
            },
            BareKey::Char('g') => match agent {
                Some(a) => activated(p, a.session_id@, true),
                None => quiet(p, false),
            },
            BareKey::Enter => match agent {
                Some(a) => activated(p, a.session_id@, false),
                None => quiet(p, false),
            },
            BareKey::Char('x') => match agent {
                Some(a) => if a.active {
                    quiet(p, false)
                } else {
                    dismissing(p, a.session_id@, now)
                },
                None => quiet(p, false),
            },
            BareKey::Char('y') => match agent {
                Some(a) => Next {
                    panel: p,
                    rerender: true,
                    actions: seq![ActionView::CopyToClipboard(a.session_id@)],
                },
                None => quiet(p, false),
            },
            BareKey::Char('v') => match agent {
                Some(a) => if p.focus_targets.contains_key(a.session_id@) {
                    Next {
                        panel: p,
                        rerender: true,
                        actions: seq![
                            ActionView::CopyToClipboard(
                                "mux focus-agent "@ + p.focus_targets[a.session_id@],
                            ),
                        ],
                    }
                } else {
                    quiet(p, false)
                },
                None => quiet(p, false),
            },
            BareKey::Esc | BareKey::Char('q') => Next {
                panel: p,
                rerender: true,
                actions: seq![ActionView::FocusRight],
            },
            _ => quiet(p, false),
        }
    }
}

/// Every spinner one tick on, less those that have turned long enough.
pub open spec fn spun(m: Map<Seq<char>, u32>) -> Map<Seq<char>, u32> {
    Map::new(
        |k: Seq<char>| m.contains_key(k) && m[k] < MAX_SPIN_TICKS,
        |k: Seq<char>| (m[k] + 1) as u32,
    )
}

/// What to read when a poll is due.
pub open spec fn poll_actions(p: Panel) -> Seq<ActionView> {
    (match p.load {
        LoadView::Polling { path, last } => seq![ActionView::ReadSnapshot(path)],
        _ => Seq::empty(),
    }) + (match p.seen_events_dir {
        Some(d) => seq![ActionView::ReadSeenEvents(d)],
        None => Seq::empty(),
    }) + seq![ActionView::ListSessions]
}

/// The timer turns the spinners and polls when a poll is due. It is armed again
/// fast while a spinner turns, and at the polling rate otherwise.
pub open spec fn after_timer(p: Panel) -> Next {
    let turned = spun(p.in_flight);
    let since = p.since_poll + p.cur_timeout;
    let due = since >= POLL_TENTHS;
    let timeout = if turned == Map::<Seq<char>, u32>::empty() {
        POLL_TENTHS
    } else {
        SPIN_TENTHS
    };
    Next {
        panel: Panel {
            in_flight: turned,
            since_poll: if due {
                0
            } else {
                since as u32
            },
            cur_timeout: timeout,
            ..p
        },
        rerender: p.in_flight != Map::<Seq<char>, u32>::empty(),
        actions: (if due {
            poll_actions(p)
        } else {
            Seq::empty()
        }) + seq![ActionView::SetTimeout(timeout)],
    }
}

/// The permission prompt has been answered: find the readmodel and read all
/// there is, so that the first frame is complete.
pub open spec fn after_permission(p: Panel, env: Map<Seq<char>, String>) -> Next {
    if p.load !is AwaitingPermission {
        quiet(p, false)
    } else {
        let tail = seq![ActionView::ListSessions, ActionView::SetTimeout(POLL_TENTHS)];
        match home_in(env) {
            Some(home) => Next {
                panel: Panel {
                    load: LoadView::Polling {
                        path: state_path(p.state_dir, "agent-readmodel.json"@),
                        last: None,
                    },
                    seen_events_dir: Some(state_path(p.state_dir, "agent-seen-events"@)),
                    dismissed_events_dir: Some(state_path(p.state_dir, "agent-dismissed-events"@)),
                    cur_timeout: POLL_TENTHS,
                    ..p
                },
                rerender: true,
                actions: seq![
                    ActionView::ChangeHostFolder(home),
                    ActionView::ReadSeenEvents(state_path(p.state_dir, "agent-seen-events"@)),
                    ActionView::ReadSnapshot(state_path(p.state_dir, "agent-readmodel.json"@)),
                ] + tail,
            },
            None => Next {
                panel: Panel { load: LoadView::NoHomeInEnv, cur_timeout: POLL_TENTHS, ..p },
                rerender: true,
                actions: tail,
            },
        }
    }
}

/// The first active tab's position.
pub open spec fn active_position(tabs: Seq<TabView>) -> Option<usize>
    decreases tabs.len(),
{
    if tabs.len() == 0 {
        None
    } else {
        let before = active_position(tabs.drop_last());
        if before is Some {
            before
        } else if tabs.last().active {
            Some(tabs.last().position)
        } else {
            None
        }
    }
}

/// New panes: remember which terminal had the focus, and move the cursor in when
/// the panel gets the focus and out when it loses it.
pub open spec fn after_panes(p: Panel, panes: Map<usize, Seq<PaneView>>) -> Next {
    let q = Panel { panes, ..p };
    let focused = am_focused(q);
    let r = if !focused && focused_terminal(panes_here(q)) is Some {
        Panel { last_external: focused_terminal(panes_here(q)), ..q }
    } else {
        q
    };
    if focused != p.was_focused {
        quiet(
            Panel {
                selected: if focused {
                    initial_selection(r)
                } else {
                    None
                },
                follow: focused,
                was_focused: focused,
                ..r
            },
            true,
        )
    } else {
        quiet(r, p.panes != panes)
    }
}

/// The sessions of a listing. A session that was known keeps its creation time,
/// so that its slot does not drift with the rounding of the age.
pub open spec fn sessions_listed(
    known: Map<Seq<char>, SessionMeta>,
    list: Seq<SessionReport>,
    now: i64,
) -> Map<Seq<char>, SessionMeta>
    decreases list.len(),
{
    if list.len() == 0 {
        Map::empty()
    } else {
        let s = list.last();
        sessions_listed(known, list.drop_last(), now).insert(
            s.name@,
            SessionMeta {
                clients: s.clients,
                created_ms: if known.contains_key(s.name@) {
                    known[s.name@].created_ms
                } else {
                    (now - s.age_ms) as i64
                },
            },
        )
    }
}

/// Whether each session that was not known was created at a time that can be
/// told: now, less its age.
pub open spec fn ages_fit(
    known: Map<Seq<char>, SessionMeta>,
    list: Seq<SessionReport>,
    now: i64,
) -> bool {
    forall|i: int|
        0 <= i < list.len() && !known.contains_key((#[trigger] list[i]).name@) ==> i64::MIN <= now
            - list[i].age_ms <= i64::MAX
}

pub open spec fn after_sessions(p: Panel, list: Option<Vec<SessionReport>>, now: i64) -> Next {
    let sessions = match list {
        Some(l) => sessions_listed(p.sessions, l@, now),
        None => Map::empty(),
    };
    quiet(Panel { sessions, ..p }, sessions != p.sessions)
}

pub open spec fn after_snapshot(p: Panel, new: ReadView) -> Next {
    match p.load {
        LoadView::Polling { path, last } => quiet(
            Panel { load: LoadView::Polling { path, last: Some(new) }, ..p },
            !same_result(last, new),
        ),
        _ => quiet(p, false),
    }
}

pub open spec fn after_seen(p: Panel, seen: Map<Seq<char>, i64>) -> Next {
    if p.seen_events_dir is None {
        quiet(p, false)
    } else {
        quiet(Panel { seen_disk: seen, ..p }, seen != p.seen_disk)
    }
}

pub open spec fn after_command(p: Panel, context: Map<Seq<char>, String>) -> Next {
    if context.contains_key("session_id"@) {
        let sid = context["session_id"@]@;
        quiet(Panel { in_flight: p.in_flight.remove(sid), ..p }, p.in_flight.contains_key(sid))
    } else {
        quiet(p, false)
    }
}

/// The wheel moves the viewport and never the cursor.
pub open spec fn after_scroll_up(p: Panel, lines: usize) -> Next {
    let n = if lines == 0 {
        1
    } else {
        lines as int
    };
    let scroll = if p.scroll >= n {
        (p.scroll - n) as usize
    } else {
        0
    };
    quiet(Panel { scroll, ..p }, scroll != p.scroll)
}

pub open spec fn after_scroll_down(p: Panel, lines: usize) -> Next {
    let n = if lines == 0 {
        1
    } else {
        lines as int
    };
    let scroll = if p.scroll + n <= usize::MAX {
        (p.scroll + n) as usize
    } else {
        usize::MAX
    };
    quiet(Panel { scroll, ..p }, true)
}

/// What a panel makes of an event.
pub open spec fn updated(p: Panel, event: Event, now: i64) -> Next {
    match event {
        Event::PermissionRequestResult(env) => after_permission(p, env@),
        Event::ModeUpdate(mode) => quiet(Panel { mode: mode@, ..p }, p.mode != mode@),
        Event::TabUpdate(tabs) => {
            let tab = active_position(tab_views(tabs@));
            quiet(Panel { active_tab: tab, ..p }, p.active_tab != tab)
        },
        Event::PaneUpdate(manifest) => after_panes(p, manifest@),
        Event::Timer => after_timer(p),
        Event::ScrollUp(lines) => after_scroll_up(p, lines),
        Event::ScrollDown(lines) => after_scroll_down(p, lines),
        Event::LeftClick(line) => if line < 0 {
            quiet(p, false)
        } else {
            match target_at(p.row_ranges, line as usize) {
                Some(target) => after_click(p, target),
                None => quiet(p, false),
            }
        },
        Event::Key(key) => after_key(p, key, now),
        Event::RunCommandResult(context) => after_command(p, context@),
        Event::SeenEvents(seen) => after_seen(p, seen@),
        Event::Snapshot(new) => after_snapshot(p, read_view(new)),
        Event::Sessions(list) => after_sessions(p, list, now),
        Event::Other => quiet(p, false),
    }
}

} // verus!
