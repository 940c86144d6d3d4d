//! What the bar shows and does, field by field.
use super::rules;
use super::rules::{
    Action, ActionView, Bar, CellView, Coordinates, CopyDestination, Event, EventType, Face, FaceView, PartView,
    PermissionType, TabCell, TabRenderData,
};
use super::work;
use crate::dict::Dict;
use crate::host::{tab_views, InputMode, ModeInfo, ModeView, PaletteColor, PaneManifest, TabInfo, TabView};
use crate::readmodel::laws::{home_key, profile_key, readmodel_file, seen_directory, under_the_mount};
use crate::readmodel::{Agent, ReadResult};
use crate::tab_flags;
use crate::tab_flags::TabFlag;
use crate::text;
use vstd::prelude::*;

verus! {

/// Each tab has its cell, in the order of the tabs: under its name, every other one
/// in the other shade, and with the tint that is kept for its position.
pub proof fn each_tab_is_drawn_with_its_tint(b: Bar, i: int)
    requires
        0 <= i < b.tabs.len() <= usize::MAX,
    ensures
        ({
            let d = rules::tab_data(b, b.tabs.len());
            let tab = b.tabs[i];
            &&& d.tabs.len() == b.tabs.len()
            &&& d.tabs[i].index == i
            &&& d.tabs[i].is_alternate <==> i % 2 == 1
            &&& d.tabs[i].flag is Some <==> b.flags.contains_key(tab.position)
            &&& d.tabs[i].flag matches Some(f) ==> b.flags[tab.position] == f
            &&& !tab.active || b.mode.mode != InputMode::RenameTab || tab.name.len() > 0
                ==> d.tabs[i].name == tab.name
            &&& tab.active && b.mode.mode == InputMode::RenameTab && tab.name.len() == 0
                ==> d.tabs[i].name == seq![
                'E',
                'n',
                't',
                'e',
                'r',
                ' ',
                'n',
                'a',
                'm',
                'e',
                '.',
                '.',
                '.',
            ]
        }),
{
    reveal_strlit("Enter name...");
    cell_of(b, b.tabs.len(), i);
}

proof fn cell_of(b: Bar, n: nat, i: int)
    requires
        0 <= i < n <= usize::MAX,
    ensures
        rules::tab_data(b, n).tabs.len() == n,
        rules::tab_data(b, n).tabs[i] == (CellView {
            index: i as usize,
            name: rules::shown_name(b, b.tabs[i]),
            is_alternate: i % 2 == 1,
            flag: rules::flag_at(b, b.tabs[i].position),
        }),
    decreases n,
{
    cells_count(b, (n - 1) as nat);
    if i < n - 1 {
        cell_of(b, (n - 1) as nat, i);
    }
}

proof fn cells_count(b: Bar, n: nat)
    ensures
        rules::tab_data(b, n).tabs.len() == n,
    decreases n,
{
    if n > 0 {
        cells_count(b, (n - 1) as nat);
    }
}

/// The active tab is told by its position, and its swap layout is shown, but not
/// while a tab is being renamed.
pub proof fn the_active_tab_is_shown_as_such(b: Bar, n: nat, i: int)
    requires
        0 <= i < n,
        b.tabs[i].active,
        forall|j: int| i < j < n ==> !(#[trigger] b.tabs[j]).active,
    ensures
        ({
            let d = rules::tab_data(b, n);
            &&& d.active_tab_index == b.tabs[i].position
            &&& b.mode.mode != InputMode::RenameTab ==> d.active_swap_layout_name
                == b.tabs[i].active_swap_layout_name && d.is_swap_layout_dirty
                == b.tabs[i].is_swap_layout_dirty
            &&& b.mode.mode == InputMode::RenameTab ==> d.active_swap_layout_name is None
                && !d.is_swap_layout_dirty
        }),
    decreases n,
{
    if b.mode.mode == InputMode::RenameTab {
        no_layout_while_renaming(b, n);
    }
    if i < n - 1 {
        assert(!b.tabs[n - 1].active);
        the_active_tab_is_shown_as_such(b, (n - 1) as nat, i);
    }
}

/// While a tab is renamed no swap layout is shown; nor is one where no tab is active.
pub proof fn no_layout_while_renaming(b: Bar, n: nat)
    requires
        b.mode.mode == InputMode::RenameTab || forall|j: int|
            0 <= j < n ==> !(#[trigger] b.tabs[j]).active,
    ensures
        rules::tab_data(b, n).active_swap_layout_name is None,
        !rules::tab_data(b, n).is_swap_layout_dirty,
        (forall|j: int| 0 <= j < n ==> !(#[trigger] b.tabs[j]).active) ==> rules::tab_data(
            b,
            n,
        ).active_tab_index == 0,
    decreases n,
{
    if n > 0 {
        if forall|j: int| 0 <= j < n ==> !(#[trigger] b.tabs[j]).active {
            assert(!b.tabs[n - 1].active);
        }
        no_layout_while_renaming(b, (n - 1) as nat);
    }
}

/// What is drawn: of a tooltip itself, then the clipboard's messages, then the tabs,
/// if there are any.
pub proof fn the_face_follows_the_state(b: Bar)
    ensures
        rules::face(b) is Tooltip <==> b.is_tooltip,
        forall|d: CopyDestination| #[trigger]
            rules::face(b) == FaceView::ClipboardHint(d) <==> !b.is_tooltip && b.copied == Some(d),
        rules::face(b) is ClipboardError <==> !b.is_tooltip && b.copied is None && b.clipboard_failed,
        rules::face(b) is Tabs <==> !b.is_tooltip && b.copied is None && !b.clipboard_failed
            && b.tabs.len() > 0,
        rules::face(b) is Tabs ==> rules::face(b)->Tabs_0 == rules::tab_data(b, b.tabs.len()),
{
}

/// What the computed tints say: a tab asks for attention exactly where the user is in
/// another one and a terminal pane of it holds an agent whose attention is later than
/// what was seen of it; else it is busy exactly where such a pane's agent is; and no
/// other tab has a tint.
pub proof fn the_tints_say_what_the_agents_do(
    b: Bar,
    seen: Option<Dict<String, i64>>,
    size: (usize, usize),
    own_tab: Option<usize>,
    tab: usize,
)
    ensures
        ({
            let next = rules::updated(b, Event::Recompute(seen), size, own_tab);
            let marks = match seen {
                Some(m) => m@,
                None => b.seen,
            };
            let asks = b.panes.contains_key(tab) && b.active != tab + 1 && exists|i: int|
                0 <= i < b.panes[tab].len() && !(#[trigger] b.panes[tab][i]).is_plugin
                    && b.pane_agents.contains_key(b.panes[tab][i].id) && ({
                    let a = b.pane_agents[b.panes[tab][i].id];
                    a.attention_at_ms > 0 && (marks.contains_key(a.claude_id@)
                        ==> a.attention_at_ms > marks[a.claude_id@])
                });
            let works = b.panes.contains_key(tab) && exists|i: int|
                0 <= i < b.panes[tab].len() && !(#[trigger] b.panes[tab][i]).is_plugin
                    && b.pane_agents.contains_key(b.panes[tab][i].id)
                    && b.pane_agents[b.panes[tab][i].id].status is Busy;
            let flags = next.bar.flags;
            &&& flags.contains_key(tab) <==> asks || works
            &&& asks ==> flags[tab] == TabFlag::Attention
            &&& !asks && works ==> flags[tab] == TabFlag::Busy
            &&& next.rerender <==> flags != b.flags
            &&& next.bar == (Bar { is_first_run: false, seen: marks, flags, ..b })
            &&& next.actions.len() == 0
        }),
{
    let marks = match seen {
        Some(m) => m@,
        None => b.seen,
    };
    let active = b.active == tab + 1;
    let panes = b.panes[tab];
    let agents = b.pane_agents;
    if b.panes.contains_key(tab) {
        assert forall|i: int| 0 <= i < panes.len() implies (tab_flags::asks(
            #[trigger] panes[i],
            agents,
            active,
            marks,
        ) <==> !active && !panes[i].is_plugin && agents.contains_key(panes[i].id) && ({
            let a = agents[panes[i].id];
            a.attention_at_ms > 0 && (marks.contains_key(a.claude_id@) ==> a.attention_at_ms
                > marks[a.claude_id@])
        })) by {}
        assert(tab_flags::flag_of_tab(panes, agents, active, marks) == tab_flags::flag_of_tab(
            panes,
            agents,
            rules::active_position(b) == Some(tab),
            marks,
        ));
    }
}

/// From a computed tint to the screen: a tab the user is not in, with a terminal pane
/// that holds an agent with unseen attention, is drawn as asking for attention.
pub proof fn unseen_attention_is_drawn(
    b: Bar,
    seen: Option<Dict<String, i64>>,
    size: (usize, usize),
    own_tab: Option<usize>,
    i: int,
    k: int,
)
    requires
        0 <= i < b.tabs.len() <= usize::MAX,
        b.panes.contains_key(b.tabs[i].position),
        b.active != b.tabs[i].position + 1,
        0 <= k < b.panes[b.tabs[i].position].len(),
        !b.panes[b.tabs[i].position][k].is_plugin,
        b.pane_agents.contains_key(b.panes[b.tabs[i].position][k].id),
        b.pane_agents[b.panes[b.tabs[i].position][k].id].attention_at_ms > 0,
        ({
            let a = b.pane_agents[b.panes[b.tabs[i].position][k].id];
            let marks = match seen {
                Some(m) => m@,
                None => b.seen,
            };
            marks.contains_key(a.claude_id@) ==> a.attention_at_ms > marks[a.claude_id@]
        }),
        !b.is_tooltip,
        b.copied is None,
        !b.clipboard_failed,
    ensures
        ({
            let face = rules::face(
                rules::updated(b, Event::Recompute(seen), size, own_tab).bar,
            );
            &&& face is Tabs
            &&& face->Tabs_0.tabs[i].flag == Some(TabFlag::Attention)
        }),
{
    let next = rules::updated(b, Event::Recompute(seen), size, own_tab);
    the_tints_say_what_the_agents_do(b, seen, size, own_tab, b.tabs[i].position);
    each_tab_is_drawn_with_its_tint(next.bar, i);
    the_face_follows_the_state(next.bar);
}

/// What a snapshot says of a pane: an agent is kept for it exactly where one of this
/// session is in it; with the latest attention there is, under the first agent that
/// raised it; busy where any of them is, and else in the state of the first.
pub proof fn a_snapshot_is_kept_by_pane(
    b: Bar,
    agents: Vec<Agent>,
    size: (usize, usize),
    own_tab: Option<usize>,
    pane: u32,
    first: int,
    latest: int,
)
    requires
        0 <= first < agents.len(),
        0 <= latest < agents.len(),
        forall|j: int| 0 <= j < first ==> !of_pane(b, #[trigger] agents[j], pane),
        forall|j: int|
            0 <= j < agents.len() && of_pane(b, #[trigger] agents[j], pane)
                ==> agents[j].attention_at_ms <= agents[latest].attention_at_ms,
        forall|j: int|
            0 <= j < latest && of_pane(b, #[trigger] agents[j], pane) ==> agents[j].attention_at_ms
                < agents[latest].attention_at_ms,
    ensures
        ({
            let kept = rules::updated(
                b,
                Event::Snapshot(ReadResult::Loaded(agents)),
                size,
                own_tab,
            ).bar.pane_agents;
            &&& kept.contains_key(pane) <==> exists|j: int|
                0 <= j < agents.len() && of_pane(b, #[trigger] agents[j], pane)
            &&& of_pane(b, agents[first], pane) && of_pane(b, agents[latest], pane) ==> {
                &&& kept[pane].attention_at_ms == agents[latest].attention_at_ms
                &&& kept[pane].claude_id == agents[latest].session_id
                &&& (exists|j: int|
                    0 <= j < agents.len() && of_pane(b, #[trigger] agents[j], pane)
                        && agents[j].status is Busy) ==> kept[pane].status is Busy
                &&& (forall|j: int|
                    0 <= j < agents.len() && of_pane(b, #[trigger] agents[j], pane)
                        ==> agents[j].status !is Busy) ==> kept[pane].status
                    == agents[first].status
            }
        }),
{
    let s = rules::session_of(b);
    tab_flags::projection_sums_up(agents@, s, pane);
    assert forall|j: int| 0 <= j < agents.len() implies (of_pane(b, #[trigger] agents@[j], pane)
        <==> tab_flags::in_pane(agents@[j], s, pane)) by {}
    if of_pane(b, agents[first], pane) && of_pane(b, agents[latest], pane) {
        assert(tab_flags::in_pane(agents@[first], s, pane));
        assert(tab_flags::in_pane(agents@[latest], s, pane));
        latest_is_kept(agents@, s, pane, latest);
        if forall|j: int|
            0 <= j < agents.len() && of_pane(b, #[trigger] agents[j], pane) ==> agents[j].status !is Busy {
            first_is_kept(agents@, s, pane, first);
        }
    }
}

/// An agent of this bar's session in this pane.
pub open spec fn of_pane(b: Bar, a: Agent, pane: u32) -> bool {
    &&& a.zellij_pane_id == Some(pane)
    &&& a.zellij_session is Some
    &&& match b.mode.session_name {
        Some(s) => a.zellij_session->0@ == s,
        None => a.zellij_session->0@ == Seq::<char>::empty(),
    }
}

proof fn latest_is_kept(agents: Seq<Agent>, s: Seq<char>, pane: u32, latest: int)
    requires
        0 <= latest < agents.len(),
        tab_flags::in_pane(agents[latest], s, pane),
        forall|j: int|
            0 <= j < agents.len() && tab_flags::in_pane(#[trigger] agents[j], s, pane)
                ==> agents[j].attention_at_ms <= agents[latest].attention_at_ms,
        forall|j: int|
            0 <= j < latest && tab_flags::in_pane(#[trigger] agents[j], s, pane)
                ==> agents[j].attention_at_ms < agents[latest].attention_at_ms,
    ensures
        tab_flags::projected(agents, s).contains_key(pane),
        tab_flags::projected(agents, s)[pane].attention_at_ms == agents[latest].attention_at_ms,
        tab_flags::projected(agents, s)[pane].claude_id == agents[latest].session_id,
    decreases agents.len(),
{
    let rest = agents.drop_last();
    let n = agents.len() - 1;
    assert forall|j: int| 0 <= j < rest.len() implies #[trigger] rest[j] == agents[j] by {}
    if latest < n {
        assert(rest[latest] == agents[latest]);
        latest_is_kept(rest, s, pane, latest);
        if tab_flags::in_pane(agents[n], s, pane) {
            assert(agents[n].attention_at_ms <= agents[latest].attention_at_ms);
        }
    } else {
        tab_flags::projection_sums_up(rest, s, pane);
        if tab_flags::projected(rest, s).contains_key(pane) {
            let k = choose|k: int|
                0 <= k < rest.len() && tab_flags::in_pane(#[trigger] rest[k], s, pane)
                    && rest[k].attention_at_ms == tab_flags::projected(
                    rest,
                    s,
                )[pane].attention_at_ms && rest[k].session_id == tab_flags::projected(
                    rest,
                    s,
                )[pane].claude_id;
            assert(tab_flags::in_pane(agents[k], s, pane));
        }
    }
}

proof fn first_is_kept(agents: Seq<Agent>, s: Seq<char>, pane: u32, first: int)
    requires
        0 <= first < agents.len(),
        tab_flags::in_pane(agents[first], s, pane),
        forall|j: int| 0 <= j < first ==> !tab_flags::in_pane(#[trigger] agents[j], s, pane),
        forall|j: int|
            0 <= j < agents.len() && tab_flags::in_pane(#[trigger] agents[j], s, pane)
                ==> agents[j].status !is Busy,
    ensures
        tab_flags::projected(agents, s).contains_key(pane),
        tab_flags::projected(agents, s)[pane].status == agents[first].status,
    decreases agents.len(),
{
    let rest = agents.drop_last();
    let n = agents.len() - 1;
    assert forall|j: int| 0 <= j < rest.len() implies #[trigger] rest[j] == agents[j] by {}
    if first < n {
        assert(rest[first] == agents[first]);
        first_is_kept(rest, s, pane, first);
        if tab_flags::in_pane(agents[n], s, pane) {
            assert(agents[n].status !is Busy);
        }
    } else {
        tab_flags::projection_sums_up(rest, s, pane);
        if tab_flags::projected(rest, s).contains_key(pane) {
            let k = choose|k: int|
                0 <= k < rest.len() && tab_flags::in_pane(#[trigger] rest[k], s, pane);
            assert(tab_flags::in_pane(agents[k], s, pane));
        }
    }
}

/// A snapshot changes nothing but which agents are in which panes, and one that could
/// not be read has none.
pub proof fn a_snapshot_touches_nothing_else(
    b: Bar,
    read: ReadResult,
    size: (usize, usize),
    own_tab: Option<usize>,
)
    ensures
        ({
            let next = rules::updated(b, Event::Snapshot(read), size, own_tab);
            &&& next.bar == (Bar {
                is_first_run: false,
                pane_agents: next.bar.pane_agents,
                ..b
            })
            &&& !next.rerender
            &&& next.actions.len() == 0
            &&& read !is Loaded ==> forall|pane: u32| !next.bar.pane_agents.contains_key(pane)
        }),
{
}

/// What was read of the seen events is kept, and nothing else changes.
pub proof fn seen_events_are_kept(
    b: Bar,
    seen: Dict<String, i64>,
    size: (usize, usize),
    own_tab: Option<usize>,
)
    ensures
        ({
            let next = rules::updated(b, Event::SeenEvents(seen), size, own_tab);
            &&& next.bar == (Bar { is_first_run: false, seen: seen@, ..b })
            &&& !next.rerender
            &&& next.actions.len() == 0
        }),
{
}

/// The wheel up goes one tab to the right, the wheel down one to the left, each as far
/// as there are tabs.
pub proof fn the_wheel_goes_one_tab_on(b: Bar, size: (usize, usize), own_tab: Option<usize>)
    requires
        !b.is_tooltip,
        1 <= b.active <= b.tabs.len() <= u32::MAX,
    ensures
        ({
            let up = rules::updated(b, Event::ScrollUp, size, own_tab);
            let down = rules::updated(b, Event::ScrollDown, size, own_tab);
            &&& up.actions.len() == 1
            &&& down.actions.len() == 1
            &&& up.actions[0] is SwitchTabTo
            &&& down.actions[0] is SwitchTabTo
            &&& b.active < b.tabs.len() ==> up.actions[0]->SwitchTabTo_0 == b.active + 1
            &&& b.active == b.tabs.len() ==> up.actions[0]->SwitchTabTo_0 == b.active
            &&& b.active > 1 ==> down.actions[0]->SwitchTabTo_0 == b.active - 1
            &&& b.active == 1 ==> down.actions[0]->SwitchTabTo_0 == 1
            &&& up.bar == (Bar { is_first_run: false, ..b })
            &&& down.bar == (Bar { is_first_run: false, ..b })
            &&& !up.rerender
            &&& !down.rerender
        }),
{
}

/// A click goes to the tab it hits, and nowhere where it hits none.
pub proof fn a_click_goes_to_its_tab(
    b: Bar,
    hit: Option<usize>,
    size: (usize, usize),
    own_tab: Option<usize>,
)
    requires
        hit matches Some(t) ==> t <= u32::MAX,
    ensures
        ({
            let next = rules::updated(b, Event::LeftClick(hit), size, own_tab);
            &&& next.bar == (Bar { is_first_run: false, ..b })
            &&& !next.rerender
            &&& b.is_tooltip || hit is None ==> next.actions.len() == 0
            &&& !b.is_tooltip && hit is Some ==> next.actions.len() == 1 && next.actions[0]
                is SwitchTabTo && next.actions[0]->SwitchTabTo_0 == hit->0
        }),
{
}

/// What the clipboard tells is kept until there is input, and drawn again only where
/// it changes.
pub proof fn the_clipboard_is_told_of(
    b: Bar,
    d: CopyDestination,
    size: (usize, usize),
    own_tab: Option<usize>,
)
    requires
        !b.is_tooltip,
    ensures
        ({
            let copy = rules::updated(b, Event::CopyToClipboard(d), size, own_tab);
            let fail = rules::updated(b, Event::SystemClipboardFailure, size, own_tab);
            let input = rules::updated(b, Event::InputReceived, size, own_tab);
            &&& copy.bar == (Bar { is_first_run: false, copied: Some(d), ..b })
            &&& copy.rerender <==> b.copied != Some(d)
            &&& fail.bar == (Bar { is_first_run: false, clipboard_failed: true, ..b })
            &&& fail.rerender
            &&& input.bar == (Bar {
                is_first_run: false,
                copied: None,
                clipboard_failed: false,
                ..b
            })
            &&& input.rerender <==> b.copied is Some || b.clipboard_failed
            &&& copy.actions.len() == 0
            &&& fail.actions.len() == 0
            &&& input.actions.len() == 0
        }),
{
}

/// A list of tabs is taken over with its first active tab, counted from one, and that
/// tab's size. A tooltip moves along; the bar has its tints computed where another tab
/// is active. It is drawn again where anything differs.
pub proof fn tabs_are_taken_over(
    b: Bar,
    tabs: Vec<TabInfo>,
    size: (usize, usize),
    own_tab: Option<usize>,
    i: int,
)
    requires
        0 <= i < tabs.len(),
        tabs[i].active,
        forall|j: int| 0 <= j < i ==> !(#[trigger] tabs[j]).active,
    ensures
        ({
            let next = rules::updated(b, Event::TabUpdate(tabs), size, own_tab);
            &&& next.bar.active == i + 1
            &&& next.bar == (Bar {
                is_first_run: false,
                tabs: tab_views(tabs@),
                active: next.bar.active,
                rows: tabs[i].display_area_rows,
                cols: tabs[i].display_area_columns,
                ..b
            })
            &&& next.rerender <==> b.active != i + 1 || b.tabs != tab_views(tabs@)
            &&& b.active == i + 1 ==> next.actions.len() == 0
            &&& b.active != i + 1 && !b.is_tooltip ==> next.actions.len() == 1 && next.actions[0]
                == ActionView::RecomputeTabFlags(b.seen_dir)
            &&& b.active != i + 1 && b.is_tooltip && b.plugin is None ==> next.actions.len() == 0
            &&& b.active != i + 1 && b.is_tooltip && b.plugin is Some ==> next.actions.len() == 1
                && next.actions[0] is BreakPaneToTab && next.actions[0]->BreakPaneToTab_plugin_id
                == b.plugin->0 && next.actions[0]->tab_index == i
                && !next.actions[0]->change_focus
        }),
{
    assert(tabs.len() <= usize::MAX);
    first_active(tab_views(tabs@), i);
    assert(i + 1 <= tabs.len());
}

proof fn first_active(tabs: Seq<TabView>, i: int)
    requires
        0 <= i < tabs.len(),
        tabs[i].active,
        forall|j: int| 0 <= j < i ==> !(#[trigger] tabs[j]).active,
    ensures
        rules::active_place(tabs) == Some(i),
    decreases tabs.len(),
{
    let rest = tabs.drop_last();
    if i < rest.len() {
        first_active(rest, i);
    } else {
        none_active(rest);
    }
}

proof fn none_active(tabs: Seq<TabView>)
    requires
        forall|j: int| 0 <= j < tabs.len() ==> !(#[trigger] tabs[j]).active,
    ensures
        rules::active_place(tabs) is None,
    decreases tabs.len(),
{
    if tabs.len() > 0 {
        assert(!tabs[tabs.len() - 1].active);
        none_active(tabs.drop_last());
    }
}

/// A list of tabs without an active one changes nothing.
pub proof fn tabs_without_an_active_one_are_ignored(
    b: Bar,
    tabs: Vec<TabInfo>,
    size: (usize, usize),
    own_tab: Option<usize>,
)
    requires
        forall|j: int| 0 <= j < tabs.len() ==> !(#[trigger] tabs[j]).active,
    ensures
        ({
            let next = rules::updated(b, Event::TabUpdate(tabs), size, own_tab);
            &&& next.bar == (Bar { is_first_run: false, ..b })
            &&& !next.rerender
            &&& next.actions.len() == 0
        }),
{
    none_active(tab_views(tabs@));
}

/// Panes: the bar takes over panes that differ and has its tints computed; only with
/// a key for the tooltip does it look for one, and for its own tab.
pub proof fn panes_are_taken_over(
    b: Bar,
    manifest: PaneManifest,
    size: (usize, usize),
    own_tab: Option<usize>,
)
    ensures
        ({
            let next = rules::updated(b, Event::PaneUpdate(manifest), size, own_tab);
            let shows = exists|tab: usize, i: int|
                manifest@.contains_key(tab) && 0 <= i < manifest@[tab].len() && (
                #[trigger] manifest@[tab][i]).pane_x != manifest@[tab][i].pane_content_x
                    && manifest@[tab][i].plugin_url == Some(compact_bar_url());
            &&& next.bar.panes == (if b.is_tooltip {
                b.panes
            } else {
                manifest@
            })
            &&& b.toggle_key is None ==> next.bar.tooltip_is_active == b.tooltip_is_active
                && next.bar.own_tab == b.own_tab
            &&& b.toggle_key is Some ==> next.bar.tooltip_is_active == shows && next.bar.own_tab
                == own_tab
            &&& next.bar == (Bar {
                is_first_run: false,
                panes: next.bar.panes,
                tooltip_is_active: next.bar.tooltip_is_active,
                own_tab: next.bar.own_tab,
                ..b
            })
            &&& next.rerender <==> next.bar.tooltip_is_active != b.tooltip_is_active
            &&& !b.is_tooltip && b.panes != manifest@ ==> next.actions.len() == 1
                && next.actions[0] == ActionView::RecomputeTabFlags(b.seen_dir)
            &&& b.is_tooltip || b.panes == manifest@ ==> next.actions.len() == 0
        }),
{
    reveal_strlit("zellij:compact-bar");
    let panes = manifest@;
    assert("zellij:compact-bar"@ =~= compact_bar_url());
    if rules::tooltip_present(panes) {
        let (tab, i) = choose|tab: usize, i: int|
            panes.contains_key(tab) && 0 <= i < panes[tab].len() && rules::is_tooltip_pane(
                #[trigger] panes[tab][i],
            );
        assert(panes[tab][i].pane_x != panes[tab][i].pane_content_x);
    }
    if exists|tab: usize, i: int|
        panes.contains_key(tab) && 0 <= i < panes[tab].len() && (#[trigger] panes[tab][i]).pane_x
            != panes[tab][i].pane_content_x && panes[tab][i].plugin_url == Some(compact_bar_url()) {
        let (tab, i) = choose|tab: usize, i: int|
            panes.contains_key(tab) && 0 <= i < panes[tab].len() && (
            #[trigger] panes[tab][i]).pane_x != panes[tab][i].pane_content_x
                && panes[tab][i].plugin_url == Some(compact_bar_url());
        assert(rules::is_tooltip_pane(panes[tab][i]));
    }
}

/// The address of the bar's own plugin.
pub open spec fn compact_bar_url() -> Seq<char> {
    seq!['z', 'e', 'l', 'l', 'i', 'j', ':', 'c', 'o', 'm', 'p', 'a', 'c', 't', '-', 'b', 'a', 'r']
}

/// When the timer fires, the snapshot and the seen events are read where their places
/// are known, then the tints are computed, and the timer is set to one and a half
/// seconds. Nothing else happens.
pub proof fn the_timer_reads_everything_again(b: Bar, size: (usize, usize), own_tab: Option<usize>)
    ensures
        ({
            let next = rules::updated(b, Event::Timer, size, own_tab);
            let a = next.actions;
            let n = a.len();
            &&& next.bar == (Bar { is_first_run: false, ..b })
            &&& !next.rerender
            &&& n == 2 + (if b.snapshot_path is Some {
                1int
            } else {
                0
            }) + (if b.seen_dir is Some {
                1int
            } else {
                0
            })
            &&& a[n - 1] == ActionView::SetTimeout(15)
            &&& a[n - 2] == ActionView::RecomputeTabFlags(b.seen_dir)
            &&& b.seen_dir matches Some(d) ==> a[n - 3] == ActionView::ReadSeenEvents(d)
            &&& b.snapshot_path matches Some(p) ==> a[0] == ActionView::ReadSnapshot(p)
        }),
{
}

/// The modes in which no tooltip is shown.
pub open spec fn is_in_the_way(mode: InputMode) -> bool {
    mode is Locked || mode is EnterSearch || mode is RenameTab || mode is RenamePane
        || mode is Prompt || mode is Tmux || mode is CopyMode
}

/// A mode is taken over, with the key bindings known before where it has none, and
/// drawn again where it differs. The bar launches a tooltip in every mode but the base
/// mode and those in which it would be in the way, if it has a key for it. A tooltip
/// closes in exactly those, unless it is to stay, and else moves and is renamed with
/// the mode.
pub proof fn a_mode_brings_its_tooltip(
    b: Bar,
    mode: ModeInfo,
    size: (usize, usize),
    own_tab: Option<usize>,
)
    requires
        size.0 <= usize::MAX - 4,
        size.1 <= usize::MAX - 4,
    ensures
        ({
            let next = rules::updated(b, Event::ModeUpdate(mode), size, own_tab);
            let base = match mode.base_mode {
                Some(m) => m,
                None => InputMode::Normal,
            };
            let ends = mode.mode == base || is_in_the_way(mode.mode);
            &&& next.bar.keybinds == (if mode.keybinds@.len() == 0 {
                b.keybinds
            } else {
                mode.keybinds@
            })
            &&& next.bar.mode.mode == mode.mode
            &&& next.bar.mode.base_mode == mode.base_mode
            &&& next.bar.mode.style == mode.style
            &&& next.bar.mode.keybinds == next.bar.keybinds
            &&& next.bar == (Bar {
                is_first_run: false,
                mode: next.bar.mode,
                keybinds: next.bar.keybinds,
                ..b
            })
            &&& next.rerender <==> next.bar.mode != b.mode
            &&& !b.is_tooltip && (ends || b.toggle_key is None) ==> next.actions.len() == 0
            &&& !b.is_tooltip && !ends && b.toggle_key is Some ==> {
                &&& next.actions.len() == 1
                &&& next.actions[0] is PipeMessage
                &&& next.actions[0]->name == launch_message()
                &&& next.actions[0]->PipeMessage_title == title_of(mode.mode)
                &&& goes_to_a_tooltip(next.actions[0], b)
                &&& sits_above_the_bar(next.actions[0]->PipeMessage_coordinates, b.rows, size)
                &&& forall|key: Seq<char>| !next.actions[0]->args.contains_key(key)
            }
            &&& b.is_tooltip && !b.persist && ends ==> next.actions == seq![ActionView::CloseSelf]
            &&& b.is_tooltip && (b.persist || (!ends && mode.mode != b.mode.mode)) && b.plugin is Some
                ==> {
                &&& next.actions.len() == 2
                &&& next.actions[0] is ChangeCoordinates
                &&& next.actions[0]->ChangeCoordinates_plugin_id == b.plugin->0
                &&& sits_above_the_bar(next.actions[0]->ChangeCoordinates_coordinates, b.rows, size)
                &&& next.actions[1] is RenamePane
                &&& next.actions[1]->RenamePane_plugin_id == b.plugin->0
                &&& next.actions[1]->RenamePane_title == title_of(mode.mode)
            }
            &&& b.is_tooltip && !b.persist && !ends && mode.mode == b.mode.mode
                ==> next.actions.len() == 0
        }),
{
    names_are_those_of_the_modes(mode.mode);
    reveal_strlit("launch_tooltip_if_not_launched");
    reveal_strlit("zellij:OWN_URL");
    reveal_strlit("is_tooltip");
    reveal_strlit("true");
    assert("launch_tooltip_if_not_launched"@ =~= launch_message());
    assert("zellij:OWN_URL"@ =~= own_url());
    assert("is_tooltip"@ =~= tooltip_switch());
    assert("true"@ =~= seq!['t', 'r', 'u', 'e']);
}

pub open spec fn launch_message() -> Seq<char> {
    seq![
        'l', 'a', 'u', 'n', 'c', 'h', '_', 't', 'o', 'o', 'l', 't', 'i', 'p', '_', 'i', 'f', '_',
        'n', 'o', 't', '_', 'l', 'a', 'u', 'n', 'c', 'h', 'e', 'd',
    ]
}

/// The address under which a plugin reaches other instances of itself.
pub open spec fn own_url() -> Seq<char> {
    seq!['z', 'e', 'l', 'l', 'i', 'j', ':', 'O', 'W', 'N', '_', 'U', 'R', 'L']
}

pub open spec fn tooltip_switch() -> Seq<char> {
    seq!['i', 's', '_', 't', 'o', 'o', 'l', 't', 'i', 'p']
}

/// A message to this plugin's own instances that launches a tooltip with the bar's
/// configuration.
pub open spec fn goes_to_a_tooltip(a: ActionView, b: Bar) -> bool {
    &&& a->url == own_url()
    &&& a->PipeMessage_config.contains_key(tooltip_switch())
    &&& a->PipeMessage_config[tooltip_switch()] == seq!['t', 'r', 'u', 'e']
    &&& forall|key: Seq<char>|
        key != tooltip_switch() ==> (#[trigger] a->PipeMessage_config.contains_key(key)
            <==> b.config.contains_key(key)) && (b.config.contains_key(key)
            ==> a->PipeMessage_config[key] == b.config[key])
}

/// A framed pane at the left, two columns in, whose lower edge leaves the bar and a
/// line free, or that starts at the top where the screen is too low.
pub open spec fn sits_above_the_bar(c: Coordinates, rows: usize, size: (usize, usize)) -> bool {
    &&& c.x == 2
    &&& c.width == size.1 + 4
    &&& c.height == size.0 + 2
    &&& c.y + c.height + 2 == rows || (c.y == 0 && c.height + 2 > rows)
    &&& c.pinned
    &&& !c.borderless
}

/// The titles of the modes.
pub open spec fn title_of(mode: InputMode) -> Seq<char> {
    match mode {
        InputMode::Normal => seq!['N', 'o', 'r', 'm', 'a', 'l'],
        InputMode::Locked => seq!['L', 'o', 'c', 'k', 'e', 'd'],
        InputMode::Resize => seq!['R', 'e', 's', 'i', 'z', 'e'],
        InputMode::Pane => seq!['P', 'a', 'n', 'e'],
        InputMode::Tab => seq!['T', 'a', 'b'],
        InputMode::Scroll => seq!['S', 'c', 'r', 'o', 'l', 'l'],
        InputMode::EnterSearch => seq!['E', 'n', 't', 'e', 'r', 'S', 'e', 'a', 'r', 'c', 'h'],
        InputMode::Search => seq!['S', 'e', 'a', 'r', 'c', 'h'],
        InputMode::RenameTab => seq!['R', 'e', 'n', 'a', 'm', 'e', 'T', 'a', 'b'],
        InputMode::RenamePane => seq!['R', 'e', 'n', 'a', 'm', 'e', 'P', 'a', 'n', 'e'],
        InputMode::Session => seq!['S', 'e', 's', 's', 'i', 'o', 'n'],
        InputMode::Move => seq!['M', 'o', 'v', 'e'],
        InputMode::Prompt => seq!['P', 'r', 'o', 'm', 'p', 't'],
        InputMode::Tmux => seq!['T', 'm', 'u', 'x'],
        InputMode::CopyMode => seq!['C', 'o', 'p', 'y', 'M', 'o', 'd', 'e'],
    }
}

/// A mode is titled with its own name.
pub proof fn names_are_those_of_the_modes(mode: InputMode)
    ensures
        rules::mode_name(mode) == title_of(mode),
{
    reveal_strlit("Normal");
    reveal_strlit("Locked");
    reveal_strlit("Resize");
    reveal_strlit("Pane");
    reveal_strlit("Tab");
    reveal_strlit("Scroll");
    reveal_strlit("EnterSearch");
    reveal_strlit("Search");
    reveal_strlit("RenameTab");
    reveal_strlit("RenamePane");
    reveal_strlit("Session");
    reveal_strlit("Move");
    reveal_strlit("Prompt");
    reveal_strlit("Tmux");
    reveal_strlit("CopyMode");
    assert(rules::mode_name(mode) =~= title_of(mode));
}

/// Key bindings that come alone are kept, and stand in the mode unless there are none.
pub proof fn key_bindings_are_taken_over(
    b: Bar,
    keybinds: Vec<u8>,
    size: (usize, usize),
    own_tab: Option<usize>,
)
    ensures
        ({
            let next = rules::updated(b, Event::InitialKeybinds(keybinds), size, own_tab);
            &&& next.bar.keybinds == keybinds@
            &&& keybinds@.len() > 0 ==> next.bar.mode.keybinds == keybinds@
            &&& keybinds@.len() == 0 ==> next.bar.mode == b.mode
            &&& next.bar.mode.mode == b.mode.mode
            &&& next.bar.mode.session_name == b.mode.session_name
            &&& next.bar == (Bar {
                is_first_run: false,
                mode: next.bar.mode,
                keybinds: keybinds@,
                ..b
            })
            &&& next.rerender
            &&& next.actions.len() == 0
        }),
{
}

pub open spec fn toggle_name() -> Seq<char> {
    seq!['t', 'o', 'g', 'g', 'l', 'e', '_', 't', 'o', 'o', 'l', 't', 'i', 'p']
}

pub open spec fn persisted_name() -> Seq<char> {
    seq![
        't', 'o', 'g', 'g', 'l', 'e', '_', 'p', 'e', 'r', 's', 'i', 's', 't', 'e', 'd', '_', 't',
        'o', 'o', 'l', 't', 'i', 'p',
    ]
}

/// The message of the key: it launches a tooltip that stays, from the bar in the tab
/// in use, for the client whose number it carries. A tooltip that has just been
/// launched stays by the message that it gets, and one that was there closes by it.
/// Every other message is ignored.
pub proof fn the_key_toggles_the_tooltip(
    b: Bar,
    name: Seq<char>,
    payload: Option<Seq<char>>,
    is_private: bool,
    size: (usize, usize),
)
    requires
        size.0 <= usize::MAX - 4,
        size.1 <= usize::MAX - 4,
    ensures
        ({
            let next = rules::after_pipe(b, name, payload, is_private, size);
            let here = b.own_tab is Some && (b.own_tab->0 + 1 == b.active || (b.own_tab->0 == 0
                && b.active == 0));
            let ours = payload is Some && payload->0 == text::decimal(b.client as nat);
            let told = b.is_tooltip && is_private && name == persisted_name();
            let asked = !b.is_tooltip && is_private && name == toggle_name() && b.toggle_key is Some
                && here && ours;
            &&& !next.rerender
            &&& next.bar == (Bar { persist: b.persist || (told && b.is_first_run), ..b })
            &&& told && !b.is_first_run ==> next.actions == seq![ActionView::CloseSelf]
            &&& told && b.is_first_run ==> next.actions.len() == 0
            &&& asked ==> {
                &&& next.actions.len() == 1
                &&& next.actions[0] is PipeMessage
                &&& next.actions[0]->name == persisted_name()
                &&& next.actions[0]->PipeMessage_title == title_of(b.mode.mode)
                &&& goes_to_a_tooltip(next.actions[0], b)
                &&& sits_above_the_bar(next.actions[0]->PipeMessage_coordinates, b.rows, size)
                &&& forall|key: Seq<char>|
                    #[trigger] next.actions[0]->args.contains_key(key) <==> key == seq![
                        'p',
                        'e',
                        'r',
                        's',
                        'i',
                        's',
                        't',
                    ]
            }
            &&& !told && !asked ==> next.actions.len() == 0
        }),
{
    names_are_those_of_the_modes(b.mode.mode);
    reveal_strlit("toggle_tooltip");
    reveal_strlit("toggle_persisted_tooltip");
    reveal_strlit("zellij:OWN_URL");
    reveal_strlit("is_tooltip");
    reveal_strlit("true");
    reveal_strlit("persist");
    assert("toggle_tooltip"@ =~= toggle_name());
    assert("toggle_persisted_tooltip"@ =~= persisted_name());
    assert("zellij:OWN_URL"@ =~= own_url());
    assert("is_tooltip"@ =~= tooltip_switch());
    assert("true"@ =~= seq!['t', 'r', 'u', 'e']);
    assert("persist"@ =~= seq!['p', 'e', 'r', 's', 'i', 's', 't']);
    assert(persisted_name().len() != toggle_name().len());
}

/// Loading takes over the configuration and who the bar is. It is a tooltip exactly
/// where the configuration switches that on; only the bar takes a key from it, binds
/// it, and asks for permissions. A tooltip hears only of modes, tabs and key bindings.
pub proof fn loading_takes_over_the_configuration(
    b: Bar,
    config: Map<Seq<char>, Seq<char>>,
    plugin: u32,
    client: u16,
)
    ensures
        ({
            let next = rules::loaded(b, config, plugin, client);
            let key = seq!['t', 'o', 'o', 'l', 't', 'i', 'p'];
            let q = next.bar;
            let a = next.actions;
            &&& q.is_tooltip <==> config.contains_key(tooltip_switch())
                && config[tooltip_switch()] == seq!['t', 'r', 'u', 'e']
            &&& q.is_tooltip || !config.contains_key(key) ==> q.toggle_key == b.toggle_key
            &&& !q.is_tooltip && config.contains_key(key) ==> q.toggle_key == Some(config[key])
            &&& q.is_first_run <==> q.is_tooltip || b.is_first_run
            &&& q == (Bar {
                config,
                plugin: Some(plugin),
                client,
                is_tooltip: q.is_tooltip,
                toggle_key: q.toggle_key,
                is_first_run: q.is_first_run,
                ..b
            })
            &&& !next.rerender
            &&& a[0] is Subscribe
            &&& q.is_tooltip ==> a.len() == 1 && forall|e: EventType|
                #[trigger] a[0]->Subscribe_0.contains(e) <==> e is ModeUpdate || e is TabUpdate
                    || e is InitialKeybinds
            &&& !q.is_tooltip ==> {
                &&& a.len() == (if q.toggle_key is Some {
                    3int
                } else {
                    2
                })
                &&& forall|e: EventType| #[trigger] a[0]->Subscribe_0.contains(e)
                &&& a[a.len() - 1] is RequestPermissions
                &&& forall|p: PermissionType| #[trigger]
                    a[a.len() - 1]->RequestPermissions_0.contains(p)
                &&& q.toggle_key matches Some(k) ==> a[1] is Reconfigure && a[1]->Reconfigure_config
                    == rules::toggle_binding(k, client) && !a[1]->write_to_disk
            }
        }),
{
    reveal_strlit("is_tooltip");
    reveal_strlit("true");
    reveal_strlit("tooltip");
    reveal_strlit("false");
    assert("is_tooltip"@ =~= tooltip_switch());
    assert("true"@ =~= seq!['t', 'r', 'u', 'e']);
    assert("tooltip"@ =~= seq!['t', 'o', 'o', 'l', 't', 'i', 'p']);
    assert("false"@.len() == 5);
    let next = rules::loaded(b, config, plugin, client);
    let told = next.actions[0]->Subscribe_0;
    if next.bar.is_tooltip {
        assert(told[0] is ModeUpdate && told[1] is TabUpdate && told[2] is InitialKeybinds);
    } else {
        assert(told[0] is TabUpdate && told[1] is PaneUpdate && told[2] is ModeUpdate && told[3]
            is Mouse && told[4] is CopyToClipboard && told[5] is InputReceived && told[6]
            is SystemClipboardFailure && told[7] is InitialKeybinds && told[8] is Timer && told[9]
            is PermissionRequestResult);
        let asked = next.actions[next.actions.len() - 1]->RequestPermissions_0;
        assert(asked[0] is ReadApplicationState && asked[1] is FullHdAccess && asked[2]
            is ReadSessionEnvironmentVariables);
    }
}

/// Whether a text stands somewhere in another.
pub open spec fn stands_in(part: Seq<char>, whole: Seq<char>, at: int) -> bool {
    0 <= at && at + part.len() <= whole.len() && whole.subrange(at, at + part.len()) == part
}

/// The key binding binds the key, tells the plugin which key it was, and carries the
/// number of the client.
pub proof fn the_binding_names_the_key_and_the_client(key: Seq<char>, client: u16) -> (at: (
    int,
    int,
    int,
))
    ensures
        ({
            let whole = rules::toggle_binding(key, client);
            &&& stands_in(seq!['b', 'i', 'n', 'd', ' ', '"'] + key + seq!['"', ' ', '{'], whole, at.0)
            &&& stands_in(
                seq!['t', 'o', 'o', 'l', 't', 'i', 'p', ' ', '"'] + key + seq!['"'],
                whole,
                at.1,
            )
            &&& stands_in(
                seq!['p', 'a', 'y', 'l', 'o', 'a', 'd', ' ', '"'] + text::decimal(client as nat)
                    + seq!['"'],
                whole,
                at.2,
            )
            &&& at.0 < at.1 < at.2
        }),
{
    reveal_strlit("\n        keybinds {\n            shared {\n                bind \"");
    reveal_strlit(
        "\" {\n                  MessagePlugin \"compact-bar\" {\n                      name \"toggle_tooltip\"\n                      tooltip \"",
    );
    reveal_strlit("\"\n                      payload \"");
    reveal_strlit("\"\n                  }\n                }\n            }\n        }\n    ");
    let whole = rules::toggle_binding(key, client);
    let digits = text::decimal(client as nat);
    let first = "\n        keybinds {\n            shared {\n                bind \""@.len() - 6;
    let second = first + 6 + key.len()
        + "\" {\n                  MessagePlugin \"compact-bar\" {\n                      name \"toggle_tooltip\"\n                      tooltip \""@.len()
        - 9;
    let third = second + 9 + key.len() + "\"\n                      payload \""@.len() - 9;
    let a = seq!['b', 'i', 'n', 'd', ' ', '"'] + key + seq!['"', ' ', '{'];
    let b = seq!['t', 'o', 'o', 'l', 't', 'i', 'p', ' ', '"'] + key + seq!['"'];
    let c = seq!['p', 'a', 'y', 'l', 'o', 'a', 'd', ' ', '"'] + digits + seq!['"'];
    assert(whole.subrange(first, first + a.len()) =~= a);
    assert(whole.subrange(second, second + b.len()) =~= b);
    assert(whole.subrange(third, third + c.len()) =~= c);
    (first, second, third)
}

/// The background goes behind the text, in the colour's own notation: three numbers
/// for one of many colours, one for one of the palette.
pub proof fn the_background_is_written_behind_the_line(
    line: Seq<char>,
    r: u8,
    g: u8,
    b: u8,
)
    ensures
        rules::on_background(line, PaletteColor::Rgb(r, g, b)) == line + seq![
            '\u{1b}',
            '[',
            '4',
            '8',
            ';',
            '2',
            ';',
        ] + text::decimal(r as nat) + seq![';'] + text::decimal(g as nat) + seq![';']
            + text::decimal(b as nat) + seq!['m', '\u{1b}', '[', '0', 'K'],
        rules::on_background(line, PaletteColor::EightBit(r)) == line + seq![
            '\u{1b}',
            '[',
            '4',
            '8',
            ';',
            '5',
            ';',
        ] + text::decimal(r as nat) + seq!['m', '\u{1b}', '[', '0', 'K'],
{
    reveal_strlit("\u{1b}[48;2;");
    reveal_strlit("\u{1b}[48;5;");
    reveal_strlit(";");
    reveal_strlit("m\u{1b}[0K");
    assert("\u{1b}[48;2;"@ =~= seq!['\u{1b}', '[', '4', '8', ';', '2', ';']);
    assert("\u{1b}[48;5;"@ =~= seq!['\u{1b}', '[', '4', '8', ';', '5', ';']);
    assert(";"@ =~= seq![';']);
    assert("m\u{1b}[0K"@ =~= seq!['m', '\u{1b}', '[', '0', 'K']);
}

/// A line is its parts, one behind the other.
pub proof fn a_line_is_its_parts(a: Seq<PartView>, b: Seq<PartView>, p: PartView)
    ensures
        rules::line_text(Seq::<PartView>::empty()) == Seq::<char>::empty(),
        rules::line_text(seq![p]) == p.part,
        rules::line_text(a + b) == rules::line_text(a) + rules::line_text(b),
    decreases b.len(),
{
    assert(seq![p].drop_last() =~= Seq::<PartView>::empty());
    reveal_with_fuel(rules::line_text, 2);
    assert(rules::line_text(seq![p]) =~= p.part);
    if b.len() == 0 {
        assert(a + b =~= a);
        assert(rules::line_text(a + b) =~= rules::line_text(a) + rules::line_text(b));
    } else {
        a_line_is_its_parts(a, b.drop_last(), p);
        assert((a + b).drop_last() =~= a + b.drop_last());
        assert(rules::line_text(a + b) =~= rules::line_text(a) + rules::line_text(b));
    }
}

/// Once the prompt is answered, the bar finds the agents' files under the home
/// directory, has that mounted, and starts to poll; without a home it only polls. It
/// does so once, and a tooltip never does.
pub proof fn the_answer_starts_the_polling(
    b: Bar,
    env: Dict<String, String>,
    size: (usize, usize),
    own_tab: Option<usize>,
)
    ensures
        ({
            let next = rules::updated(b, Event::PermissionRequestResult(env), size, own_tab);
            let a = next.actions;
            let starts = !b.is_tooltip && b.snapshot_path is None;
            let homeless = !env@.contains_key(home_key()) && !env@.contains_key(profile_key());
            let home = if env@.contains_key(home_key()) {
                env@[home_key()]@
            } else {
                env@[profile_key()]@
            };
            &&& !next.rerender
            &&& !starts ==> next.bar == (Bar { is_first_run: false, ..b }) && a.len() == 0
            &&& starts ==> a.len() >= 2 && a[0] == ActionView::SetSelectable(false) && a[a.len() - 1]
                == ActionView::SetTimeout(15)
            &&& starts && homeless ==> next.bar == (Bar { is_first_run: false, ..b }) && a.len() == 2
            &&& starts && !homeless ==> {
                &&& a.len() == 4
                &&& a[1] == ActionView::ChangeHostFolder(home)
                &&& a[2] == ActionView::ReadSeenEvents(under_the_mount(b.state_dir, seen_directory()))
                &&& next.bar == (Bar {
                    is_first_run: false,
                    snapshot_path: Some(under_the_mount(b.state_dir, readmodel_file())),
                    seen_dir: Some(under_the_mount(b.state_dir, seen_directory())),
                    ..b
                })
            }
        }),
{
    crate::readmodel::laws::the_home_is_the_users(env@);
    crate::readmodel::laws::the_files_are_under_the_mount(b.state_dir);
}

/// Its own tab is one that holds the plugin's pane; none only where no tab does.
pub proof fn the_own_tab_holds_the_plugin(
    panes: Map<usize, Seq<crate::host::PaneView>>,
    plugin: Option<u32>,
    tab: Option<usize>,
)
    requires
        rules::may_be_own_tab(panes, plugin, tab),
    ensures
        tab matches Some(t) ==> panes.contains_key(t) && exists|i: int|
            0 <= i < panes[t].len() && (#[trigger] panes[t][i]).is_plugin && plugin == Some(
                panes[t][i].id,
            ),
        tab is None ==> forall|t: usize, i: int|
            panes.contains_key(t) && 0 <= i < panes[t].len() && (#[trigger] panes[t][i]).is_plugin
                ==> plugin != Some(panes[t][i].id),
{
    if tab is None {
        assert forall|t: usize, i: int|
            panes.contains_key(t) && 0 <= i < panes[t].len() && (
            #[trigger] panes[t][i]).is_plugin implies plugin != Some(panes[t][i].id) by {
            assert(!rules::holds_plugin(panes[t], plugin));
        }
    } else {
        let t = tab->0;
        let i = choose|i: int|
            0 <= i < panes[t].len() && (#[trigger] panes[t][i]).is_plugin && Some(panes[t][i].id)
                == plugin;
        assert(panes[t][i].is_plugin);
    }
}

/// A bar starts with nothing known but its mode and where the agents' files are.
pub proof fn a_new_bar_knows_nothing(state_dir: Seq<char>, mode: ModeView, tab: usize)
    ensures
        ({
            let b = work::fresh(state_dir, mode);
            &&& b.state_dir == state_dir
            &&& b.mode == mode
            &&& b.tabs.len() == 0
            &&& b.active == 0
            &&& b.tab_line.len() == 0
            &&& b.keybinds.len() == 0
            &&& b.copied is None
            &&& !b.clipboard_failed
            &&& b.plugin is None
            &&& b.toggle_key is None
            &&& !b.is_tooltip
            &&& !b.tooltip_is_active
            &&& !b.persist
            &&& !b.is_first_run
            &&& b.own_tab is None
            &&& b.snapshot_path is None
            &&& b.seen_dir is None
            &&& !b.panes.contains_key(tab)
            &&& !b.flags.contains_key(tab)
            &&& rules::face(b) is Nothing
        }),
{
}

/// An action is what it is called, with its texts as they are.
pub proof fn actions_are_what_they_are_called(a: Action)
    ensures
        a is CloseSelf <==> a@ is CloseSelf,
        a is PipeMessage <==> a@ is PipeMessage,
        a is Subscribe <==> a@ is Subscribe,
        a is RequestPermissions <==> a@ is RequestPermissions,
        a is RecomputeTabFlags <==> a@ is RecomputeTabFlags,
        a matches Action::Reconfigure { config, write_to_disk } ==> a@ == (ActionView::Reconfigure {
            config: config@,
            write_to_disk,
        }),
        a matches Action::SetSelectable(b) ==> a@ == ActionView::SetSelectable(b),
        a matches Action::ChangeHostFolder(s) ==> a@ == ActionView::ChangeHostFolder(s@),
        a matches Action::ReadSnapshot(s) ==> a@ == ActionView::ReadSnapshot(s@),
        a matches Action::ReadSeenEvents(s) ==> a@ == ActionView::ReadSeenEvents(s@),
        a matches Action::RecomputeTabFlags(s) ==> (s is Some <==> a@->RecomputeTabFlags_0 is Some)
            && (s is Some ==> a@->RecomputeTabFlags_0->0 == s->0@),
        a matches Action::SetTimeout(t) ==> a@ == ActionView::SetTimeout(t),
        a matches Action::SwitchTabTo(t) ==> a@ == ActionView::SwitchTabTo(t),
        a matches Action::Subscribe(v) ==> a@->Subscribe_0 == v@,
        a matches Action::RequestPermissions(v) ==> a@->RequestPermissions_0 == v@,
        a matches Action::ChangeCoordinates { plugin_id, coordinates } ==> a@ == (
        ActionView::ChangeCoordinates { plugin_id, coordinates }),
        a matches Action::RenamePane { plugin_id, title } ==> a@ == (ActionView::RenamePane {
            plugin_id,
            title: title@,
        }),
        a matches Action::BreakPaneToTab { plugin_id, tab_index, change_focus } ==> a@ == (
        ActionView::BreakPaneToTab { plugin_id, tab_index, change_focus }),
        a matches Action::PipeMessage(m) ==> a@->name == m.name@ && a@->url == m.url@
            && a@->PipeMessage_coordinates == m.coordinates && a@->PipeMessage_title == m.title@,
{
}

/// A face and the cells on it are what they are called.
pub proof fn faces_and_cells_are_what_they_are_called(f: Face, d: TabRenderData, c: TabCell, i: int)
    ensures
        f is Tooltip <==> rules::face_view(f) is Tooltip,
        f is ClipboardError <==> rules::face_view(f) is ClipboardError,
        f is Nothing <==> rules::face_view(f) is Nothing,
        f matches Face::ClipboardHint(h) ==> rules::face_view(f) == FaceView::ClipboardHint(h),
        f matches Face::Tabs(t) ==> rules::face_view(f) == FaceView::Tabs(t@),
        d@.tabs.len() == d.tabs.len(),
        0 <= i < d.tabs.len() ==> d@.tabs[i] == d.tabs[i]@,
        d@.active_tab_index == d.active_tab_index,
        d@.is_swap_layout_dirty == d.is_swap_layout_dirty,
        d.active_swap_layout_name matches Some(s) ==> d@.active_swap_layout_name == Some(s@),
        d.active_swap_layout_name is None ==> d@.active_swap_layout_name is None,
        c@.index == c.index,
        c@.name == c.name@,
        c@.is_alternate == c.is_alternate,
        c@.flag == c.flag,
{
}

} // verus!
