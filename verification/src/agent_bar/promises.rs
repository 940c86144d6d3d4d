//! What the panel signals and does, field by field.
use super::cells;
use super::events;
use super::events::{Action, ActionView, Event, EventType, PermissionType, SessionReport};
use super::groups::SessionMeta;
use super::panel;
use super::panel::{LoadState, LoadView, Panel, ReadView, RowTarget, TargetView};
use crate::dict::Dict;
use crate::host::{tab_views, ModeInfo, ModeView, PaneManifest, PaneView, TabInfo, TabView};
use crate::keys::{BareKey, KeyWithModifier};
use crate::readmodel::laws::{
    dismissed_directory, home_key, profile_key, readmodel_file, seen_directory, under_the_mount,
};
use crate::readmodel::{Agent, ReadResult};
use crate::seqs;
use crate::text;
use vstd::prelude::*;

verus! {

pub open spec fn id_key() -> Seq<char> {
    seq!['s', 'e', 's', 's', 'i', 'o', 'n', '_', 'i', 'd']
}

pub open spec fn seen_key() -> Seq<char> {
    seq!['s', 'e', 'e', 'n', '_', 'a', 't', '_', 'm', 's']
}

pub open spec fn dismissed_key() -> Seq<char> {
    seq!['d', 'i', 's', 'm', 'i', 's', 's', 'e', 'd', '_', 'a', 't', '_', 'm', 's']
}

/// An agent needs attention exactly where it is live, not busy, and has raised it later
/// than it was last seen, on disk or in the overlay. Where it runs has no say in it.
pub proof fn attention_is_owed_wherever_the_agent_runs(p: Panel, a: Agent)
    ensures
        cells::flags_of(p, a).needs_attention <==> {
            &&& a.active
            &&& a.status !is Busy
            &&& a.attention_at_ms > 0
            &&& p.seen_disk.contains_key(a.session_id@) ==> a.attention_at_ms
                > p.seen_disk[a.session_id@]
            &&& p.seen_overlay.contains_key(a.session_id@) ==> a.attention_at_ms
                > p.seen_overlay[a.session_id@]
        },
{
}

/// Of two agents that differ only in session, pane, name, kind or age, both need
/// attention or neither does; and so whatever tab or session the panel is in.
pub proof fn attention_ignores_the_place(p: Panel, q: Panel, a: Agent, b: Agent)
    requires
        p.seen_disk == q.seen_disk,
        p.seen_overlay == q.seen_overlay,
        a.session_id@ == b.session_id@,
        a.active == b.active,
        a.status is Busy <==> b.status is Busy,
        a.attention_at_ms == b.attention_at_ms,
    ensures
        cells::flags_of(p, a).needs_attention == cells::flags_of(q, b).needs_attention,
{
}

/// An agent is in view exactly where it is live, of the session this panel is in, and
/// its pane is a terminal of the active tab that is not suppressed.
pub proof fn in_view_is_on_this_screen(p: Panel, a: Agent)
    ensures
        cells::flags_of(p, a).is_in_view <==> {
            &&& a.active
            &&& a.zellij_session is Some
            &&& a.zellij_session->0@ == (match p.mode.session_name {
                Some(s) => s,
                None => Seq::<char>::empty(),
            })
            &&& a.zellij_pane_id is Some
            &&& p.active_tab is Some
            &&& p.panes.contains_key(p.active_tab->0)
            &&& exists|i: int|
                0 <= i < p.panes[p.active_tab->0].len() && (
                #[trigger] p.panes[p.active_tab->0][i]).id == a.zellij_pane_id->0
                    && !p.panes[p.active_tab->0][i].is_plugin
                    && !p.panes[p.active_tab->0][i].is_suppressed
        },
{
    let here = events::panes_here(p);
    if p.active_tab is Some && p.panes.contains_key(p.active_tab->0) {
        assert(here == p.panes[p.active_tab->0]);
    } else {
        assert(here.len() == 0);
    }
    if a.zellij_pane_id is Some && cells::on_screen(p, a.zellij_pane_id->0) {
        let i = choose|i: int|
            0 <= i < here.len() && !(#[trigger] here[i]).is_plugin && !here[i].is_suppressed
                && here[i].id == a.zellij_pane_id->0;
        assert(p.panes[p.active_tab->0][i].id == a.zellij_pane_id->0);
    }
}

/// The other signals: without a route where there is no pane, live where the agent is,
/// and in the background by its kind.
pub proof fn the_other_signals(p: Panel, a: Agent)
    ensures
        cells::flags_of(p, a).unrouted <==> a.zellij_pane_id is None,
        cells::flags_of(p, a).active == a.active,
        cells::flags_of(p, a).is_bg <==> a.kind@ == seq!['b', 'g'],
{
    reveal_strlit("bg");
    assert("bg"@ =~= seq!['b', 'g']);
}

/// Each agent has its own signals; of two under one id the last counts.
pub proof fn each_agent_has_its_signals(p: Panel, agents: Seq<Agent>, k: int)
    requires
        0 <= k < agents.len(),
        forall|j: int|
            k < j < agents.len() ==> (#[trigger] agents[j]).session_id@ != agents[k].session_id@,
    ensures
        cells::flag_map(p, agents).contains_key(agents[k].session_id@),
        cells::flag_map(p, agents)[agents[k].session_id@] == cells::flags_of(p, agents[k]),
    decreases agents.len(),
{
    let rest = agents.drop_last();
    if k < rest.len() {
        assert(agents[agents.len() - 1].session_id@ != agents[k].session_id@);
        assert(rest[k] == agents[k]);
        assert forall|j: int| k < j < rest.len() implies (#[trigger] rest[j]).session_id@
            != rest[k].session_id@ by {
            assert(agents[j].session_id@ != agents[k].session_id@);
        }
        each_agent_has_its_signals(p, rest, k);
    }
}

/// The agents are those of the last snapshot that could be read, and none before that.
/// Those shown are all of them but the dismissed ones.
pub proof fn the_agents_are_those_of_the_snapshot(p: Panel, a: Agent)
    ensures
        p.load matches LoadView::Polling { path, last: Some(ReadView::Loaded(l)) }
            ==> events::current(p) == l,
        !(p.load matches LoadView::Polling { path, last: Some(ReadView::Loaded(l)) })
            ==> events::current(p).len() == 0,
        events::visible(p).contains(a) <==> events::current(p).contains(a) && !p.dismissed.contains(
            a.session_id@,
        ),
{
    seqs::filter_members(events::current(p), events::not_dismissed(p.dismissed));
}

/// An agent is found by its id: the first that has it.
pub proof fn the_first_of_an_id_is_found(agents: Seq<Agent>, sid: Seq<char>, k: int)
    requires
        0 <= k < agents.len(),
        agents[k].session_id@ == sid,
        forall|j: int| 0 <= j < k ==> (#[trigger] agents[j]).session_id@ != sid,
    ensures
        events::find(agents, sid) == Some(agents[k]),
    decreases agents.len(),
{
    let rest = agents.drop_last();
    if k < rest.len() {
        the_first_of_an_id_is_found(rest, sid, k);
    } else {
        an_unlisted_id_is_not_found(rest, sid);
    }
}

/// An id that no agent has is not found.
pub proof fn an_unlisted_id_is_not_found(agents: Seq<Agent>, sid: Seq<char>)
    requires
        forall|j: int| 0 <= j < agents.len() ==> (#[trigger] agents[j]).session_id@ != sid,
    ensures
        events::find(agents, sid) is None,
    decreases agents.len(),
{
    if agents.len() > 0 {
        assert(agents[agents.len() - 1].session_id@ != sid);
        an_unlisted_id_is_not_found(agents.drop_last(), sid);
    }
}

/// Marking an agent as seen records the time of its attention, in the overlay, where
/// a later time stays, and on disk where there is a place for it. Without attention
/// there is nothing to record. Nothing else changes.
pub proof fn marking_as_seen_records_the_attention(p: Panel, sid: Seq<char>, k: int)
    requires
        0 <= k < events::current(p).len(),
        events::current(p)[k].session_id@ == sid,
        forall|j: int| 0 <= j < k ==> (#[trigger] events::current(p)[j]).session_id@ != sid,
    ensures
        ({
            let a = events::current(p)[k];
            let next = events::acknowledged(p, sid);
            let held = p.seen_overlay.contains_key(sid) && p.seen_overlay[sid] > a.attention_at_ms;
            &&& next.rerender
            &&& a.attention_at_ms == 0 ==> next.panel == p && next.actions.len() == 0
            &&& a.attention_at_ms != 0 ==> {
                &&& next.panel == (Panel { seen_overlay: next.panel.seen_overlay, ..p })
                &&& next.panel.seen_overlay.contains_key(sid)
                &&& a.attention_at_ms > 0 ==> next.panel.seen_overlay[sid] == (if held {
                    p.seen_overlay[sid]
                } else {
                    a.attention_at_ms
                })
                &&& forall|other: Seq<char>|
                    other != sid ==> (#[trigger] next.panel.seen_overlay.contains_key(other)
                        <==> p.seen_overlay.contains_key(other)) && (p.seen_overlay.contains_key(
                        other,
                    ) ==> next.panel.seen_overlay[other] == p.seen_overlay[other])
                &&& p.seen_events_dir is None ==> next.actions.len() == 0
                &&& p.seen_events_dir matches Some(d) ==> next.actions == seq![
                    ActionView::WriteEvent {
                        dir: d,
                        name: sid,
                        bytes: events::json_object(
                            id_key(),
                            sid,
                            seen_key(),
                            a.attention_at_ms,
                        ),
                    },
                ]
            }
        }),
{
    the_first_of_an_id_is_found(events::current(p), sid, k);
    reveal_strlit("session_id");
    reveal_strlit("seen_at_ms");
    assert("session_id"@ =~= id_key());
    assert("seen_at_ms"@ =~= seen_key());
}

/// An agent that is not listed cannot be marked.
pub proof fn nothing_is_recorded_of_a_stranger(p: Panel, sid: Seq<char>)
    requires
        forall|j: int|
            0 <= j < events::current(p).len() ==> (#[trigger] events::current(p)[j]).session_id@
                != sid,
    ensures
        events::acknowledged(p, sid).panel == p,
        events::acknowledged(p, sid).actions.len() == 0,
{
    an_unlisted_id_is_not_found(events::current(p), sid);
}

/// Going to a row: where it has a target and its agent is live, or may be gone, a
/// command is run with that target, the row's spinner starts, and the row's own id
/// comes back with the result. Else nothing happens.
pub proof fn a_row_is_gone_to_by_its_target(p: Panel, sid: Seq<char>, allow_dead: bool)
    ensures
        ({
            let next = events::routed(p, sid, allow_dead);
            let found = events::find(events::current(p), sid);
            let refused = found is Some && !found->0.active && !allow_dead;
            &&& next.rerender
            &&& refused || !p.focus_targets.contains_key(sid) ==> next.panel == p
                && next.actions.len() == 0
            &&& !refused && p.focus_targets.contains_key(sid) ==> {
                &&& next.panel == (Panel { in_flight: next.panel.in_flight, ..p })
                &&& next.panel.in_flight.contains_key(sid)
                &&& next.panel.in_flight[sid] == 0
                &&& forall|other: Seq<char>|
                    other != sid ==> (#[trigger] next.panel.in_flight.contains_key(other)
                        <==> p.in_flight.contains_key(other)) && (p.in_flight.contains_key(other)
                        ==> next.panel.in_flight[other] == p.in_flight[other])
                &&& next.actions.len() == 1
                &&& next.actions[0] is RunCommand
                &&& next.actions[0]->args == seq![
                    seq!['m', 'u', 'x'],
                    seq!['f', 'o', 'c', 'u', 's', '-', 'a', 'g', 'e', 'n', 't'],
                    p.focus_targets[sid],
                ]
                &&& next.actions[0]->context.len() == 2
                &&& next.actions[0]->context[0] == (
                    seq!['c', 'l', 'i', 'c', 'k', '_', 'l', 'a', 'b', 'e', 'l'],
                    text::short(p.focus_targets[sid]),
                )
                &&& next.actions[0]->context[1] == (id_key(), sid)
            }
        }),
{
    reveal_strlit("mux");
    reveal_strlit("focus-agent");
    reveal_strlit("click_label");
    reveal_strlit("session_id");
    assert("mux"@ =~= seq!['m', 'u', 'x']);
    assert("focus-agent"@ =~= seq!['f', 'o', 'c', 'u', 's', '-', 'a', 'g', 'e', 'n', 't']);
    assert("click_label"@ =~= seq!['c', 'l', 'i', 'c', 'k', '_', 'l', 'a', 'b', 'e', 'l']);
    assert("session_id"@ =~= id_key());
}

/// To activate a row is to mark its agent as seen, and then to go to it.
pub proof fn activating_marks_and_goes(p: Panel, sid: Seq<char>, allow_dead: bool)
    ensures
        ({
            let next = events::activated(p, sid, allow_dead);
            let seen = events::acknowledged(p, sid);
            let gone = events::routed(seen.panel, sid, allow_dead);
            &&& next.panel == gone.panel
            &&& next.rerender
            &&& next.actions == seen.actions + gone.actions
        }),
{
}

/// The result of a command ends the spinner of the row it was run for, and of no other.
pub proof fn a_result_ends_its_spinner(
    p: Panel,
    context: Dict<String, String>,
    now: i64,
    other: Seq<char>,
)
    ensures
        ({
            let next = events::updated(p, Event::RunCommandResult(context), now);
            let named = context@.contains_key(id_key());
            let sid = context@[id_key()]@;
            &&& next.actions.len() == 0
            &&& next.panel == (Panel { in_flight: next.panel.in_flight, ..p })
            &&& next.rerender <==> named && p.in_flight.contains_key(sid)
            &&& next.panel.in_flight.contains_key(other) <==> p.in_flight.contains_key(other) && !(
            named && other == sid)
            &&& next.panel.in_flight.contains_key(other) ==> next.panel.in_flight[other]
                == p.in_flight[other]
        }),
{
    reveal_strlit("session_id");
    assert("session_id"@ =~= id_key());
}

/// A key with a modifier does nothing, nor does a key without a meaning.
pub proof fn other_keys_do_nothing(p: Panel, key: KeyWithModifier, now: i64)
    requires
        key.key_modifiers@.len() > 0 || !(key.bare_key == BareKey::Up || key.bare_key
            == BareKey::Down || key.bare_key == BareKey::Home || key.bare_key == BareKey::End
            || key.bare_key == BareKey::Enter || key.bare_key == BareKey::Esc || key.bare_key
            == BareKey::Char('k') || key.bare_key == BareKey::Char('j') || key.bare_key
            == BareKey::Char('G') || key.bare_key == BareKey::Char('g') || key.bare_key
            == BareKey::Char('x') || key.bare_key == BareKey::Char('y') || key.bare_key
            == BareKey::Char('v') || key.bare_key == BareKey::Char('q')),
    ensures
        ({
            let next = events::updated(p, Event::Key(key), now);
            next.panel == p && !next.rerender && next.actions.len() == 0
        }),
{
    if key.key_modifiers@.len() > 0 {
        assert(key.holds(key.key_modifiers@[0]));
    }
}

/// The keys that move the cursor move it by one agent or to an end, the viewport
/// follows, and nothing else changes. Without an agent they do nothing.
pub proof fn the_cursor_moves_by_keys(p: Panel, key: KeyWithModifier, now: i64)
    requires
        key.key_modifiers@.len() == 0,
        events::shown(p).len() <= usize::MAX,
        key.bare_key == BareKey::Up || key.bare_key == BareKey::Char('k') || key.bare_key
            == BareKey::Down || key.bare_key == BareKey::Char('j') || key.bare_key == BareKey::Home
            || key.bare_key == BareKey::End || key.bare_key == BareKey::Char('G'),
    ensures
        ({
            let next = events::updated(p, Event::Key(key), now);
            let n = events::shown(p).len();
            let up = key.bare_key == BareKey::Up || key.bare_key == BareKey::Char('k');
            let down = key.bare_key == BareKey::Down || key.bare_key == BareKey::Char('j');
            let home = key.bare_key == BareKey::Home;
            &&& next.actions.len() == 0
            &&& n == 0 ==> next.panel == p && !next.rerender
            &&& n > 0 ==> {
                &&& next.rerender
                &&& next.panel.selected is Some
                &&& next.panel == (Panel { selected: next.panel.selected, follow: true, ..p })
                &&& up && p.selected is Some && p.selected->0 > 0 ==> next.panel.selected->0
                    == p.selected->0 - 1
                &&& up && (p.selected is None || p.selected->0 == 0) ==> next.panel.selected->0 == 0
                &&& down && p.selected is Some && p.selected->0 + 1 < n ==> next.panel.selected->0
                    == p.selected->0 + 1
                &&& down && p.selected is Some && p.selected->0 + 1 >= n ==> next.panel.selected->0
                    == n - 1
                &&& down && p.selected is None ==> next.panel.selected->0 == 0
                &&& home ==> next.panel.selected->0 == 0
                &&& !up && !down && !home ==> next.panel.selected->0 == n - 1
            }
        }),
{
    assert(events::bare(key));
}

/// The keys that act on the agent under the cursor: Enter goes to a live one and `g`
/// to any, `y` copies its id and `v` the command that goes to it, and `x` dismisses one
/// that is gone. Without an agent under the cursor they do nothing.
pub proof fn keys_act_on_the_agent_under_the_cursor(p: Panel, key: KeyWithModifier, now: i64)
    requires
        key.key_modifiers@.len() == 0,
        key.bare_key == BareKey::Enter || key.bare_key == BareKey::Char('g') || key.bare_key
            == BareKey::Char('y') || key.bare_key == BareKey::Char('v') || key.bare_key
            == BareKey::Char('x'),
    ensures
        ({
            let next = events::updated(p, Event::Key(key), now);
            let there = p.selected is Some && p.selected->0 < events::shown(p).len();
            let a = events::shown(p)[p.selected->0 as int];
            let sid = a.session_id@;
            &&& !there ==> next.panel == p && !next.rerender && next.actions.len() == 0
            &&& there && key.bare_key == BareKey::Enter ==> next == events::activated(p, sid, false)
            &&& there && key.bare_key == BareKey::Char('g') ==> next == events::activated(
                p,
                sid,
                true,
            )
            &&& there && key.bare_key == BareKey::Char('y') ==> next.panel == p && next.rerender
                && next.actions == seq![ActionView::CopyToClipboard(sid)]
            &&& there && key.bare_key == BareKey::Char('v') && p.focus_targets.contains_key(sid)
                ==> next.panel == p && next.rerender && next.actions == seq![
                ActionView::CopyToClipboard(seq![
                    'm', 'u', 'x', ' ', 'f', 'o', 'c', 'u', 's', '-', 'a', 'g', 'e', 'n', 't',
                    ' ',
                ] + p.focus_targets[sid]),
            ]
            &&& there && key.bare_key == BareKey::Char('v') && !p.focus_targets.contains_key(sid)
                ==> next.panel == p && !next.rerender && next.actions.len() == 0
            &&& there && key.bare_key == BareKey::Char('x') && a.active ==> next.panel == p
                && !next.rerender && next.actions.len() == 0
            &&& there && key.bare_key == BareKey::Char('x') && !a.active ==> {
                &&& next.rerender
                &&& next.panel == (Panel { dismissed: next.panel.dismissed, ..p })
                &&& forall|other: Seq<char>| #[trigger]
                    next.panel.dismissed.contains(other) <==> other == sid || p.dismissed.contains(
                        other,
                    )
                &&& p.dismissed_events_dir is None ==> next.actions.len() == 0
                &&& p.dismissed_events_dir matches Some(d) ==> next.actions == seq![
                    ActionView::WriteEvent {
                        dir: d,
                        name: sid,
                        bytes: events::json_object(id_key(), sid, dismissed_key(), now),
                    },
                ]
            }
        }),
{
    assert(events::bare(key));
    reveal_strlit("mux focus-agent ");
    reveal_strlit("session_id");
    reveal_strlit("dismissed_at_ms");
    assert("mux focus-agent "@ =~= seq![
        'm', 'u', 'x', ' ', 'f', 'o', 'c', 'u', 's', '-', 'a', 'g', 'e', 'n', 't', ' ',
    ]);
    assert("session_id"@ =~= id_key());
    assert("dismissed_at_ms"@ =~= dismissed_key());
}

/// Esc and `q` give the focus back to the right.
pub proof fn the_focus_is_given_back(p: Panel, key: KeyWithModifier, now: i64)
    requires
        key.key_modifiers@.len() == 0,
        key.bare_key == BareKey::Esc || key.bare_key == BareKey::Char('q'),
    ensures
        events::updated(p, Event::Key(key), now).panel == p,
        events::updated(p, Event::Key(key), now).rerender,
        events::updated(p, Event::Key(key), now).actions == seq![ActionView::FocusRight],
{
    assert(events::bare(key));
}

/// A click acts on what its row was drawn for: a header switches to its session, and
/// an agent's row takes the cursor to the first such agent and activates a live one.
/// A click beside every row does nothing.
pub proof fn a_click_acts_on_what_was_drawn(p: Panel, line: isize, now: i64, k: int, at: int)
    requires
        0 <= k < p.row_ranges.len(),
        forall|j: int| 0 <= j < k ==> (#[trigger] p.row_ranges[j]).0 != line,
        p.row_ranges[k].0 == line,
        p.row_ranges[k].1 matches TargetView::Agent(sid) ==> 0 <= at < events::shown(p).len()
            && events::shown(p)[at].session_id@ == sid && forall|j: int|
            0 <= j < at ==> (#[trigger] events::shown(p)[j]).session_id@ != sid,
        events::shown(p).len() <= usize::MAX,
    ensures
        ({
            let next = events::updated(p, Event::LeftClick(line), now);
            &&& p.row_ranges[k].1 matches TargetView::Session(name) ==> next.panel == p
                && next.rerender && next.actions == seq![ActionView::SwitchSession(name)]
            &&& p.row_ranges[k].1 matches TargetView::Agent(sid) ==> next == events::activated(
                (Panel { selected: Some(at as usize), follow: true, ..p }),
                sid,
                false,
            )
        }),
{
    first_entry(p.row_ranges, line as usize, k);
    if p.row_ranges[k].1 is Agent {
        first_at(events::shown(p), events::has_sid(p.row_ranges[k].1->Agent_0), at);
    }
}

proof fn first_entry(ranges: Seq<(usize, TargetView)>, row: usize, k: int)
    requires
        0 <= k < ranges.len(),
        forall|j: int| 0 <= j < k ==> (#[trigger] ranges[j]).0 != row,
        ranges[k].0 == row,
    ensures
        events::target_at(ranges, row) == Some(ranges[k].1),
    decreases ranges.len(),
{
    let rest = ranges.drop_last();
    if k < rest.len() {
        first_entry(rest, row, k);
    } else {
        no_entry(rest, row);
    }
}

proof fn no_entry(ranges: Seq<(usize, TargetView)>, row: usize)
    requires
        forall|j: int| 0 <= j < ranges.len() ==> (#[trigger] ranges[j]).0 != row,
    ensures
        events::target_at(ranges, row) is None,
    decreases ranges.len(),
{
    if ranges.len() > 0 {
        assert(ranges[ranges.len() - 1].0 != row);
        no_entry(ranges.drop_last(), row);
    }
}

proof fn first_at(agents: Seq<Agent>, test: spec_fn(Agent) -> bool, at: int)
    requires
        0 <= at < agents.len() <= usize::MAX,
        test(agents[at]),
        forall|j: int| 0 <= j < at ==> !test(#[trigger] agents[j]),
    ensures
        events::first_place(agents, test) == Some(at as usize),
    decreases agents.len(),
{
    let rest = agents.drop_last();
    if at < rest.len() {
        first_at(rest, test, at);
    } else {
        nowhere(rest, test);
    }
}

proof fn nowhere(agents: Seq<Agent>, test: spec_fn(Agent) -> bool)
    requires
        forall|j: int| 0 <= j < agents.len() ==> !test(#[trigger] agents[j]),
    ensures
        events::first_place(agents, test) is None,
    decreases agents.len(),
{
    if agents.len() > 0 {
        assert(!test(agents[agents.len() - 1]));
        nowhere(agents.drop_last(), test);
    }
}

/// A click above the panel, or on a row that routes nowhere, does nothing.
pub proof fn a_click_on_nothing_does_nothing(p: Panel, line: isize, now: i64)
    requires
        line < 0 || forall|j: int| 0 <= j < p.row_ranges.len() ==> (#[trigger] p.row_ranges[j]).0
            != line,
    ensures
        ({
            let next = events::updated(p, Event::LeftClick(line), now);
            next.panel == p && !next.rerender && next.actions.len() == 0
        }),
{
    if line >= 0 {
        no_entry(p.row_ranges, line as usize);
    }
}

/// The wheel moves the viewport by the lines it is told, at least by one, and not past
/// the top.
pub proof fn the_wheel_moves_by_lines(p: Panel, lines: usize, now: i64)
    requires
        p.scroll + lines < usize::MAX,
    ensures
        ({
            let up = events::updated(p, Event::ScrollUp(lines), now);
            let down = events::updated(p, Event::ScrollDown(lines), now);
            let by = if lines >= 1 {
                lines as int
            } else {
                1
            };
            &&& up.panel == (Panel { scroll: up.panel.scroll, ..p })
            &&& down.panel == (Panel { scroll: down.panel.scroll, ..p })
            &&& p.scroll >= by ==> up.panel.scroll == p.scroll - by
            &&& p.scroll < by ==> up.panel.scroll == 0
            &&& down.panel.scroll == p.scroll + by
            &&& up.rerender <==> p.scroll > 0
            &&& down.rerender
            &&& up.actions.len() == 0
            &&& down.actions.len() == 0
        }),
{
}

/// The timer turns every spinner by one tick, drops one that has turned a hundred, polls
/// when one and a half seconds have gone by, and is set to a tenth of a second while a
/// spinner turns, else to one and a half.
pub proof fn the_timer_turns_and_polls(p: Panel, now: i64, sid: Seq<char>)
    requires
        panel::in_bounds(p),
    ensures
        ({
            let next = events::updated(p, Event::Timer, now);
            let q = next.panel;
            let a = next.actions;
            let due = p.since_poll + p.cur_timeout >= 15;
            let extra = (if p.load is Polling {
                1int
            } else {
                0
            });
            &&& q.in_flight.contains_key(sid) <==> p.in_flight.contains_key(sid) && p.in_flight[sid]
                < 100
            &&& q.in_flight.contains_key(sid) ==> q.in_flight[sid] == p.in_flight[sid] + 1
            &&& q == (Panel {
                in_flight: q.in_flight,
                since_poll: q.since_poll,
                cur_timeout: q.cur_timeout,
                ..p
            })
            &&& due ==> q.since_poll == 0
            &&& !due ==> q.since_poll == p.since_poll + p.cur_timeout
            &&& p.in_flight.contains_key(sid) && p.in_flight[sid] < 100 ==> q.cur_timeout == 1
            &&& (forall|k: Seq<char>| #[trigger]
                p.in_flight.contains_key(k) ==> p.in_flight[k] >= 100) ==> q.cur_timeout == 15
            &&& p.in_flight.contains_key(sid) ==> next.rerender
            &&& (forall|k: Seq<char>| !#[trigger] p.in_flight.contains_key(k)) ==> !next.rerender
            &&& a.len() > 0
            &&& a[a.len() - 1] == ActionView::SetTimeout(q.cur_timeout)
            &&& !due ==> a.len() == 1
            &&& due ==> a[a.len() - 2] == ActionView::ListSessions
            &&& due && p.load is Polling ==> a[0] == ActionView::ReadSnapshot(p.load->path)
            &&& due && p.seen_events_dir is Some ==> a[extra] == ActionView::ReadSeenEvents(
                p.seen_events_dir->0,
            )
            &&& due ==> a.len() == 2 + extra + (if p.seen_events_dir is Some {
                1int
            } else {
                0
            })
        }),
{
    let turned = events::spun(p.in_flight);
    if p.in_flight.contains_key(sid) && p.in_flight[sid] < 100 {
        assert(turned.contains_key(sid));
    }
    if forall|k: Seq<char>| #[trigger] p.in_flight.contains_key(k) ==> p.in_flight[k] >= 100 {
        assert(turned =~= Map::<Seq<char>, u32>::empty());
    }
    if forall|k: Seq<char>| !#[trigger] p.in_flight.contains_key(k) {
        assert(p.in_flight =~= Map::<Seq<char>, u32>::empty());
    }
}

/// Once the prompt is answered the panel finds its files under the home directory, has
/// that mounted, reads all there is and starts to poll. Without a home it says so. It
/// does this once.
pub proof fn the_answer_starts_the_panel(p: Panel, env: Dict<String, String>, now: i64)
    ensures
        ({
            let next = events::updated(p, Event::PermissionRequestResult(env), now);
            let a = next.actions;
            let homeless = !env@.contains_key(home_key()) && !env@.contains_key(profile_key());
            let home = if env@.contains_key(home_key()) {
                env@[home_key()]@
            } else {
                env@[profile_key()]@
            };
            let seen = under_the_mount(p.state_dir, seen_directory());
            let model = under_the_mount(p.state_dir, readmodel_file());
            &&& p.load !is AwaitingPermission ==> next.panel == p && !next.rerender && a.len() == 0
            &&& p.load is AwaitingPermission ==> next.rerender && next.panel.cur_timeout == 15
                && a.len() >= 2 && a[a.len() - 2] == ActionView::ListSessions && a[a.len() - 1]
                == ActionView::SetTimeout(15)
            &&& p.load is AwaitingPermission && homeless ==> next.panel == (Panel {
                load: LoadView::NoHomeInEnv,
                cur_timeout: 15,
                ..p
            }) && a.len() == 2
            &&& p.load is AwaitingPermission && !homeless ==> {
                &&& a.len() == 5
                &&& a[0] == ActionView::ChangeHostFolder(home)
                &&& a[1] == ActionView::ReadSeenEvents(seen)
                &&& a[2] == ActionView::ReadSnapshot(model)
                &&& next.panel == (Panel {
                    load: LoadView::Polling { path: model, last: None },
                    seen_events_dir: Some(seen),
                    dismissed_events_dir: Some(under_the_mount(p.state_dir, dismissed_directory())),
                    cur_timeout: 15,
                    ..p
                })
            }
        }),
{
    crate::readmodel::laws::the_home_is_the_users(env@);
    crate::readmodel::laws::the_files_are_under_the_mount(p.state_dir);
}

/// A mode is taken over and drawn where it differs; so is the position of the first
/// active tab.
pub proof fn modes_and_tabs_are_taken_over(
    p: Panel,
    mode: ModeInfo,
    tabs: Vec<TabInfo>,
    now: i64,
    i: int,
)
    requires
        0 <= i <= tabs.len(),
        i < tabs.len() ==> tabs[i].active,
        forall|j: int| 0 <= j < i ==> !(#[trigger] tabs[j]).active,
    ensures
        ({
            let m = events::updated(p, Event::ModeUpdate(mode), now);
            let t = events::updated(p, Event::TabUpdate(tabs), now);
            &&& m.panel == (Panel { mode: mode@, ..p })
            &&& m.rerender <==> p.mode != mode@
            &&& m.actions.len() == 0
            &&& t.panel == (Panel { active_tab: t.panel.active_tab, ..p })
            &&& i < tabs.len() ==> t.panel.active_tab == Some(tabs[i].position)
            &&& i == tabs.len() ==> t.panel.active_tab is None
            &&& t.rerender <==> p.active_tab != t.panel.active_tab
            &&& t.actions.len() == 0
        }),
{
    if i < tabs.len() {
        first_active(tab_views(tabs@), i);
    } else {
        none_active(tab_views(tabs@));
    }
}

proof fn first_active(tabs: Seq<TabView>, i: int)
    requires
        0 <= i < tabs.len(),
        tabs[i].active,
        forall|j: int| 0 <= j < i ==> !(#[trigger] tabs[j]).active,
    ensures
        events::active_position(tabs) == Some(tabs[i].position),
    decreases tabs.len(),
{
    let rest = tabs.drop_last();
    if i < rest.len() {
        first_active(rest, i);
    } else {
        none_active(rest);
    }
}

proof fn none_active(tabs: Seq<TabView>)
    requires
        forall|j: int| 0 <= j < tabs.len() ==> !(#[trigger] tabs[j]).active,
    ensures
        events::active_position(tabs) is None,
    decreases tabs.len(),
{
    if tabs.len() > 0 {
        assert(!tabs[tabs.len() - 1].active);
        none_active(tabs.drop_last());
    }
}

/// Whether a pane of the active tab is this panel's own and has the focus.
pub open spec fn has_the_focus(p: Panel, panes: Map<usize, Seq<PaneView>>) -> bool {
    &&& p.own_plugin_id is Some
    &&& p.active_tab is Some
    &&& panes.contains_key(p.active_tab->0)
    &&& exists|i: int|
        0 <= i < panes[p.active_tab->0].len() && (#[trigger] panes[p.active_tab->0][i]).is_focused
            && panes[p.active_tab->0][i].is_plugin && panes[p.active_tab->0][i].id
            == p.own_plugin_id->0
}

/// Panes are taken over. When the panel gets the focus the cursor comes in and the
/// viewport follows it; when it loses it the cursor goes. While it has it not, the
/// focused terminal is remembered.
pub proof fn the_cursor_comes_and_goes_with_the_focus(
    p: Panel,
    manifest: PaneManifest,
    now: i64,
    t: int,
)
    requires
        p.active_tab is Some && manifest@.contains_key(p.active_tab->0) ==> {
            &&& 0 <= t <= manifest@[p.active_tab->0].len()
            &&& t < manifest@[p.active_tab->0].len() ==> manifest@[p.active_tab->0][t].is_focused
                && !manifest@[p.active_tab->0][t].is_plugin
            &&& forall|j: int|
                0 <= j < t ==> !(#[trigger] manifest@[p.active_tab->0][j]).is_focused
                    || manifest@[p.active_tab->0][j].is_plugin
        },
    ensures
        ({
            let panes = manifest@;
            let next = events::updated(p, Event::PaneUpdate(manifest), now);
            let q = next.panel;
            let focused = has_the_focus(p, panes);
            let known = p.active_tab is Some && panes.contains_key(p.active_tab->0) && t
                < panes[p.active_tab->0].len();
            &&& q.panes == panes
            &&& q.was_focused == focused
            &&& !focused && known ==> q.last_external == Some(panes[p.active_tab->0][t].id)
            &&& focused || !known ==> q.last_external == p.last_external
            &&& focused == p.was_focused ==> q.selected == p.selected && q.follow == p.follow
            &&& !focused && p.was_focused ==> q.selected is None && !q.follow
            &&& focused && !p.was_focused ==> q.follow && q.selected
                == events::initial_selection((Panel { panes, ..p }))
            &&& next.rerender <==> focused != p.was_focused || p.panes != panes
            &&& next.actions.len() == 0
            &&& q == (Panel {
                panes,
                last_external: q.last_external,
                selected: q.selected,
                follow: q.follow,
                was_focused: q.was_focused,
                ..p
            })
        }),
{
    let panes = manifest@;
    let q = Panel { panes, ..p };
    let here = events::panes_here(q);
    if p.active_tab is Some && panes.contains_key(p.active_tab->0) {
        assert(here == panes[p.active_tab->0]);
        if t < here.len() {
            first_focused(here, t);
        } else {
            none_focused(here);
        }
    } else {
        assert(here.len() == 0);
        none_focused(here);
    }
    assert(events::am_focused(q) == has_the_focus(p, panes)) by {
        if events::am_focused(q) {
            let i = choose|i: int|
                0 <= i < here.len() && (#[trigger] here[i]).is_plugin && here[i].id
                    == q.own_plugin_id->0 && here[i].is_focused;
            assert(panes[p.active_tab->0][i].is_focused);
        }
        if has_the_focus(p, panes) {
            let i = choose|i: int|
                0 <= i < panes[p.active_tab->0].len() && (
                #[trigger] panes[p.active_tab->0][i]).is_focused
                    && panes[p.active_tab->0][i].is_plugin && panes[p.active_tab->0][i].id
                    == p.own_plugin_id->0;
            assert(here[i].is_plugin);
        }
    }
}

proof fn first_focused(panes: Seq<PaneView>, t: int)
    requires
        0 <= t < panes.len(),
        panes[t].is_focused,
        !panes[t].is_plugin,
        forall|j: int|
            0 <= j < t ==> !(#[trigger] panes[j]).is_focused || panes[j].is_plugin,
    ensures
        events::focused_terminal(panes) == Some(panes[t].id),
    decreases panes.len(),
{
    let rest = panes.drop_last();
    if t < rest.len() {
        first_focused(rest, t);
    } else {
        none_focused(rest);
    }
}

proof fn none_focused(panes: Seq<PaneView>)
    requires
        forall|j: int|
            0 <= j < panes.len() ==> !(#[trigger] panes[j]).is_focused || panes[j].is_plugin,
    ensures
        events::focused_terminal(panes) is None,
    decreases panes.len(),
{
    if panes.len() > 0 {
        assert(!panes[panes.len() - 1].is_focused || panes[panes.len() - 1].is_plugin);
        none_focused(panes.drop_last());
    }
}

/// The cursor comes in on the first agent in the terminal that had the focus, else on
/// the first agent, else nowhere.
pub proof fn the_cursor_comes_in_where_the_focus_was(p: Panel, at: int)
    requires
        events::shown(p).len() <= usize::MAX,
        0 <= at <= events::shown(p).len(),
        at < events::shown(p).len() ==> p.last_external is Some && events::shown(p)[at].zellij_pane_id
            == p.last_external,
        p.last_external is Some ==> forall|j: int|
            0 <= j < at ==> (#[trigger] events::shown(p)[j]).zellij_pane_id != p.last_external,
    ensures
        events::shown(p).len() == 0 ==> events::initial_selection(p) is None,
        at < events::shown(p).len() ==> events::initial_selection(p) == Some(at as usize),
        events::shown(p).len() > 0 && at == events::shown(p).len() ==> events::initial_selection(p)
            == Some(0usize),
{
    if p.last_external is Some {
        let test = events::has_pane(p.last_external->0);
        if at < events::shown(p).len() {
            first_at(events::shown(p), test, at);
        } else {
            nowhere(events::shown(p), test);
        }
    }
}

/// A listing replaces the sessions: exactly those listed are live, with the clients of
/// the last report of each; one that was known keeps its creation time, a new one was
/// created its age ago. It is drawn where anything differs.
pub proof fn sessions_are_those_listed(
    p: Panel,
    list: Vec<SessionReport>,
    now: i64,
    name: Seq<char>,
    k: int,
)
    requires
        0 <= k < list.len(),
        forall|j: int| k < j < list.len() ==> (#[trigger] list[j]).name@ != name,
        i64::MIN <= now - list[k].age_ms <= i64::MAX,
    ensures
        ({
            let next = events::updated(p, Event::Sessions(Some(list)), now);
            let m = next.panel.sessions;
            &&& next.panel == (Panel { sessions: m, ..p })
            &&& next.rerender <==> m != p.sessions
            &&& next.actions.len() == 0
            &&& m.contains_key(name) <==> exists|j: int|
                0 <= j < list.len() && (#[trigger] list[j]).name@ == name
            &&& list[k].name@ == name ==> m[name].clients == list[k].clients && m[name].created_ms
                == (if p.sessions.contains_key(name) {
                p.sessions[name].created_ms as int
            } else {
                now - list[k].age_ms
            })
        }),
{
    listed_last(p.sessions, list@, now, name, k);
    listed_at_all(p.sessions, list@, now, name);
}

proof fn listed_last(
    known: Map<Seq<char>, SessionMeta>,
    list: Seq<SessionReport>,
    now: i64,
    name: Seq<char>,
    k: int,
)
    requires
        0 <= k < list.len(),
        forall|j: int| k < j < list.len() ==> (#[trigger] list[j]).name@ != name,
        i64::MIN <= now - list[k].age_ms <= i64::MAX,
    ensures
        list[k].name@ == name ==> events::sessions_listed(known, list, now)[name] == (SessionMeta {
            clients: list[k].clients,
            created_ms: if known.contains_key(name) {
                known[name].created_ms
            } else {
                (now - list[k].age_ms) as i64
            },
        }),
    decreases list.len(),
{
    let rest = list.drop_last();
    if k < rest.len() {
        assert(list[list.len() - 1].name@ != name);
        assert forall|j: int| k < j < rest.len() implies (#[trigger] rest[j]).name@ != name by {
            assert(list[j].name@ != name);
        }
        listed_last(known, rest, now, name, k);
    }
}

proof fn listed_at_all(
    known: Map<Seq<char>, SessionMeta>,
    list: Seq<SessionReport>,
    now: i64,
    name: Seq<char>,
)
    ensures
        events::sessions_listed(known, list, now).contains_key(name) <==> exists|j: int|
            0 <= j < list.len() && (#[trigger] list[j]).name@ == name,
    decreases list.len(),
{
    if list.len() > 0 {
        let rest = list.drop_last();
        listed_at_all(known, rest, now, name);
        assert(list[list.len() - 1] == list.last());
        if exists|j: int| 0 <= j < rest.len() && (#[trigger] rest[j]).name@ == name {
            let j = choose|j: int| 0 <= j < rest.len() && (#[trigger] rest[j]).name@ == name;
            assert(list[j].name@ == name);
        }
        if exists|j: int| 0 <= j < list.len() && (#[trigger] list[j]).name@ == name {
            let j = choose|j: int| 0 <= j < list.len() && (#[trigger] list[j]).name@ == name;
            if j < rest.len() {
                assert(rest[j].name@ == name);
            }
        }
    }
}

/// Where the host cannot list the sessions none is known.
pub proof fn without_a_listing_no_session_is_known(p: Panel, now: i64)
    ensures
        ({
            let next = events::updated(p, Event::Sessions(None), now);
            &&& forall|name: Seq<char>| !next.panel.sessions.contains_key(name)
            &&& next.panel == (Panel { sessions: next.panel.sessions, ..p })
        }),
{
}

/// A snapshot is kept as the last one read once there is a place it is read from, and
/// drawn where it shows anything new of any agent.
pub proof fn a_snapshot_is_kept(p: Panel, read: ReadResult, now: i64)
    ensures
        ({
            let next = events::updated(p, Event::Snapshot(read), now);
            &&& next.actions.len() == 0
            &&& p.load !is Polling ==> next.panel == p && !next.rerender
            &&& p.load matches LoadView::Polling { path, last } ==> next.panel == (Panel {
                load: LoadView::Polling { path, last: Some(panel::read_view(read)) },
                ..p
            })
            &&& p.load matches LoadView::Polling { path, last: None } ==> next.rerender
            &&& p.load matches LoadView::Polling { path, last: Some(ReadView::Loaded(was)) }
                ==> read matches ReadResult::Loaded(new) ==> (next.rerender <==> !shows_alike(
                was,
                new@,
            ))
            &&& p.load matches LoadView::Polling { path, last: Some(ReadView::Loaded(was)) }
                ==> read !is Loaded ==> next.rerender
            &&& p.load matches LoadView::Polling { path, last: Some(ReadView::Missing) } ==> (
            next.rerender <==> read !is Missing)
            &&& p.load matches LoadView::Polling { path, last: Some(ReadView::Unreadable(e)) } ==> (
            next.rerender <==> !(read is Unreadable && read->Unreadable_0@ == e))
            &&& p.load matches LoadView::Polling { path, last: Some(ReadView::ParseError(e)) } ==> (
            next.rerender <==> !(read is ParseError && read->ParseError_0@ == e))
        }),
{
    match (p.load, read) {
        (
            LoadView::Polling { path, last: Some(ReadView::Loaded(was)) },
            ReadResult::Loaded(new),
        ) => {
            alike_is_the_same(was, new@);
        },
        _ => {},
    }
}

proof fn alike_is_the_same(was: Seq<Agent>, new: Seq<Agent>)
    ensures
        events::same_agents(was, new) <==> shows_alike(was, new),
{
    if shows_alike(was, new) {
        assert forall|i: int| 0 <= i < was.len() implies events::same_agent(
            #[trigger] was[i],
            new[i],
        ) by {
            assert(alike(was[i], new[i]));
        }
    }
    if events::same_agents(was, new) {
        assert forall|i: int| 0 <= i < was.len() implies alike(#[trigger] was[i], new[i]) by {
            assert(events::same_agent(was[i], new[i]));
        }
    }
}

/// Two agents of whom the panel shows the same.
pub open spec fn alike(a: Agent, b: Agent) -> bool {
    &&& a.session_id@ == b.session_id@
    &&& a.name@ == b.name@
    &&& a.zellij_pane_id == b.zellij_pane_id
    &&& a.zellij_session is Some <==> b.zellij_session is Some
    &&& a.zellij_session is Some && b.zellij_session is Some ==> a.zellij_session->0@
        == b.zellij_session->0@
    &&& a.started_at_ms == b.started_at_ms
    &&& a.attention_at_ms == b.attention_at_ms
    &&& a.active == b.active
    &&& a.status is Busy <==> b.status is Busy
    &&& a.status is Idle <==> b.status is Idle
    &&& a.status is Waiting <==> b.status is Waiting
    &&& a.status is Unknown && b.status is Unknown ==> a.status->Unknown_0@ == b.status->Unknown_0@
}

pub open spec fn shows_alike(a: Seq<Agent>, b: Seq<Agent>) -> bool {
    a.len() == b.len() && forall|i: int| 0 <= i < a.len() ==> alike(#[trigger] a[i], b[i])
}

/// Seen events are taken over once there is a place they are read from, and drawn where
/// they differ.
pub proof fn seen_events_are_taken_over(p: Panel, seen: Dict<String, i64>, now: i64)
    ensures
        ({
            let next = events::updated(p, Event::SeenEvents(seen), now);
            &&& next.actions.len() == 0
            &&& p.seen_events_dir is None ==> next.panel == p && !next.rerender
            &&& p.seen_events_dir is Some ==> next.panel == (Panel { seen_disk: seen@, ..p }) && (
            next.rerender <==> seen@ != p.seen_disk)
        }),
{
}

/// Loading tells the panel who it is; it asks to hear of everything it acts on, and to
/// be allowed everything it does.
pub proof fn loading_subscribes(p: Panel, plugin_id: u32)
    ensures
        ({
            let next = events::loaded(p, plugin_id);
            &&& next.panel == (Panel { own_plugin_id: Some(plugin_id), ..p })
            &&& next.actions.len() == 2
            &&& next.actions[0] is Subscribe
            &&& next.actions[1] is RequestPermissions
            &&& forall|e: EventType| #[trigger] next.actions[0]->Subscribe_0.contains(e)
            &&& forall|e: PermissionType| #[trigger]
                next.actions[1]->RequestPermissions_0.contains(e)
        }),
{
    let told = events::loaded(p, plugin_id).actions[0]->Subscribe_0;
    let asked = events::loaded(p, plugin_id).actions[1]->RequestPermissions_0;
    assert(told[0] is ModeUpdate && told[1] is TabUpdate && told[2] is PaneUpdate && told[3]
        is Timer && told[4] is Mouse && told[5] is Key && told[6] is PermissionRequestResult
        && told[7] is RunCommandResult);
    assert(asked[0] is ReadApplicationState && asked[1] is FullHdAccess && asked[2]
        is ReadSessionEnvironmentVariables && asked[3] is RunCommands && asked[4]
        is WriteToClipboard);
}

/// A panel starts with nothing known and nothing selected, and waits for permission.
pub proof fn a_new_panel_knows_nothing(state_dir: Seq<char>, mode: ModeView, sid: Seq<char>)
    ensures
        ({
            let p = panel::fresh(state_dir, mode);
            &&& p.load is AwaitingPermission
            &&& p.state_dir == state_dir
            &&& p.mode == mode
            &&& p.selected is None
            &&& p.scroll == 0
            &&& p.row_ranges.len() == 0
            &&& p.own_plugin_id is None
            &&& p.active_tab is None
            &&& p.last_external is None
            &&& p.seen_events_dir is None
            &&& p.dismissed_events_dir is None
            &&& !p.was_focused
            &&& !p.follow
            &&& p.cur_timeout == 0
            &&& p.since_poll == 0
            &&& !p.seen_disk.contains_key(sid)
            &&& !p.seen_overlay.contains_key(sid)
            &&& !p.dismissed.contains(sid)
            &&& !p.sessions.contains_key(sid)
            &&& !p.focus_targets.contains_key(sid)
            &&& !p.in_flight.contains_key(sid)
        }),
{
}

/// An action is what it is called, with its texts as they are.
pub proof fn actions_are_what_they_are_called(a: Action)
    ensures
        a is ListSessions <==> a@ is ListSessions,
        a is FocusRight <==> a@ is FocusRight,
        a is Subscribe <==> a@ is Subscribe,
        a is RequestPermissions <==> a@ is RequestPermissions,
        a is RunCommand <==> a@ is RunCommand,
        a is WriteEvent <==> a@ is WriteEvent,
        a matches Action::ChangeHostFolder(s) ==> a@ == ActionView::ChangeHostFolder(s@),
        a matches Action::ReadSeenEvents(s) ==> a@ == ActionView::ReadSeenEvents(s@),
        a matches Action::ReadSnapshot(s) ==> a@ == ActionView::ReadSnapshot(s@),
        a matches Action::SetTimeout(t) ==> a@ == ActionView::SetTimeout(t),
        a matches Action::SwitchSession(s) ==> a@ == ActionView::SwitchSession(s@),
        a matches Action::CopyToClipboard(s) ==> a@ == ActionView::CopyToClipboard(s@),
        a matches Action::Subscribe(v) ==> a@->Subscribe_0 == v@,
        a matches Action::RequestPermissions(v) ==> a@->RequestPermissions_0 == v@,
        a matches Action::WriteEvent { dir, name, bytes } ==> a@->dir == dir@ && a@->WriteEvent_name
            == name@ && a@->bytes == bytes@,
        a matches Action::RunCommand { args, context } ==> {
            &&& a@->args.len() == args.len()
            &&& a@->context.len() == context.len()
            &&& forall|i: int| 0 <= i < args.len() ==> #[trigger] a@->args[i] == args[i]@
            &&& forall|i: int|
                0 <= i < context.len() ==> #[trigger] a@->context[i] == (
                    context[i].0@,
                    context[i].1@,
                )
        },
{
}

/// What was read, how far loading is, and what a row routes to are each what they are
/// called.
pub proof fn readings_and_targets_are_what_they_are_called(
    r: ReadResult,
    l: LoadState,
    t: RowTarget,
)
    ensures
        r matches ReadResult::Loaded(a) ==> panel::read_view(r) == ReadView::Loaded(a@),
        r is Missing ==> panel::read_view(r) is Missing,
        r matches ReadResult::Unreadable(e) ==> panel::read_view(r) == ReadView::Unreadable(e@),
        r matches ReadResult::ParseError(e) ==> panel::read_view(r) == ReadView::ParseError(e@),
        l is AwaitingPermission <==> panel::load_view(l) is AwaitingPermission,
        l is NoHomeInEnv <==> panel::load_view(l) is NoHomeInEnv,
        l matches LoadState::Polling { path, last } ==> panel::load_view(l)->path == path@ && (
        last is Some <==> panel::load_view(l)->last is Some) && (last is Some
            ==> panel::load_view(l)->last->0 == panel::read_view(last->0)),
        t matches RowTarget::Agent(s) ==> t@ == TargetView::Agent(s@),
        t matches RowTarget::Session(s) ==> t@ == TargetView::Session(s@),
{
}

} // verus!
