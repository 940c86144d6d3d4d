//! What the panel promises as a whole.
use super::cells;
use super::events;
use super::events::{ActionView, Event};
use super::groups;
use super::groups::SessionMeta;
use super::lines;
use super::lines::LineView;
use super::paint;
use super::panel;
use super::panel::{Panel, MAX_SPIN_TICKS};
use super::wrap;
use crate::keys::{BareKey, KeyWithModifier};
use crate::readmodel::Agent;
use crate::seqs;
use vstd::prelude::*;

verus! {

/// Acknowledging an agent clears its alert at once, before anything is written.
pub proof fn acknowledging_clears_the_alert(p: Panel, sid: Seq<char>)
    requires
        events::find(events::current(p), sid) is Some,
    ensures
        ({
            let a = events::find(events::current(p), sid)->0;
            !cells::flags_of(events::acknowledged(p, sid).panel, a).needs_attention
        }),
{
    found_has_sid(events::current(p), sid);
}

proof fn found_has_sid(agents: Seq<Agent>, sid: Seq<char>)
    ensures
        events::find(agents, sid) matches Some(a) ==> a.session_id@ == sid && agents.contains(a),
    decreases agents.len(),
{
    if agents.len() > 0 {
        found_has_sid(agents.drop_last(), sid);
        if events::find(agents.drop_last(), sid) is Some {
            let a = events::find(agents.drop_last(), sid)->0;
            let i = choose|i: int| 0 <= i < agents.drop_last().len() && agents.drop_last()[i] == a;
            assert(agents[i] == a);
        } else {
            assert(agents[agents.len() - 1] == agents.last());
        }
    }
}

/// A later mark never takes back an earlier one: what counts as seen only grows
/// with an acknowledgement.
pub proof fn acknowledging_never_forgets(p: Panel, sid: Seq<char>, other: Seq<char>)
    ensures
        cells::effective_seen_at(events::acknowledged(p, sid).panel, other)
            >= cells::effective_seen_at(p, other),
{
}

/// Dismissing an agent hides it at once, whatever the daemon does.
pub proof fn a_dismissed_agent_is_hidden(p: Panel, sid: Seq<char>, now: i64, a: Agent)
    ensures
        events::visible(events::dismissing(p, sid, now).panel).contains(a) ==> a.session_id@ != sid,
{
    let q = events::dismissing(p, sid, now).panel;
    seqs::filter_members(events::current(q), events::not_dismissed(q.dismissed));
}

/// Only an agent that is gone can be dismissed: a live one ignores the key.
pub proof fn a_live_row_ignores_dismissal(p: Panel, key: KeyWithModifier, now: i64)
    requires
        key.bare_key == BareKey::Char('x'),
        events::selected_agent(p) matches Some(a) && a.active,
    ensures
        events::after_key(p, key, now) == events::quiet(p, false),
{
}

/// A dismissal lasts until the agent is live again or no longer listed.
pub proof fn a_dismissal_lasts_while_listed_inactive(p: Panel, sid: Seq<char>)
    requires
        p.dismissed.contains(sid),
    ensures
        cells::still_dismissed(p).contains(sid) <==> cells::listed_inactive(
            events::current(p),
            sid,
        ),
{
}

/// The wheel moves the viewport without moving the cursor, and does not make the
/// viewport chase it.
pub proof fn the_wheel_never_moves_the_cursor(p: Panel, lines: usize)
    ensures
        events::after_scroll_up(p, lines).panel == (Panel {
            scroll: events::after_scroll_up(p, lines).panel.scroll,
            ..p
        }),
        events::after_scroll_down(p, lines).panel == (Panel {
            scroll: events::after_scroll_down(p, lines).panel.scroll,
            ..p
        }),
        events::after_scroll_up(p, lines).panel.scroll <= p.scroll,
        events::after_scroll_down(p, lines).panel.scroll >= p.scroll,
{
}

/// How many timers a list of actions arms.
pub open spec fn timers(actions: Seq<ActionView>) -> nat
    decreases actions.len(),
{
    if actions.len() == 0 {
        0
    } else {
        timers(actions.drop_last()) + (if actions.last() is SetTimeout {
            1nat
        } else {
            0
        })
    }
}

proof fn no_timer(actions: Seq<ActionView>)
    requires
        forall|i: int| 0 <= i < actions.len() ==> !((#[trigger] actions[i]) is SetTimeout),
    ensures
        timers(actions) == 0,
    decreases actions.len(),
{
    if actions.len() > 0 {
        assert(!(actions[actions.len() - 1] is SetTimeout));
        assert forall|i: int| 0 <= i < actions.drop_last().len() implies !((
        #[trigger] actions.drop_last()[i]) is SetTimeout) by {
            assert(actions[i] == actions.drop_last()[i]);
        }
        no_timer(actions.drop_last());
    }
}

proof fn one_timer(actions: Seq<ActionView>, t: u32)
    requires
        forall|i: int| 0 <= i < actions.len() ==> !((#[trigger] actions[i]) is SetTimeout),
    ensures
        timers(actions + seq![ActionView::SetTimeout(t)]) == 1,
{
    no_timer(actions);
    let all = actions + seq![ActionView::SetTimeout(t)];
    assert(all.drop_last() =~= actions);
}

/// Exactly one timer is ever pending: the answer to the permission prompt arms
/// one, each timer that fires arms one again, and nothing else arms any.
pub proof fn one_timer_is_pending(p: Panel, event: Event, now: i64)
    ensures
        timers(events::updated(p, event, now).actions) == (match event {
            Event::Timer => 1,
            Event::PermissionRequestResult(_) => if p.load is AwaitingPermission {
                1nat
            } else {
                0
            },
            _ => 0,
        }),
{
    let actions = events::updated(p, event, now).actions;
    match event {
        Event::Timer => {
            let before = actions.drop_last();
            assert(actions =~= before + seq![actions.last()]);
            assert(actions.last() is SetTimeout);
            one_timer(before, actions.last()->SetTimeout_0);
        },
        Event::PermissionRequestResult(env) => {
            if p.load is AwaitingPermission {
                let before = actions.drop_last();
                assert(actions.last() is SetTimeout);
                assert(actions =~= before + seq![actions.last()]);
                one_timer(before, actions.last()->SetTimeout_0);
            }
        },
        Event::Key(key) => {
            no_timer(actions);
        },
        Event::LeftClick(line) => {
            no_timer(actions);
        },
        _ => {
            no_timer(actions);
        },
    }
}

/// The spinners after some ticks without a new click.
pub open spec fn ticked(m: Map<Seq<char>, u32>, n: nat) -> Map<Seq<char>, u32>
    decreases n,
{
    if n == 0 {
        m
    } else {
        events::spun(ticked(m, (n - 1) as nat))
    }
}

proof fn ticked_ages(m: Map<Seq<char>, u32>, n: nat)
    ensures
        forall|k: Seq<char>| #[trigger]
            ticked(m, n).contains_key(k) ==> m.contains_key(k) && ticked(m, n)[k] == m[k] + n && (n
                > 0 ==> m[k] + n <= MAX_SPIN_TICKS),
    decreases n,
{
    if n > 0 {
        ticked_ages(m, (n - 1) as nat);
        assert forall|k: Seq<char>| #[trigger] ticked(m, n).contains_key(k) implies m.contains_key(k)
            && ticked(m, n)[k] == m[k] + n && m[k] + n <= MAX_SPIN_TICKS by {
            assert(ticked(m, (n - 1) as nat).contains_key(k));
        }
    }
}

/// A lost result cannot spin forever: past the cap, no spinner is left.
pub proof fn a_lost_result_stops_spinning(m: Map<Seq<char>, u32>)
    ensures
        ticked(m, (MAX_SPIN_TICKS + 1) as nat) == Map::<Seq<char>, u32>::empty(),
{
    ticked_ages(m, (MAX_SPIN_TICKS + 1) as nat);
    assert(ticked(m, (MAX_SPIN_TICKS + 1) as nat) =~= Map::<Seq<char>, u32>::empty());
}

/// A tick asks for a repaint while anything is still spinning, and also where it
/// has just stopped, whose mark is to go. Where nothing was spinning nothing is, and
/// the tick by itself asks for none.
pub proof fn a_tick_repaints_what_spins(p: Panel)
    ensures
        ({
            let next = events::after_timer(p);
            let none = Map::<Seq<char>, u32>::empty();
            &&& next.panel.in_flight != none ==> next.rerender
            &&& next.panel.in_flight != p.in_flight ==> next.rerender
            &&& p.in_flight == none ==> !next.rerender && next.panel.in_flight == none
        }),
{
    let none = Map::<Seq<char>, u32>::empty();
    if p.in_flight == none {
        assert(events::spun(p.in_flight) =~= none);
    }
}

proof fn listed_keeps_known(
    known: Map<Seq<char>, SessionMeta>,
    list: Seq<events::SessionReport>,
    now: i64,
    name: Seq<char>,
)
    requires
        known.contains_key(name),
        events::sessions_listed(known, list, now).contains_key(name),
    ensures
        events::sessions_listed(known, list, now)[name].created_ms == known[name].created_ms,
    decreases list.len(),
{
    if list.len() > 0 && list.last().name@ != name {
        listed_keeps_known(known, list.drop_last(), now, name);
    }
}

/// A session keeps its slot: its creation time is pinned when it is first seen.
pub proof fn a_session_keeps_its_creation_time(
    p: Panel,
    list: Option<Vec<events::SessionReport>>,
    now: i64,
    name: Seq<char>,
)
    requires
        p.sessions.contains_key(name),
        events::after_sessions(p, list, now).panel.sessions.contains_key(name),
    ensures
        events::after_sessions(p, list, now).panel.sessions[name].created_ms
            == p.sessions[name].created_ms,
{
    listed_keeps_known(p.sessions, list->0@, now, name);
}

/// A header switches only to a live session, and never to the one we are in.
pub proof fn a_header_switches_only_to_another_live_session(
    g: groups::GroupView,
    sessions: Map<Seq<char>, SessionMeta>,
    own: Seq<char>,
)
    ensures
        lines::header(g, sessions, own)->switch_to matches Some(name) ==> sessions.contains_key(
            name,
        ) && name == groups::label_text(g.label) && (own.len() > 0 ==> name != own),
{
}

/// Our own window does not make our session count as open elsewhere.
pub proof fn our_own_client_is_discounted(
    g: groups::GroupView,
    sessions: Map<Seq<char>, SessionMeta>,
    own: Seq<char>,
)
    requires
        own.len() > 0,
        groups::label_text(g.label) == own,
        sessions.contains_key(own) ==> sessions[own].clients <= 1,
    ensures
        !lines::header(g, sessions, own)->open_elsewhere,
{
}

/// A click on the row of an agent that is gone only selects and acknowledges: it
/// runs no command.
pub proof fn a_dead_row_only_selects(p: Panel, sid: Seq<char>)
    requires
        events::find(events::current(p), sid) matches Some(a) && !a.active,
    ensures
        events::routed(p, sid, false) == events::quiet(p, true),
        forall|i: int|
            0 <= i < events::activated(p, sid, false).actions.len() ==> !((
            #[trigger] events::activated(p, sid, false).actions[i]) is RunCommand),
{
    let q = events::acknowledged(p, sid).panel;
    assert(events::current(q) == events::current(p));
    assert(events::routed(q, sid, false) == events::quiet(q, true));
}

proof fn rows_route_to_themselves(
    rows: Seq<groups::RowView>,
    above: Map<Seq<char>, Seq<char>>,
)
    requires
        forall|i: int|
            0 <= i < rows.len() ==> ((#[trigger] rows[i]).focus_sid matches Some(t) ==> t
                == rows[i].agent.session_id@),
        forall|k: Seq<char>| #[trigger] above.contains_key(k) ==> above[k] == k,
    ensures
        forall|k: Seq<char>| #[trigger]
            cells::row_targets(rows, above).contains_key(k) ==> cells::row_targets(rows, above)[k]
                == k && (above.contains_key(k) || exists|i: int|
                0 <= i < rows.len() && (#[trigger] rows[i]).focus_sid == Some(k)),
    decreases rows.len(),
{
    if rows.len() > 0 {
        let rest = rows.drop_last();
        assert forall|i: int| 0 <= i < rest.len() implies ((#[trigger] rest[i]).focus_sid matches Some(
            t,
        ) ==> t == rest[i].agent.session_id@) by {
            assert(rest[i] == rows[i]);
        }
        rows_route_to_themselves(rest, above);
        assert forall|k: Seq<char>| #[trigger]
            cells::row_targets(rows, above).contains_key(k) implies cells::row_targets(rows, above)[k]
            == k && (above.contains_key(k) || exists|i: int|
            0 <= i < rows.len() && (#[trigger] rows[i]).focus_sid == Some(k)) by {
            let last = rows[rows.len() - 1];
            if last.focus_sid == Some(k) {
            } else {
                assert(cells::row_targets(rest, above).contains_key(k));
                if !above.contains_key(k) {
                    let i = choose|i: int|
                        0 <= i < rest.len() && (#[trigger] rest[i]).focus_sid == Some(k);
                    assert(rows[i].focus_sid == Some(k));
                }
            }
        }
    }
}

proof fn groups_route_to_themselves(gs: Seq<groups::GroupView>)
    requires
        forall|g: int, i: int|
            0 <= g < gs.len() && 0 <= i < gs[g].rows.len() ==> ((#[trigger] gs[g].rows[i]).focus_sid matches Some(
            t) ==> t == gs[g].rows[i].agent.session_id@),
    ensures
        forall|k: Seq<char>| #[trigger]
            cells::focus_map(gs).contains_key(k) ==> cells::focus_map(gs)[k] == k && exists|
                g: int,
                i: int,
            |
                0 <= g < gs.len() && 0 <= i < gs[g].rows.len() && (
                #[trigger] gs[g].rows[i]).focus_sid == Some(k),
    decreases gs.len(),
{
    if gs.len() > 0 {
        let rest = gs.drop_last();
        let rows = gs[gs.len() - 1].rows;
        assert forall|g: int, i: int|
            0 <= g < rest.len() && 0 <= i < rest[g].rows.len() implies ((
        #[trigger] rest[g].rows[i]).focus_sid matches Some(t) ==> t
            == rest[g].rows[i].agent.session_id@) by {
            assert(rest[g].rows[i] == gs[g].rows[i]);
        }
        groups_route_to_themselves(rest);
        assert forall|i: int| 0 <= i < rows.len() implies ((#[trigger] rows[i]).focus_sid matches Some(
            t,
        ) ==> t == rows[i].agent.session_id@) by {
            assert(rows[i] == gs[gs.len() - 1].rows[i]);
        }
        rows_route_to_themselves(rows, cells::focus_map(rest));
        assert forall|k: Seq<char>| #[trigger] cells::focus_map(gs).contains_key(k) implies cells::focus_map(
        gs)[k] == k && exists|g: int, i: int|
            0 <= g < gs.len() && 0 <= i < gs[g].rows.len() && (#[trigger] gs[g].rows[i]).focus_sid
                == Some(k) by {
            assert(cells::row_targets(rows, cells::focus_map(rest)).contains_key(k));
            if cells::focus_map(rest).contains_key(k) {
                let (g, i) = choose|g: int, i: int|
                    0 <= g < rest.len() && 0 <= i < rest[g].rows.len() && (
                    #[trigger] rest[g].rows[i]).focus_sid == Some(k);
                assert(gs[g].rows[i].focus_sid == Some(k));
            } else {
                let i = choose|i: int|
                    0 <= i < rows.len() && (#[trigger] rows[i]).focus_sid == Some(k);
                assert(gs[gs.len() - 1].rows[i].focus_sid == Some(k));
            }
        }
    }
}

/// Every row that routes anywhere routes to its own agent, and none of them is
/// only a background agent's.
pub proof fn rows_route_to_interactive_agents(
    agents: Seq<Agent>,
    sessions: Map<Seq<char>, SessionMeta>,
    sid: Seq<char>,
)
    requires
        cells::focus_map(groups::grouping(agents, sessions)).contains_key(sid),
    ensures
        cells::focus_map(groups::grouping(agents, sessions))[sid] == sid,
        exists|i: int|
            0 <= i < agents.len() && !groups::is_bg(#[trigger] agents[i]) && agents[i].session_id@
                == sid,
{
    let gs = groups::grouping(agents, sessions);
    let keys = groups::group_keys(agents, sessions);
    assert forall|g: int, i: int| 0 <= g < gs.len() && 0 <= i < gs[g].rows.len() implies ((
    #[trigger] gs[g].rows[i]).focus_sid matches Some(t) ==> t
        == gs[g].rows[i].agent.session_id@) by {
        if g < keys.len() {
            assert(gs[g] == groups::group_of(agents, sessions, keys[g]));
        }
    }
    groups_route_to_themselves(gs);
    let (g, i) = choose|g: int, i: int|
        0 <= g < gs.len() && 0 <= i < gs[g].rows.len() && (#[trigger] gs[g].rows[i]).focus_sid
            == Some(sid);
    if g < keys.len() {
        assert(gs[g] == groups::group_of(agents, sessions, keys[g]));
        let tops = groups::members(agents, keys[g]);
        let picked = agents.filter(groups::in_group(keys[g]));
        super::group_laws::by_start_orders(picked);
        let a = tops[i];
        assert(a.session_id@ == sid);
        assert(tops.contains(a));
        assert(picked.contains(a)) by {
            broadcast use vstd::seq_lib::group_to_multiset_ensures;

            assert(tops.to_multiset().count(a) > 0);
            assert(picked.to_multiset().count(a) > 0);
        }
        seqs::filter_members(agents, groups::in_group(keys[g]));
        assert(agents.contains(a));
        let k = choose|k: int| 0 <= k < agents.len() && agents[k] == a;
        assert(!groups::is_bg(agents[k]));
    }
}

/// Green means on this screen: an agent of another session is never in view,
/// whatever its pane's number.
pub proof fn only_this_session_is_in_view(p: Panel, a: Agent)
    requires
        crate::host::opt_text(a.zellij_session) != Some(cells::own_session(p)),
    ensures
        !cells::flags_of(p, a).is_in_view,
{
}

/// A busy agent is not waiting on anyone, and an agent that is gone raises no
/// alert and is in nobody's view.
pub proof fn no_alert_without_a_reason(p: Panel, a: Agent)
    ensures
        a.status is Busy ==> !cells::flags_of(p, a).needs_attention,
        !a.active ==> !cells::flags_of(p, a).needs_attention && !cells::flags_of(p, a).is_in_view,
{
}

/// While the viewport follows the cursor, the agent under it is on screen, given
/// that there is room for it and a line above.
pub proof fn the_viewport_shows_the_cursor(
    scroll: int,
    selected: usize,
    spans: Seq<(int, int)>,
    n_lines: int,
    rows: int,
)
    requires
        selected < spans.len(),
        0 <= spans[selected as int].0 <= spans[selected as int].1 <= n_lines,
        spans[selected as int].1 - spans[selected as int].0 < rows,
        scroll >= 0,
    ensures
        ({
            let top = cells::scrolled(scroll, true, Some(selected), spans, n_lines, rows);
            top <= spans[selected as int].0 && spans[selected as int].1 <= top + rows
        }),
{
}

/// The viewport never starts before the first line, nor so late that a screen
/// is left part empty while there is more above.
pub proof fn the_viewport_stays_inside(
    scroll: int,
    follow: bool,
    selected: Option<usize>,
    spans: Seq<(int, int)>,
    n_lines: int,
    rows: int,
)
    requires
        scroll >= 0,
        n_lines >= 0,
        rows >= 0,
    ensures
        ({
            let top = cells::scrolled(scroll, follow, selected, spans, n_lines, rows);
            0 <= top && (top == 0 || top + rows <= n_lines)
        }),
{
}

/// A frame has as many rows as there are lines, but no more than the screen.
pub proof fn a_frame_fits_the_screen(
    p: Panel,
    rows: nat,
    cols: nat,
    colors: paint::AgentColors,
    seen: Map<Seq<char>, i64>,
)
    ensures
        ({
            let n = cells::panel_lines(cells::settled(p, seen), cols).len();
            cells::cells(p, rows, cols, colors, seen).frame.len() == if n < rows {
                n
            } else {
                rows
            }
        }),
{
    let s = cells::settled(p, seen);
    let all = cells::panel_lines(s, cols);
    the_viewport_stays_inside(
        s.scroll as int,
        s.follow,
        cells::clamped(s.selected, events::shown(s).len()),
        cells::panel_spans(s, cols),
        all.len() as int,
        rows as int,
    );
}

/// Whatever it shows, every row of a frame is exactly as wide as the screen, the
/// rows with scroll marks included, given the columns before an agent's name.
pub proof fn every_row_fills_the_width(
    p: Panel,
    rows: nat,
    cols: nat,
    colors: paint::AgentColors,
    seen: Map<Seq<char>, i64>,
    i: int,
)
    requires
        paint::glyphs_are_narrow(),
        forall|age: u32| wrap::char_columns(#[trigger] cells::spin_frame(age)) == 1,
        cols >= paint::OUTER_PAD + paint::AGENT_INDENT,
        0 <= i < cells::cells(p, rows, cols, colors, seen).frame.len(),
    ensures
        paint::row_columns(cells::cells(p, rows, cols, colors, seen).frame[i]) == cols,
{
    let s = cells::settled(p, seen);
    let all = cells::panel_lines(s, cols);
    let shown = events::shown(s);
    let selected = cells::clamped(s.selected, shown.len());
    let sid = match selected {
        Some(k) => Some(shown[k as int].session_id@),
        None => None,
    };
    let d = cells::cells(p, rows, cols, colors, seen);
    let spans = cells::panel_spans(s, cols);
    let n = all.len() as int;
    let top = cells::scrolled(s.scroll as int, s.follow, selected, spans, n, rows as int);
    the_viewport_stays_inside(s.scroll as int, s.follow, selected, spans, n, rows as int);
    let end = if n - top <= rows {
        n
    } else {
        top + rows
    };
    let window = all.subrange(top, end);
    let plain = window.map_values(|l: LineView| cells::painted(l, s, sid, colors, cols));
    assert(d.frame == cells::with_marks(plain, top > 0, end < n, colors, cols));
    a_line_fills_the_width(window[i], s, sid, colors, cols);
    assert(plain[i] == cells::painted(window[i], s, sid, colors, cols));
    paint::a_marked_row_fills_the_width(plain[0], cols, colors, '\u{2191}');
    let first = if top > 0 {
        plain.update(0, paint::marked_row(plain[0], cols, colors, '\u{2191}'))
    } else {
        plain
    };
    paint::a_marked_row_fills_the_width(first.last(), cols, colors, '\u{2193}');
}

proof fn a_line_fills_the_width(
    line: LineView,
    p: Panel,
    sid: Option<Seq<char>>,
    colors: paint::AgentColors,
    cols: nat,
)
    requires
        paint::glyphs_are_narrow(),
        forall|age: u32| wrap::char_columns(#[trigger] cells::spin_frame(age)) == 1,
        cols >= paint::OUTER_PAD + paint::AGENT_INDENT,
    ensures
        paint::row_columns(cells::painted(line, p, sid, colors, cols)) == cols,
{
    match line {
        LineView::Padding => paint::a_padding_row_fills_the_width(colors, cols),
        LineView::Header { label, unrouted_in_group, open_elsewhere, switch_to } => {
            paint::a_header_row_fills_the_width(
                label,
                unrouted_in_group,
                open_elsewhere,
                lines::is_own(label, cells::own_session(p)),
                colors,
                cols,
            );
        },
        LineView::AgentRow {
            sid: own,
            status,
            text,
            needs_attention,
            unrouted,
            is_in_view,
            active,
            is_first_wrap_line,
            is_child,
            is_last_child,
            is_bg,
        } => {
            paint::an_agent_row_fills_the_width(
                text,
                status,
                paint::RowState {
                    needs_attention,
                    unrouted,
                    is_in_view,
                    active,
                    is_first_wrap_line,
                    is_child,
                    is_last_child,
                    is_bg,
                    selected: sid == Some(own),
                    spinner: if p.in_flight.contains_key(own) {
                        Some(cells::spin_frame(p.in_flight[own]))
                    } else {
                        None
                    },
                },
                colors,
                cols,
            );
        },
    }
}

/// Where there is more above, the first row ends in an arrow up; where there is
/// more below, the last row ends in an arrow down. Of one row only the latter is
/// said.
pub proof fn arrows_tell_of_more(
    p: Panel,
    rows: nat,
    cols: nat,
    colors: paint::AgentColors,
    seen: Map<Seq<char>, i64>,
)
    requires
        rows >= 1,
        cells::panel_lines(cells::settled(p, seen), cols).len() <= usize::MAX,
    ensures
        ({
            let d = cells::cells(p, rows, cols, colors, seen);
            let n = cells::panel_lines(cells::settled(p, seen), cols).len();
            &&& d.panel.scroll > 0 && rows >= 2 ==> d.frame[0].last().text.last() == '\u{2191}'
            &&& d.panel.scroll + rows < n ==> d.frame.last().last().text.last() == '\u{2193}'
        }),
{
    let s = cells::settled(p, seen);
    let all = cells::panel_lines(s, cols);
    the_viewport_stays_inside(
        s.scroll as int,
        s.follow,
        cells::clamped(s.selected, events::shown(s).len()),
        cells::panel_spans(s, cols),
        all.len() as int,
        rows as int,
    );
    a_frame_fits_the_screen(p, rows, cols, colors, seen);
}

} // verus!
