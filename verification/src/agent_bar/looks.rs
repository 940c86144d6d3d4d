//! What stands where on the panel: groups, lines, and what each line routes to.
use super::cells;
use super::cells::{Drawn, Face};
use super::events;
use super::group_laws;
use super::groups;
use super::groups::{Group, GroupLabel, GroupView, LabelView, Row, SessionMeta};
use super::lines;
use super::lines::{Flags, Line, LineView};
use super::paint;
use super::paint::AgentColors;
use super::panel::{LoadView, Panel, ReadView, TargetView};
use super::wrap;
use crate::readmodel::Agent;
use crate::seqs;
use crate::text;
use vstd::prelude::*;

verus! {

/// Whether an agent stands under a session, or under none.
pub open spec fn stands_under(a: Agent, key: Option<Seq<char>>) -> bool {
    &&& a.kind@ != seq!['b', 'g']
    &&& match key {
        Some(s) => a.zellij_session is Some && a.zellij_session->0@ == s,
        None => a.zellij_session is None,
    }
}

proof fn ordered_holds_the_same(s: Seq<Agent>, a: Agent)
    ensures
        groups::by_start(s).contains(a) <==> s.contains(a),
{
    broadcast use vstd::seq_lib::group_to_multiset_ensures;

    group_laws::by_start_orders(s);
    assert(groups::by_start(s).contains(a) <==> groups::by_start(s).to_multiset().count(a) > 0);
    assert(s.contains(a) <==> s.to_multiset().count(a) > 0);
}

proof fn member_stands_under(agents: Seq<Agent>, key: Option<Seq<char>>, a: Agent)
    ensures
        groups::members(agents, key).contains(a) <==> agents.contains(a) && stands_under(a, key),
        groups::background(agents).contains(a) <==> agents.contains(a) && a.kind@ == seq!['b', 'g'],
{
    reveal_strlit("bg");
    assert("bg"@ =~= seq!['b', 'g']);
    ordered_holds_the_same(agents.filter(groups::in_group(key)), a);
    seqs::filter_members(agents, groups::in_group(key));
    ordered_holds_the_same(agents.filter(groups::in_background()), a);
    seqs::filter_members(agents, groups::in_background());
}

/// A group holds exactly the agents of its session that are not in the background, the
/// earlier one first, each on a row of its own that routes to itself. It says where one
/// of them has no pane, and it is as old as its session, or as its first agent where
/// the session is not live.
pub proof fn a_group_holds_its_sessions_agents(
    agents: Seq<Agent>,
    sessions: Map<Seq<char>, SessionMeta>,
    key: Option<Seq<char>>,
    a: Agent,
)
    ensures
        ({
            let g = groups::group_of(agents, sessions, key);
            &&& key matches Some(s) ==> g.label == LabelView::Session(s)
            &&& key is None ==> g.label is Sessionless
            &&& (exists|i: int| 0 <= i < g.rows.len() && (#[trigger] g.rows[i]).agent == a)
                <==> agents.contains(a) && stands_under(a, key)
            &&& forall|i: int|
                0 <= i < g.rows.len() ==> (#[trigger] g.rows[i]).focus_sid == Some(
                    g.rows[i].agent.session_id@,
                ) && !g.rows[i].is_child && !g.rows[i].is_last_child
            &&& forall|i: int, j: int|
                #![trigger g.rows[i], g.rows[j]]
                0 <= i <= j < g.rows.len() ==> g.rows[i].agent.started_at_ms
                    <= g.rows[j].agent.started_at_ms
            &&& g.any_unrouted <==> exists|i: int|
                0 <= i < g.rows.len() && (#[trigger] g.rows[i]).agent.zellij_pane_id is None
            &&& key is Some && sessions.contains_key(key->0) ==> g.created_ms
                == sessions[key->0].created_ms
            &&& !(key is Some && sessions.contains_key(key->0)) && g.rows.len() > 0
                ==> g.created_ms == g.rows[0].agent.started_at_ms
            &&& !(key is Some && sessions.contains_key(key->0)) && g.rows.len() == 0
                ==> g.created_ms == i64::MAX
        }),
{
    let g = groups::group_of(agents, sessions, key);
    let tops = groups::members(agents, key);
    assert(g.rows.len() == tops.len());
    assert forall|i: int| 0 <= i < tops.len() implies (#[trigger] g.rows[i]).agent == tops[i] by {}
    member_stands_under(agents, key, a);
    group_laws::by_start_orders(agents.filter(groups::in_group(key)));
    if tops.contains(a) {
        let i = choose|i: int| 0 <= i < tops.len() && tops[i] == a;
        assert(g.rows[i].agent == a);
    }
    assert forall|i: int, j: int|
        #![trigger g.rows[i], g.rows[j]]
        0 <= i <= j < g.rows.len() implies g.rows[i].agent.started_at_ms
        <= g.rows[j].agent.started_at_ms by {
        assert(tops[i].started_at_ms <= tops[j].started_at_ms);
    }
    if groups::unrouted(tops) {
        let i = choose|i: int| 0 <= i < tops.len() && (#[trigger] tops[i]).zellij_pane_id is None;
        assert(g.rows[i].agent.zellij_pane_id is None);
    }
}

/// The background agents stand together, the earlier one first, and none of them can be
/// gone to.
pub proof fn the_background_agents_stand_together(agents: Seq<Agent>, a: Agent)
    requires
        groups::background(agents).len() > 0,
    ensures
        ({
            let g = groups::background_group(agents);
            &&& g.label is BackgroundAgents
            &&& (exists|i: int| 0 <= i < g.rows.len() && (#[trigger] g.rows[i]).agent == a)
                <==> agents.contains(a) && a.kind@ == seq!['b', 'g']
            &&& forall|i: int|
                0 <= i < g.rows.len() ==> (#[trigger] g.rows[i]).focus_sid is None
                    && !g.rows[i].is_child && !g.rows[i].is_last_child
            &&& forall|i: int, j: int|
                #![trigger g.rows[i], g.rows[j]]
                0 <= i <= j < g.rows.len() ==> g.rows[i].agent.started_at_ms
                    <= g.rows[j].agent.started_at_ms
            &&& !g.any_unrouted
            &&& g.created_ms == g.rows[0].agent.started_at_ms
        }),
{
    let g = groups::background_group(agents);
    let bg = groups::background(agents);
    assert(g.rows.len() == bg.len());
    assert forall|i: int| 0 <= i < bg.len() implies (#[trigger] g.rows[i]).agent == bg[i] by {}
    member_stands_under(agents, None, a);
    group_laws::by_start_orders(agents.filter(groups::in_background()));
    if bg.contains(a) {
        let i = choose|i: int| 0 <= i < bg.len() && bg[i] == a;
        assert(g.rows[i].agent == a);
    }
    assert forall|i: int, j: int|
        #![trigger g.rows[i], g.rows[j]]
        0 <= i <= j < g.rows.len() implies g.rows[i].agent.started_at_ms
        <= g.rows[j].agent.started_at_ms by {
        assert(bg[i].started_at_ms <= bg[j].started_at_ms);
    }
}

/// There is a group for each session that is live or that an agent names, one for the
/// agents without a session and one for those in the background where there are any,
/// and each group is the one of its label.
pub proof fn there_is_a_group_for_each_that_is_owed_one(
    agents: Seq<Agent>,
    sessions: Map<Seq<char>, SessionMeta>,
    name: Seq<char>,
    i: int,
)
    requires
        sessions.dom().finite(),
        0 <= i < groups::grouping(agents, sessions).len(),
    ensures
        ({
            let all = groups::grouping(agents, sessions);
            &&& (exists|k: int|
                0 <= k < all.len() && (#[trigger] all[k]).label == LabelView::Session(name)) <==> (
            sessions.contains_key(name) || exists|j: int|
                0 <= j < agents.len() && stands_under(#[trigger] agents[j], Some(name)))
            &&& (exists|k: int| 0 <= k < all.len() && (#[trigger] all[k]).label is Sessionless)
                <==> exists|j: int|
                0 <= j < agents.len() && stands_under(#[trigger] agents[j], None)
            &&& (exists|k: int| 0 <= k < all.len() && (#[trigger] all[k]).label is BackgroundAgents)
                <==> exists|j: int|
                0 <= j < agents.len() && (#[trigger] agents[j]).kind@ == seq!['b', 'g']
            &&& all[i].label matches LabelView::Session(s) ==> all[i] == groups::group_of(
                agents,
                sessions,
                Some(s),
            )
            &&& all[i].label is Sessionless ==> all[i] == groups::group_of(agents, sessions, None)
            &&& all[i].label is BackgroundAgents ==> all[i] == groups::background_group(agents)
        }),
{
    let all = groups::grouping(agents, sessions);
    let keys = groups::group_keys(agents, sessions);
    group_laws::keys_are_those_owed(agents, sessions);
    assert forall|k: int| 0 <= k < keys.len() implies (#[trigger] all[k]) == groups::group_of(
        agents,
        sessions,
        keys[k],
    ) by {}
    owed_is_asked_for(agents, sessions, Some(name));
    owed_is_asked_for(agents, sessions, None);
    key_has_a_group(agents, sessions, Some(name));
    key_has_a_group(agents, sessions, None);
    if exists|j: int| 0 <= j < agents.len() && (#[trigger] agents[j]).kind@ == seq!['b', 'g'] {
        let j = choose|j: int| 0 <= j < agents.len() && (#[trigger] agents[j]).kind@ == seq!['b', 'g'];
        member_stands_under(agents, None, agents[j]);
        assert(agents.contains(agents[j]));
        assert(groups::background(agents).contains(agents[j]));
        assert(all[keys.len() as int].label is BackgroundAgents);
    }
    if groups::background(agents).len() > 0 {
        let b = groups::background(agents)[0];
        assert(groups::background(agents).contains(b));
        member_stands_under(agents, None, b);
        let j = choose|j: int| 0 <= j < agents.len() && agents[j] == b;
        assert(agents[j].kind@ == seq!['b', 'g']);
    }
}

proof fn owed_is_asked_for(
    agents: Seq<Agent>,
    sessions: Map<Seq<char>, SessionMeta>,
    key: Option<Seq<char>>,
)
    ensures
        groups::owed(agents, sessions).contains(key) <==> (key is Some && sessions.contains_key(
            key->0,
        )) || exists|j: int| 0 <= j < agents.len() && stands_under(#[trigger] agents[j], key),
{
    reveal_strlit("bg");
    assert("bg"@ =~= seq!['b', 'g']);
    assert forall|j: int| 0 <= j < agents.len() implies (stands_under(#[trigger] agents[j], key)
        <==> !groups::is_bg(agents[j]) && groups::key_of(agents[j]) == key) by {}
    if exists|j: int| 0 <= j < agents.len() && stands_under(#[trigger] agents[j], key) {
        let j = choose|j: int| 0 <= j < agents.len() && stands_under(#[trigger] agents[j], key);
        assert(!groups::is_bg(agents[j]));
    }
}

proof fn key_has_a_group(
    agents: Seq<Agent>,
    sessions: Map<Seq<char>, SessionMeta>,
    key: Option<Seq<char>>,
)
    requires
        sessions.dom().finite(),
    ensures
        groups::owed(agents, sessions).contains(key) <==> exists|k: int|
            0 <= k < groups::grouping(agents, sessions).len() && (#[trigger] groups::grouping(
                agents,
                sessions,
            )[k]).label == (match key {
                Some(s) => LabelView::Session(s),
                None => LabelView::Sessionless,
            }),
{
    let all = groups::grouping(agents, sessions);
    let keys = groups::group_keys(agents, sessions);
    let label = match key {
        Some(s) => LabelView::Session(s),
        None => LabelView::Sessionless,
    };
    group_laws::keys_are_those_owed(agents, sessions);
    assert(keys.contains(key) <==> groups::owed(agents, sessions).contains(key));
    if keys.contains(key) {
        let k = choose|k: int| 0 <= k < keys.len() && keys[k] == key;
        assert(all[k].label == label);
    }
    if exists|k: int| 0 <= k < all.len() && (#[trigger] all[k]).label == label {
        let k = choose|k: int| 0 <= k < all.len() && (#[trigger] all[k]).label == label;
        if k < keys.len() {
            assert(all[k] == groups::group_of(agents, sessions, keys[k]));
            assert(keys[k] == key);
        }
    }
}

/// Sessions of the same age stand by their names.
pub proof fn sessions_of_one_age_stand_by_name(
    agents: Seq<Agent>,
    sessions: Map<Seq<char>, SessionMeta>,
    i: int,
    j: int,
)
    requires
        sessions.dom().finite(),
        0 <= i < j < groups::grouping(agents, sessions).len(),
        groups::grouping(agents, sessions)[i].label is Session,
        groups::grouping(agents, sessions)[j].label is Session,
        groups::grouping(agents, sessions)[i].created_ms == groups::grouping(
            agents,
            sessions,
        )[j].created_ms,
    ensures
        text::precedes(
            groups::grouping(agents, sessions)[i].label->Session_0,
            groups::grouping(agents, sessions)[j].label->Session_0,
        ),
{
    group_laws::keys_are_those_owed(agents, sessions);
    let keys = groups::group_keys(agents, sessions);
    let all = groups::grouping(agents, sessions);
    assert(j < keys.len());
    assert(all[i] == groups::group_of(agents, sessions, keys[i]));
    assert(all[j] == groups::group_of(agents, sessions, keys[j]));
    let leq = groups::group_order(agents, sessions);
    assert(leq(keys[i], keys[j]));
    assert(keys[i] != keys[j]);
}

/// A header is titled by its session, or by what its agents have in common.
pub proof fn headers_are_titled(s: Seq<char>)
    ensures
        groups::label_text(LabelView::Session(s)) == s,
        groups::label_text(LabelView::Sessionless) == seq![
            's', 'e', 's', 's', 'i', 'o', 'n', 'l', 'e', 's', 's',
        ],
        groups::label_text(LabelView::BackgroundAgents) == seq![
            'b', 'g', ' ', 'a', 'g', 'e', 'n', 't', 's',
        ],
{
    reveal_strlit("sessionless");
    reveal_strlit("bg agents");
    assert("sessionless"@ =~= seq!['s', 'e', 's', 's', 'i', 'o', 'n', 'l', 'e', 's', 's']);
    assert("bg agents"@ =~= seq!['b', 'g', ' ', 'a', 'g', 'e', 'n', 't', 's']);
}

/// A header carries its group's title and its cross. It says that its session is open
/// elsewhere where the session has a client besides ours, and it switches to a live
/// session that is not ours.
pub proof fn a_header_tells_of_its_session(
    g: GroupView,
    sessions: Map<Seq<char>, SessionMeta>,
    own: Seq<char>,
)
    ensures
        ({
            let h = lines::header(g, sessions, own);
            let label = groups::label_text(g.label);
            let ours = own.len() > 0 && label == own;
            &&& h is Header
            &&& h->Header_label == label
            &&& h->unrouted_in_group == g.any_unrouted
            &&& h->open_elsewhere <==> sessions.contains_key(label) && (if ours {
                sessions[label].clients >= 2
            } else {
                sessions[label].clients >= 1
            })
            &&& h->switch_to is Some <==> g.label is Session && sessions.contains_key(label)
                && !ours
            &&& h->switch_to matches Some(name) ==> name == label
        }),
{
}

/// An agent goes by its name, less the white space around it, else by the beginning of
/// its id.
pub proof fn an_agent_goes_by_its_name(a: Agent)
    ensures
        text::trimmed(a.name@).len() > 0 ==> lines::shown_name(a) == text::trimmed(a.name@),
        text::trimmed(a.name@).len() == 0 ==> lines::shown_name(a) == text::short(a.session_id@),
{
}

/// The lines of an agent: its name wrapped to four lines, or to one below another
/// agent, each with all that is signalled about it; only the first is marked as such.
pub proof fn an_agents_lines_carry_its_signals(
    row: groups::RowView,
    flags: Map<Seq<char>, Flags>,
    width: nat,
    i: int,
)
    requires
        0 <= i < lines::row_lines(row, flags, width).len(),
    ensures
        ({
            let all = lines::row_lines(row, flags, width);
            let names = wrap::wrapped(
                lines::shown_name(row.agent),
                width,
                if row.is_child {
                    1
                } else {
                    4
                },
            );
            let sid = row.agent.session_id@;
            let l = all[i];
            &&& all.len() == names.len()
            &&& l is AgentRow
            &&& l->AgentRow_sid == sid
            &&& l->status == row.agent.status
            &&& l->text == names[i]
            &&& l->is_first_wrap_line <==> i == 0
            &&& l->is_child == row.is_child
            &&& l->is_last_child == row.is_last_child
            &&& flags.contains_key(sid) ==> l->needs_attention == flags[sid].needs_attention
                && l->unrouted == flags[sid].unrouted && l->is_in_view == flags[sid].is_in_view
                && l->active == flags[sid].active && l->is_bg == flags[sid].is_bg
            &&& !flags.contains_key(sid) ==> !l->needs_attention && !l->unrouted && !l->is_in_view
                && l->active && !l->is_bg
        }),
{
}

/// A group below others: a blank line, its header, and the lines of its rows. The first
/// one has no blank line above it.
pub proof fn a_group_stands_below_the_others(
    gs: Seq<GroupView>,
    g: GroupView,
    row: groups::RowView,
    flags: Map<Seq<char>, Flags>,
    width: nat,
    sessions: Map<Seq<char>, SessionMeta>,
    own: Seq<char>,
)
    ensures
        ({
            let above = lines::page(gs, flags, width, sessions, own);
            let all = lines::page(gs.push(g), flags, width, sessions, own);
            let rows = lines::rows_lines(g.rows, flags, width);
            let gap = if gs.len() == 0 {
                0int
            } else {
                1int
            };
            &&& gs.len() == 0 ==> above.len() == 0
            &&& all.len() == above.len() + gap + 1 + rows.len()
            &&& all.take(above.len() as int) == above
            &&& gs.len() > 0 ==> all[above.len() as int] is Padding
            &&& all[above.len() + gap] == lines::header(g, sessions, own)
            &&& all.skip(above.len() + gap + 1) == rows
            &&& lines::rows_lines(g.rows.push(row), flags, width) == rows + lines::row_lines(
                row,
                flags,
                width,
            )
            &&& lines::rows_lines(Seq::empty(), flags, width).len() == 0
        }),
{
    let above = lines::page(gs, flags, width, sessions, own);
    let all = lines::page(gs.push(g), flags, width, sessions, own);
    let rows = lines::rows_lines(g.rows, flags, width);
    let gap = if gs.len() == 0 {
        0int
    } else {
        1int
    };
    assert(gs.push(g).drop_last() =~= gs);
    assert(all.take(above.len() as int) =~= above);
    assert(all.skip(above.len() + gap + 1) =~= rows);
    assert(g.rows.push(row).drop_last() =~= g.rows);
}

proof fn row_spans_cover(
    rows: Seq<groups::RowView>,
    flags: Map<Seq<char>, Flags>,
    width: nat,
    from: int,
    k: int,
)
    requires
        from <= k < from + lines::rows_lines(rows, flags, width).len(),
    ensures
        exists|i: int|
            0 <= i < lines::row_spans(rows, flags, width, from).len() && (#[trigger] lines::row_spans(
                rows,
                flags,
                width,
                from,
            )[i]).0 <= k < lines::row_spans(rows, flags, width, from)[i].1,
    decreases rows.len(),
{
    if rows.len() > 0 {
        let rest = rows.drop_last();
        let spans = lines::row_spans(rows, flags, width, from);
        let before = lines::row_spans(rest, flags, width, from);
        if k < from + lines::rows_lines(rest, flags, width).len() {
            row_spans_cover(rest, flags, width, from, k);
            let i = choose|i: int|
                0 <= i < before.len() && (#[trigger] before[i]).0 <= k < before[i].1;
            assert(spans[i] == before[i]);
        } else {
            assert(spans[spans.len() - 1].0 <= k < spans[spans.len() - 1].1);
        }
    }
}

/// Every line of an agent lies within the span of an agent.
pub proof fn every_agents_line_is_in_a_span(
    gs: Seq<GroupView>,
    flags: Map<Seq<char>, Flags>,
    width: nat,
    sessions: Map<Seq<char>, SessionMeta>,
    own: Seq<char>,
    k: int,
)
    requires
        0 <= k < lines::page(gs, flags, width, sessions, own).len(),
        lines::page(gs, flags, width, sessions, own)[k] is AgentRow,
    ensures
        exists|i: int|
            0 <= i < lines::page_spans(gs, flags, width, sessions, own).len() && (
            #[trigger] lines::page_spans(gs, flags, width, sessions, own)[i]).0 <= k
                < lines::page_spans(gs, flags, width, sessions, own)[i].1,
    decreases gs.len(),
{
    if gs.len() > 0 {
        let rest = gs.drop_last();
        let g = gs.last();
        let above = lines::page(rest, flags, width, sessions, own);
        let all = lines::page(gs, flags, width, sessions, own);
        let upper = lines::page_spans(rest, flags, width, sessions, own);
        let spans = lines::page_spans(gs, flags, width, sessions, own);
        let head = lines::heading(g, gs.len() == 1, sessions, own);
        let from = (above.len() + head.len()) as int;
        let mine = lines::row_spans(g.rows, flags, width, from);
        assert(spans =~= upper + mine);
        if k < above.len() {
            assert(all[k] == above[k]);
            every_agents_line_is_in_a_span(rest, flags, width, sessions, own, k);
            let i = choose|i: int| 0 <= i < upper.len() && (#[trigger] upper[i]).0 <= k < upper[i].1;
            assert(spans[i] == upper[i]);
        } else if k < from {
            assert(all[k] == head[k - above.len()]);
        } else {
            row_spans_cover(g.rows, flags, width, from, k);
            let i = choose|i: int| 0 <= i < mine.len() && (#[trigger] mine[i]).0 <= k < mine[i].1;
            assert(spans[upper.len() + i] == mine[i]);
        }
    }
}

/// Before drawing: a dismissal stays exactly while its agent is listed as gone, a mark
/// in the overlay exactly while its agent is shown and it is later than the disk's, and
/// the disk's marks are read anew where there is a place for them.
pub proof fn what_is_stale_is_dropped(p: Panel, seen: Map<Seq<char>, i64>, sid: Seq<char>)
    ensures
        ({
            let q = cells::settled(p, seen);
            let agents = events::current(p);
            let shown = events::visible((Panel { dismissed: q.dismissed, ..p }));
            &&& q.dismissed.contains(sid) <==> p.dismissed.contains(sid) && exists|i: int|
                0 <= i < agents.len() && (#[trigger] agents[i]).session_id@ == sid
                    && !agents[i].active
            &&& q.seen_overlay.contains_key(sid) <==> {
                &&& p.seen_overlay.contains_key(sid)
                &&& exists|i: int| 0 <= i < shown.len() && (#[trigger] shown[i]).session_id@ == sid
                &&& if p.seen_disk.contains_key(sid) {
                    p.seen_overlay[sid] > p.seen_disk[sid]
                } else {
                    p.seen_overlay[sid] > 0
                }
            }
            &&& q.seen_overlay.contains_key(sid) ==> q.seen_overlay[sid] == p.seen_overlay[sid]
            &&& q.seen_disk == (if p.seen_events_dir is Some {
                seen
            } else {
                p.seen_disk
            })
            &&& q == (Panel {
                dismissed: q.dismissed,
                seen_overlay: q.seen_overlay,
                seen_disk: q.seen_disk,
                ..p
            })
        }),
{
    let agents = events::current(p);
    if cells::listed_inactive(agents, sid) {
        let i = choose|i: int|
            0 <= i < agents.len() && !(#[trigger] agents[i]).active && agents[i].session_id@ == sid;
        assert(agents[i].session_id@ == sid);
    }
}

/// The cursor stays where it is while there is an agent there, else goes to the last
/// one, and is gone without any.
pub proof fn the_cursor_stays_on_an_agent(i: usize, n: nat)
    requires
        n <= usize::MAX,
    ensures
        i < n ==> cells::clamped(Some(i), n) == Some(i),
        0 < n <= i ==> cells::clamped(Some(i), n) is Some && cells::clamped(Some(i), n)->0 + 1 == n,
        n == 0 ==> cells::clamped(Some(i), n) is None,
        cells::clamped(None, n) is None,
{
}

/// The viewport moves only to follow the cursor, and then no further than to the line
/// above the agent, or until the agent's last line is the last one shown. It is pulled
/// back from past the end.
pub proof fn the_viewport_moves_no_further_than_it_must(
    scroll: int,
    follow: bool,
    selected: Option<usize>,
    spans: Seq<(int, int)>,
    n_lines: int,
    rows: int,
)
    requires
        0 <= scroll,
        0 <= rows,
        scroll + rows <= n_lines,
        selected is Some && selected->0 < spans.len() ==> 0 <= spans[selected->0 as int].0
            <= spans[selected->0 as int].1 <= n_lines,
    ensures
        ({
            let top = cells::scrolled(scroll, follow, selected, spans, n_lines, rows);
            let (start, end) = spans[selected->0 as int];
            &&& !follow || selected is None || selected->0 >= spans.len() ==> top == scroll
            &&& follow && selected is Some && selected->0 < spans.len() ==> {
                &&& scroll <= start && end <= scroll + rows ==> top == scroll
                &&& start < scroll && start > 0 ==> top == start - 1
                &&& start < scroll && start == 0 ==> top == 0
                &&& scroll <= start && end > scroll + rows ==> top == end - rows
            }
        }),
{
}

/// A line that stands past the end of the list is not shown: the viewport ends with the
/// last line at the latest.
pub proof fn the_viewport_is_pulled_back(
    scroll: int,
    selected: Option<usize>,
    spans: Seq<(int, int)>,
    n_lines: int,
    rows: int,
)
    requires
        scroll + rows > n_lines >= rows >= 0,
    ensures
        cells::scrolled(scroll, false, selected, spans, n_lines, rows) == n_lines - rows,
{
}

/// Exactly the rows of agents and of headers that switch can be clicked, each for what
/// it was drawn for.
pub proof fn what_is_drawn_can_be_clicked(shown: Seq<LineView>, k: int)
    requires
        0 <= k < shown.len() <= usize::MAX,
    ensures
        ({
            let m = cells::click_map(shown);
            &&& shown[k] is AgentRow ==> m.contains(
                (k as usize, TargetView::Agent(shown[k]->AgentRow_sid)),
            )
            &&& shown[k] is Header && shown[k]->switch_to is Some ==> m.contains(
                (k as usize, TargetView::Session(shown[k]->switch_to->0)),
            )
            &&& shown[k] is Padding || (shown[k] is Header && shown[k]->switch_to is None)
                ==> forall|i: int| 0 <= i < m.len() ==> (#[trigger] m[i]).0 != k
            &&& forall|i: int| 0 <= i < m.len() ==> (#[trigger] m[i]).0 < shown.len()
        }),
    decreases shown.len(),
{
    let rest = shown.drop_last();
    let m = cells::click_map(shown);
    let before = cells::click_map(rest);
    clicks_are_on_the_screen(shown);
    clicks_are_on_the_screen(rest);
    if k < rest.len() {
        what_is_drawn_can_be_clicked(rest, k);
        assert(rest[k] == shown[k]);
        assert forall|x: (usize, TargetView)| before.contains(x) implies m.contains(x) by {
            let i = choose|i: int| 0 <= i < before.len() && before[i] == x;
            assert(m[i] == x);
        }
        assert forall|i: int| 0 <= i < m.len() && i >= before.len() implies (#[trigger] m[i]).0
            != k by {}
        if shown[k] is Padding || (shown[k] is Header && shown[k]->switch_to is None) {
            assert forall|i: int| 0 <= i < m.len() implies (#[trigger] m[i]).0 != k by {
                if i < before.len() {
                    assert(before[i].0 != k);
                    assert(m[i] == before[i]);
                }
            }
        }
    } else {
        if cells::line_target(shown.last()) is Some {
            assert(m[before.len() as int] == (k as usize, cells::line_target(shown.last())->0));
        } else {
            assert(m == before);
        }
    }
}

proof fn clicks_are_on_the_screen(shown: Seq<LineView>)
    requires
        shown.len() <= usize::MAX,
    ensures
        forall|i: int|
            0 <= i < cells::click_map(shown).len() ==> (#[trigger] cells::click_map(shown)[i]).0
                < shown.len(),
    decreases shown.len(),
{
    if shown.len() > 0 {
        let rest = shown.drop_last();
        clicks_are_on_the_screen(rest);
        let before = cells::click_map(rest);
        let m = cells::click_map(shown);
        assert forall|i: int| 0 <= i < m.len() implies (#[trigger] m[i]).0 < shown.len() by {
            if i < before.len() {
                assert(m[i] == before[i]);
            }
        }
    }
}

/// Every agent that is shown and not in the background can be gone to, by its own id.
pub proof fn every_interactive_agent_can_be_gone_to(
    agents: Seq<Agent>,
    sessions: Map<Seq<char>, SessionMeta>,
    a: Agent,
)
    requires
        sessions.dom().finite(),
        agents.contains(a),
        a.kind@ != seq!['b', 'g'],
    ensures
        cells::focus_map(groups::grouping(agents, sessions)).contains_key(a.session_id@),
        cells::focus_map(groups::grouping(agents, sessions))[a.session_id@] == a.session_id@,
{
    let gs = groups::grouping(agents, sessions);
    let key = groups::key_of(a);
    let j = choose|j: int| 0 <= j < agents.len() && agents[j] == a;
    assert(stands_under(agents[j], key));
    owed_is_asked_for(agents, sessions, key);
    key_has_a_group(agents, sessions, key);
    let label = match key {
        Some(s) => LabelView::Session(s),
        None => LabelView::Sessionless,
    };
    let k = choose|k: int| 0 <= k < gs.len() && (#[trigger] gs[k]).label == label;
    let name = match key {
        Some(s) => s,
        None => Seq::empty(),
    };
    there_is_a_group_for_each_that_is_owed_one(agents, sessions, name, k);
    a_group_holds_its_sessions_agents(agents, sessions, key, a);
    let i = choose|i: int| 0 <= i < gs[k].rows.len() && (#[trigger] gs[k].rows[i]).agent == a;
    assert(gs[k].rows[i].focus_sid == Some(a.session_id@));
    a_group_is_gone_to(gs, k, i);
    super::laws::rows_route_to_interactive_agents(agents, sessions, a.session_id@);
}

proof fn a_row_is_gone_to(rows: Seq<groups::RowView>, above: Map<Seq<char>, Seq<char>>, i: int)
    requires
        0 <= i < rows.len(),
        rows[i].focus_sid is Some,
    ensures
        cells::row_targets(rows, above).contains_key(rows[i].agent.session_id@),
    decreases rows.len(),
{
    if i < rows.len() - 1 {
        assert(rows.drop_last()[i] == rows[i]);
        a_row_is_gone_to(rows.drop_last(), above, i);
    }
}

proof fn targets_are_kept(rows: Seq<groups::RowView>, above: Map<Seq<char>, Seq<char>>, sid: Seq<char>)
    requires
        above.contains_key(sid),
    ensures
        cells::row_targets(rows, above).contains_key(sid),
    decreases rows.len(),
{
    if rows.len() > 0 {
        targets_are_kept(rows.drop_last(), above, sid);
    }
}

proof fn a_group_is_gone_to(gs: Seq<GroupView>, k: int, i: int)
    requires
        0 <= k < gs.len(),
        0 <= i < gs[k].rows.len(),
        gs[k].rows[i].focus_sid is Some,
    ensures
        cells::focus_map(gs).contains_key(gs[k].rows[i].agent.session_id@),
    decreases gs.len(),
{
    if k < gs.len() - 1 {
        assert(gs.drop_last()[k] == gs[k]);
        a_group_is_gone_to(gs.drop_last(), k, i);
        targets_are_kept(
            gs.last().rows,
            cells::focus_map(gs.drop_last()),
            gs[k].rows[i].agent.session_id@,
        );
    } else {
        a_row_is_gone_to(gs.last().rows, cells::focus_map(gs.drop_last()), i);
    }
}

/// The spinner turns through ten frames, the braille dots going round, and over again.
pub proof fn the_spinner_goes_round(age: u32)
    ensures
        cells::spin_frame(age) == seq![
            '\u{280B}',
            '\u{2819}',
            '\u{2839}',
            '\u{2838}',
            '\u{283C}',
            '\u{2834}',
            '\u{2826}',
            '\u{2827}',
            '\u{2807}',
            '\u{280F}',
        ][age as int % 10],
{
}

/// What is drawn in place of the agents until they can be: a request while the prompt is
/// open, and else what is being read or what went wrong, in the theme's red where it
/// did. The agents are drawn once they are read, unless there is nothing to draw.
pub proof fn the_face_tells_what_happened(p: Panel, colors: AgentColors)
    ensures
        ({
            let f = cells::face(p, colors);
            &&& p.load is AwaitingPermission <==> f is Attention
            &&& p.load is NoHomeInEnv ==> f == Face::Diag(colors.error, seq![
                '$', 'H', 'O', 'M', 'E', ' ', '/', ' ', '$', 'U', 'S', 'E', 'R', 'P', 'R', 'O',
                'F', 'I', 'L', 'E', ' ', 'n', 'o', 't', ' ', 'i', 'n', ' ', 's', 'e', 's', 's',
                'i', 'o', 'n', ' ', 'e', 'n', 'v',
            ])
            &&& p.load matches LoadView::Polling { path, last: None } ==> f == Face::Diag(
                colors.text,
                seq!['r', 'e', 'a', 'd', 'i', 'n', 'g', ' '] + path,
            )
            &&& p.load matches LoadView::Polling { path, last: Some(ReadView::Missing) } ==> f
                == Face::Diag(colors.error, seq![
                    'm', 'i', 's', 's', 'i', 'n', 'g', ':', ' ',
                ] + path)
            &&& p.load matches LoadView::Polling { path, last: Some(ReadView::Unreadable(e)) } ==> f
                == Face::Diag(colors.error, seq![
                    'u', 'n', 'r', 'e', 'a', 'd', 'a', 'b', 'l', 'e', ' ',
                ] + path + seq![':', ' '] + e)
            &&& p.load matches LoadView::Polling { path, last: Some(ReadView::ParseError(e)) } ==> f
                == Face::Diag(colors.error, seq![
                    'p', 'a', 'r', 's', 'e', ' ', 'e', 'r', 'r', 'o', 'r', ':', ' ',
                ] + e)
            &&& p.load matches LoadView::Polling { path, last: Some(ReadView::Loaded(a)) } ==> {
                &&& a.len() > 0 ==> f is Cells
                &&& forall|name: Seq<char>| #[trigger] p.sessions.contains_key(name) ==> f is Cells
                &&& a.len() == 0 && (forall|name: Seq<char>| !#[trigger] p.sessions.contains_key(name))
                    ==> f == Face::Diag(colors.text, seq![
                        'n', 'o', ' ', 'a', 'g', 'e', 'n', 't', 's',
                    ])
            }
        }),
{
    reveal_strlit("$HOME / $USERPROFILE not in session env");
    reveal_strlit("reading ");
    reveal_strlit("missing: ");
    reveal_strlit("unreadable ");
    reveal_strlit(": ");
    reveal_strlit("parse error: ");
    reveal_strlit("no agents");
    assert("$HOME / $USERPROFILE not in session env"@ =~= seq![
        '$', 'H', 'O', 'M', 'E', ' ', '/', ' ', '$', 'U', 'S', 'E', 'R', 'P', 'R', 'O', 'F', 'I',
        'L', 'E', ' ', 'n', 'o', 't', ' ', 'i', 'n', ' ', 's', 'e', 's', 's', 'i', 'o', 'n', ' ',
        'e', 'n', 'v',
    ]);
    assert("reading "@ =~= seq!['r', 'e', 'a', 'd', 'i', 'n', 'g', ' ']);
    assert("missing: "@ =~= seq!['m', 'i', 's', 's', 'i', 'n', 'g', ':', ' ']);
    assert("unreadable "@ =~= seq!['u', 'n', 'r', 'e', 'a', 'd', 'a', 'b', 'l', 'e', ' ']);
    assert(": "@ =~= seq![':', ' ']);
    assert("parse error: "@ =~= seq![
        'p', 'a', 'r', 's', 'e', ' ', 'e', 'r', 'r', 'o', 'r', ':', ' ',
    ]);
    assert("no agents"@ =~= seq!['n', 'o', ' ', 'a', 'g', 'e', 'n', 't', 's']);
    if forall|name: Seq<char>| !#[trigger] p.sessions.contains_key(name) {
        assert(p.sessions =~= Map::<Seq<char>, SessionMeta>::empty());
    }
}

/// What the panel asks for while the prompt is open.
pub open spec fn request_text() -> Seq<char> {
    seq![
        'a', 'g', 'e', 'n', 't', '-', 'b', 'a', 'r', ' ', 'n', 'e', 'e', 'd', 's', ' ', 'p', 'e',
        'r', 'm', 'i', 's', 's', 'i', 'o', 'n', 's', ' ', '\u{2014}', ' ', 'p', 'r', 'e', 's',
        's', ' ', 'y', ' ', '(', 'f', 'u', 'l', 'l', 's', 'c', 'r', 'e', 'e', 'n', ' ', 'w', 'i',
        't', 'h', ' ', 'C', 't', 'r', 'l', '+', 'S', 'h', 'i', 'f', 't', '+', ';', ' ', 'i', 'f',
        ' ', 'c', 'r', 'o', 'p', 'p', 'e', 'd', ')',
    ]
}

/// The request says which key answers it.
pub proof fn the_request_says_what_to_press(p: Panel, colors: AgentColors)
    requires
        p.load is AwaitingPermission,
    ensures
        cells::face(p, colors)->Attention_0 == request_text(),
{
    reveal_strlit(
        "agent-bar needs permissions \u{2014} press y (fullscreen with Ctrl+Shift+; if cropped)",
    );
    assert(cells::face(p, colors)->Attention_0 =~= request_text());
}

/// A message is drawn in place of the agents on the bar's background, the request in
/// the colours of an alert, and no row of it can be clicked. Nothing else of the panel
/// changes by it.
pub proof fn a_message_is_drawn_by_itself(
    p: Panel,
    rows: nat,
    cols: nat,
    seen: Map<Seq<char>, i64>,
)
    ensures
        ({
            let colors = AgentColors::of(p.mode.style);
            let d: Drawn = cells::drawn(p, rows, cols, seen);
            let f = cells::face(p, colors);
            &&& f !is Cells ==> d.panel == (Panel { row_ranges: d.panel.row_ranges, ..p })
                && d.panel.row_ranges.len() == 0
            &&& f matches Face::Diag(fg, msg) ==> d.frame == paint::diag_rows(
                msg,
                fg,
                colors.bar_bg,
                rows,
                cols,
            )
            &&& f matches Face::Attention(msg) ==> d.frame == paint::attention_rows(
                msg,
                colors,
                rows,
                cols,
            )
            &&& f is Cells ==> d == cells::cells(
                (Panel { row_ranges: Seq::empty(), ..p }),
                rows,
                cols,
                colors,
                seen,
            )
        }),
{
}

/// Groups, rows and lines are what they are called.
pub proof fn groups_and_lines_are_what_they_are_called(g: Group, r: Row, b: GroupLabel, l: Line, i: int)
    ensures
        b matches GroupLabel::Session(s) ==> b@ == LabelView::Session(s@),
        b is Sessionless <==> b@ is Sessionless,
        b is BackgroundAgents <==> b@ is BackgroundAgents,
        r@.agent == r.agent,
        r@.is_child == r.is_child,
        r@.is_last_child == r.is_last_child,
        r@.focus_sid is Some <==> r.focus_sid is Some,
        r.focus_sid matches Some(s) ==> r@.focus_sid == Some(s@),
        g@.label == g.label@,
        g@.created_ms == g.created_ms,
        g@.any_unrouted == g.any_unrouted,
        g@.rows.len() == g.rows.len(),
        0 <= i < g.rows.len() ==> g@.rows[i] == g.rows[i]@,
        l is Padding <==> l@ is Padding,
        l is Header <==> l@ is Header,
        l is Header ==> l@->Header_label == l->Header_label@ && l@->unrouted_in_group
            == l->unrouted_in_group && l@->open_elsewhere == l->open_elsewhere,
        l is AgentRow ==> l@->AgentRow_sid == l->AgentRow_sid@ && l@->text == l->text@ && l@->status
            == l->status && l@->needs_attention == l->needs_attention && l@->unrouted == l->unrouted
            && l@->is_in_view == l->is_in_view && l@->active == l->active && l@->is_first_wrap_line
            == l->is_first_wrap_line && l@->is_child == l->is_child && l@->is_last_child
            == l->is_last_child && l@->is_bg == l->is_bg,
{
}

} // verus!
