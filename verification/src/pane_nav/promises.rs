//! What the jump tree is for, node by node.
use super::laws;
use super::{first_at, find_is, has_of_member, listed_at, listing, live, loaded_view, tabs_view};
use super::{NavState, NavView, Node, NodeView, TabSnapshot};
use crate::seqs;
use vstd::prelude::*;

verus! {

/// A step lands on the node the cursor stands on after it: session, tab and position
/// are all three that node's, back as well as forward. The step changes nothing of
/// any node but which child was taken last.
pub proof fn a_step_says_where_the_cursor_stands(s: NavView, forward: bool)
    ensures
        ({
            let t = s.stepped(forward);
            &&& s.landing(forward) matches Some(to) ==> exists|i: int|
                0 <= i < t.nodes.len() && (#[trigger] t.nodes[i]).id == t.cursor && to.0
                    == t.nodes[i].session && to.1 == t.nodes[i].tab_id && to.2
                    == t.nodes[i].tab_position && forall|j: int|
                    0 <= j < i ==> (#[trigger] t.nodes[j]).id != t.cursor
            &&& t.nodes.len() == s.nodes.len()
            &&& t.next_id == s.next_id
            &&& forall|i: int|
                0 <= i < s.nodes.len() ==> (#[trigger] t.nodes[i]).id == s.nodes[i].id
                    && t.nodes[i].session == s.nodes[i].session && t.nodes[i].tab_id
                    == s.nodes[i].tab_id && t.nodes[i].tab_position == s.nodes[i].tab_position
                    && t.nodes[i].tab_name == s.nodes[i].tab_name && t.nodes[i].parent
                    == s.nodes[i].parent && t.nodes[i].at == s.nodes[i].at
        }),
{
    let t = s.stepped(forward);
    if s.has(s.cursor) {
        assert(first_at(s.nodes, s.cursor, s.index_of(s.cursor)));
    }
    if s.landing(forward) is Some {
        let id = s.neighbour(forward)->0;
        assert(t.cursor == id);
        assert(first_at(t.nodes, id, t.index_of(id)));
    }
}

/// Back from a node leads to its parent; from one without a parent nowhere.
pub proof fn back_leads_to_the_parent(s: NavView, i: int, j: int)
    requires
        s.tree(),
        0 <= i < s.nodes.len(),
        s.nodes[i].id == s.cursor,
        0 <= j < s.nodes.len(),
    ensures
        s.nodes[i].parent is None ==> s.stepped(false) == s && s.landing(false) is None,
        s.stepped(false).nodes == s.nodes,
        s.nodes[i].parent == Some(s.nodes[j].id) ==> s.stepped(false).cursor == s.nodes[j].id
            && s.landing(false) == Some(
            (s.nodes[j].session, s.nodes[j].tab_id, s.nodes[j].tab_position),
        ),
{
    assert(s.nodes.contains(s.nodes[i]));
    laws::member_found(s, s.nodes[i]);
    if s.nodes[i].parent == Some(s.nodes[j].id) {
        assert(s.nodes.contains(s.nodes[j]));
        laws::member_found(s, s.nodes[j]);
        laws::cursor_finds(s, s.nodes[j].id, s.nodes[j].id);
    }
    if s.neighbour(false) is Some {
        let up = s.neighbour(false)->0;
        assert(s.placed(s.nodes[i]));
        laws::found_member(s, up);
        assert(s.placed(s.find(up)->0));
    }
}

/// Forward from a node leads to the child taken last, else to the newest child, and
/// from one without children nowhere. The node remembers the child.
pub proof fn forward_leads_to_the_child_last_taken(s: NavView, i: int)
    requires
        s.tree(),
        0 <= i < s.nodes.len(),
        s.nodes[i].id == s.cursor,
    ensures
        ({
            let t = s.stepped(true);
            &&& s.nodes[i].last_child matches Some(c) ==> t.cursor == c
            &&& s.landing(true) is Some <==> exists|j: int|
                0 <= j < s.nodes.len() && (#[trigger] s.nodes[j]).parent == Some(s.cursor)
            &&& s.landing(true) is None ==> t == s
            &&& s.landing(true) is Some ==> t.nodes[i].last_child == Some(t.cursor) && exists|
                j: int,
            |
                0 <= j < s.nodes.len() && (#[trigger] s.nodes[j]).parent == Some(s.cursor)
                    && s.nodes[j].id == t.cursor && s.landing(true) == Some(
                    (s.nodes[j].session, s.nodes[j].tab_id, s.nodes[j].tab_position),
                )
            &&& s.nodes[i].last_child is None ==> forall|j: int|
                0 <= j < s.nodes.len() && (#[trigger] s.nodes[j]).parent == Some(s.cursor)
                    ==> s.nodes[j].id <= t.cursor
        }),
{
    let t = s.stepped(true);
    let here = s.nodes[i];
    assert(s.nodes.contains(here));
    assert(s.placed(here));
    laws::member_found(s, here);
    laws::step_keeps_tree(s, true);
    if here.last_child is Some {
        laws::found_member(s, here.last_child->0);
        let c = s.find(here.last_child->0)->0;
        let j = choose|j: int| 0 <= j < s.nodes.len() && s.nodes[j] == c;
        assert(s.nodes[j].parent == Some(s.cursor));
    }
    if exists|j: int| 0 <= j < s.nodes.len() && (#[trigger] s.nodes[j]).parent == Some(s.cursor) {
        let j = choose|j: int|
            0 <= j < s.nodes.len() && (#[trigger] s.nodes[j]).parent == Some(s.cursor);
        let k = newest_of(s, j);
        assert(s.newest_child(s.nodes[k].id));
    }
    if s.neighbour(true) is Some {
        let to = s.neighbour(true)->0;
        laws::neighbour_is_node(s, true);
        laws::found_member(s, to);
        let n = s.find(to)->0;
        let j = choose|j: int| 0 <= j < s.nodes.len() && s.nodes[j] == n;
        assert(s.nodes[j].parent == Some(s.cursor));
        laws::cursor_finds(s, to, to);
        laws::cursor_finds(s, to, s.cursor);
        assert(first_at(s.nodes, s.cursor, i)) by {
            assert forall|q: int| 0 <= q < i implies (#[trigger] s.nodes[q]).id != s.cursor by {
                assert(s.nodes[q].id != s.nodes[i].id);
            }
        }
        find_is(s, s.cursor, i);
    }
}

proof fn newest_of(s: NavView, j: int) -> (k: int)
    requires
        0 <= j < s.nodes.len(),
        s.nodes[j].parent == Some(s.cursor),
    ensures
        0 <= k < s.nodes.len(),
        s.nodes[k].parent == Some(s.cursor),
        forall|q: int|
            0 <= q < s.nodes.len() && (#[trigger] s.nodes[q]).parent == Some(s.cursor)
                ==> s.nodes[q].id <= s.nodes[k].id,
    decreases usize::MAX - s.nodes[j].id,
{
    if forall|q: int|
        0 <= q < s.nodes.len() && (#[trigger] s.nodes[q]).parent == Some(s.cursor) ==> s.nodes[q].id
            <= s.nodes[j].id {
        j
    } else {
        let q = choose|q: int|
            0 <= q < s.nodes.len() && (#[trigger] s.nodes[q]).parent == Some(s.cursor)
                && s.nodes[q].id > s.nodes[j].id;
        newest_of(s, q)
    }
}

/// Whether a node's tab was closed: it is a tab of this session that is not among
/// the live ones.
pub open spec fn tab_is_gone(
    n: NodeView,
    session: Seq<char>,
    tabs: Seq<(usize, usize, Seq<char>)>,
) -> bool {
    n.session == session && forall|k: int| 0 <= k < tabs.len() ==> (#[trigger] tabs[k]).0 != n.tab_id
}

/// A tab is live exactly where it is listed; its position and name are those of its
/// first listing.
proof fn listed(tabs: Seq<(usize, usize, Seq<char>)>, tab_id: usize, k: int)
    requires
        0 <= k < tabs.len(),
        tabs[k].0 == tab_id,
    ensures
        live(tabs, tab_id),
        (forall|j: int| 0 <= j < k ==> (#[trigger] tabs[j]).0 != tab_id) ==> listing(tabs, tab_id)
            == (tabs[k].1, tabs[k].2),
    decreases k,
{
    if forall|j: int| 0 <= j < k ==> (#[trigger] tabs[j]).0 != tab_id {
        assert(listed_at(tabs, tab_id, k));
        let i = choose|i: int| listed_at(tabs, tab_id, i);
        if i < k {
            assert(tabs[i].0 != tab_id);
        } else if k < i {
            assert(tabs[k].0 != tab_id);
        }
    } else {
        let j = choose|j: int| 0 <= j < k && (#[trigger] tabs[j]).0 == tab_id;
        listed(tabs, tab_id, j);
    }
}

proof fn gone_is_closed(n: NodeView, session: Seq<char>, tabs: Seq<(usize, usize, Seq<char>)>)
    ensures
        n.closed(session, tabs) <==> tab_is_gone(n, session, tabs),
{
    if live(tabs, n.tab_id) {
        let i = choose|i: int| listed_at(tabs, n.tab_id, i);
        assert(tabs[i].0 == n.tab_id);
    }
    if n.session == session && exists|k: int|
        0 <= k < tabs.len() && (#[trigger] tabs[k]).0 == n.tab_id {
        let k = choose|k: int| 0 <= k < tabs.len() && (#[trigger] tabs[k]).0 == n.tab_id;
        listed(tabs, n.tab_id, k);
    }
}

/// A report drops exactly the visits to tabs of its session that are not listed. The
/// others stay what they were, and those of other sessions stay where they were.
pub proof fn a_report_drops_exactly_the_closed_tabs(
    s: NavView,
    session: Seq<char>,
    tabs: Seq<(usize, usize, Seq<char>)>,
    i: int,
)
    requires
        s.tree(),
        0 <= i < s.nodes.len(),
    ensures
        ({
            let n = s.nodes[i];
            let t = s.refreshed(session, tabs);
            &&& tab_is_gone(n, session, tabs) <==> !exists|j: int|
                0 <= j < t.nodes.len() && (#[trigger] t.nodes[j]).id == n.id
            &&& forall|j: int|
                0 <= j < t.nodes.len() && (#[trigger] t.nodes[j]).id == n.id ==> {
                    &&& t.nodes[j].session == n.session
                    &&& t.nodes[j].tab_id == n.tab_id
                    &&& t.nodes[j].at == n.at
                    &&& n.session != session ==> t.nodes[j].tab_position == n.tab_position
                        && t.nodes[j].tab_name == n.tab_name
                }
            &&& !tab_is_gone(n, session, tabs) && n.id == s.cursor ==> t.cursor == n.id
            &&& t.next_id == s.next_id
        }),
{
    let n = s.nodes[i];
    let t = s.refreshed(session, tabs);
    assert(s.nodes.contains(n));
    laws::member_found(s, n);
    gone_is_closed(n, session, tabs);
    laws::refresh_keeps_tree(s, session, tabs);
    laws::refresh_brings_in_line(s, session, tabs);
    if !tab_is_gone(n, session, tabs) {
        laws::refresh_keeps_live_nodes(s, session, tabs, n.id);
        laws::found_member(t, n.id);
        let m = t.find(n.id)->0;
        let j = choose|j: int| 0 <= j < t.nodes.len() && t.nodes[j] == m;
        assert(t.nodes[j].id == n.id);
        assert forall|q: int| 0 <= q < t.nodes.len() && (#[trigger] t.nodes[q]).id == n.id implies q
            == j by {
            if q < j {
                assert(t.nodes[q].id != t.nodes[j].id);
            } else if j < q {
                assert(t.nodes[j].id != t.nodes[q].id);
            }
        }
    } else {
        assert forall|q: int| 0 <= q < t.nodes.len() implies (#[trigger] t.nodes[q]).id != n.id by {
            gone_id_is_dropped(s, session, tabs, i, q);
        }
    }
}

proof fn gone_id_is_dropped(
    s: NavView,
    session: Seq<char>,
    tabs: Seq<(usize, usize, Seq<char>)>,
    i: int,
    q: int,
)
    requires
        s.tree(),
        0 <= i < s.nodes.len(),
        s.nodes[i].closed(session, tabs),
        0 <= q < s.refreshed(session, tabs).nodes.len(),
    ensures
        s.refreshed(session, tabs).nodes[q].id != s.nodes[i].id,
{
    let ids = s.closed_ids(session, tabs);
    let p = |n: NodeView| n.closed(session, tabs);
    let open = s.retired_all(ids);
    laws::retire_all_members(s, ids);
    seqs::filter_members(s.nodes, p);
    assert(s.nodes.contains(s.nodes[i]));
    assert(s.nodes.filter(p).contains(s.nodes[i]));
    let k = choose|k: int| 0 <= k < s.nodes.filter(p).len() && s.nodes.filter(p)[k] == s.nodes[i];
    assert(ids[k] == s.nodes[i].id);
    assert(open.nodes.contains(open.nodes[q]));
}

/// After a report every visit to a listed tab of its session carries the position
/// and the name of the tab's listing.
pub proof fn a_report_brings_positions_and_names(
    s: NavView,
    session: Seq<char>,
    tabs: Seq<(usize, usize, Seq<char>)>,
    j: int,
    k: int,
)
    requires
        0 <= j < s.refreshed(session, tabs).nodes.len(),
        s.refreshed(session, tabs).nodes[j].session == session,
        0 <= k < tabs.len(),
        tabs[k].0 == s.refreshed(session, tabs).nodes[j].tab_id,
        forall|q: int|
            0 <= q < k ==> (#[trigger] tabs[q]).0 != s.refreshed(session, tabs).nodes[j].tab_id,
    ensures
        s.refreshed(session, tabs).nodes[j].tab_position == tabs[k].1,
        s.refreshed(session, tabs).nodes[j].tab_name == tabs[k].2,
{
    let t = s.refreshed(session, tabs);
    laws::refresh_brings_in_line(s, session, tabs);
    assert(t.nodes.contains(t.nodes[j]));
    listed(tabs, t.nodes[j].tab_id, k);
}

/// Taking a node out: its children hang on its parent, whoever remembered it
/// remembers nothing, and all else of every other node stays. A cursor on it goes to
/// its parent.
pub proof fn removing_a_node_hands_its_children_up(s: NavView, i: int, k: int)
    requires
        s.tree(),
        0 <= i < s.nodes.len(),
        0 <= k < s.nodes.len(),
        i != k,
    ensures
        ({
            let gone = s.nodes[i];
            let n = s.nodes[k];
            let t = s.spliced(gone.id);
            &&& !exists|j: int| 0 <= j < t.nodes.len() && (#[trigger] t.nodes[j]).id == gone.id
            &&& exists|j: int|
                0 <= j < t.nodes.len() && (#[trigger] t.nodes[j]).id == n.id && t.nodes[j].session
                    == n.session && t.nodes[j].tab_id == n.tab_id && t.nodes[j].tab_position
                    == n.tab_position && t.nodes[j].tab_name == n.tab_name && t.nodes[j].at == n.at
                    && t.nodes[j].parent == (if n.parent == Some(gone.id) {
                    gone.parent
                } else {
                    n.parent
                }) && t.nodes[j].last_child == (if n.last_child == Some(gone.id) {
                    None
                } else {
                    n.last_child
                })
            &&& t.cursor == (if s.cursor != gone.id {
                s.cursor
            } else {
                match gone.parent {
                    Some(up) => up,
                    None => t.nodes.last().id,
                }
            })
        }),
{
    let gone = s.nodes[i];
    let n = s.nodes[k];
    let t = s.spliced(gone.id);
    assert(s.nodes.contains(gone) && s.nodes.contains(n));
    laws::member_found(s, gone);
    laws::member_found(s, n);
    if i < k {
        assert(s.nodes[i].id != s.nodes[k].id);
    } else {
        assert(s.nodes[k].id != s.nodes[i].id);
    }
    laws::splice_finds(s, gone.id, n.id);
    laws::found_member(t, n.id);
    let m = t.find(n.id)->0;
    let j = choose|j: int| 0 <= j < t.nodes.len() && t.nodes[j] == m;
    assert(t.nodes[j].id == n.id);
    assert forall|j: int| 0 <= j < t.nodes.len() implies (#[trigger] t.nodes[j]).id != gone.id by {
        if t.nodes[j].id == gone.id {
            has_of_member(t, gone.id, j);
        }
    }
}

/// Closing a node's tab: as taking it out, but whoever remembered it remembers what
/// it remembered.
pub proof fn closing_a_tab_hands_its_memory_up(s: NavView, i: int, k: int)
    requires
        s.tree(),
        0 <= i < s.nodes.len(),
        0 <= k < s.nodes.len(),
        i != k,
    ensures
        ({
            let gone = s.nodes[i];
            let n = s.nodes[k];
            let t = s.retired(gone.id);
            &&& !exists|j: int| 0 <= j < t.nodes.len() && (#[trigger] t.nodes[j]).id == gone.id
            &&& exists|j: int|
                0 <= j < t.nodes.len() && (#[trigger] t.nodes[j]).id == n.id && t.nodes[j].session
                    == n.session && t.nodes[j].tab_id == n.tab_id && t.nodes[j].parent == (
                if n.parent == Some(gone.id) {
                    gone.parent
                } else {
                    n.parent
                }) && t.nodes[j].last_child == (if n.last_child == Some(gone.id) {
                    gone.last_child
                } else {
                    n.last_child
                })
        }),
{
    let gone = s.nodes[i];
    let n = s.nodes[k];
    let t = s.retired(gone.id);
    assert(s.nodes.contains(gone) && s.nodes.contains(n));
    laws::member_found(s, gone);
    laws::member_found(s, n);
    assert(s.placed(gone));
    if i < k {
        assert(s.nodes[i].id != s.nodes[k].id);
    } else {
        assert(s.nodes[k].id != s.nodes[i].id);
    }
    laws::retire_finds(s, gone.id, n.id);
    if gone.last_child is Some {
        laws::found_member(s, gone.last_child->0);
        assert(s.placed(s.find(gone.last_child->0)->0));
    }
    laws::found_member(t, n.id);
    let m = t.find(n.id)->0;
    let j = choose|j: int| 0 <= j < t.nodes.len() && t.nodes[j] == m;
    assert(t.nodes[j].id == n.id);
    assert forall|j: int| 0 <= j < t.nodes.len() implies (#[trigger] t.nodes[j]).id != gone.id by {
        if t.nodes[j].id == gone.id {
            has_of_member(t, gone.id, j);
        }
    }
}

/// The nearest node above another that a predicate spares.
pub open spec fn nearest_above(s: NavView, id: usize, gone: spec_fn(usize) -> bool) -> Option<usize>
    decreases id,
{
    match s.parent_of(id) {
        Some(up) => if !gone(up) || up >= id {
            Some(up)
        } else {
            nearest_above(s, up, gone)
        },
        None => None,
    }
}

proof fn retired_all_parents(s: NavView, ids: Seq<usize>, id: usize)
    requires
        s.tree(),
        s.has(id),
        !ids.contains(id),
        ids.no_duplicates(),
        forall|q: int| 0 <= q < ids.len() ==> s.has(#[trigger] ids[q]),
    ensures
        s.retired_all(ids).has(id),
        s.retired_all(ids).parent_of(id) == nearest_above(s, id, |x: usize| ids.contains(x)),
    decreases ids.len(),
{
    laws::retire_all_finds(s, ids, id);
    laws::found_member(s, id);
    assert(s.placed(s.find(id)->0));
    if ids.len() == 0 {
        assert(!ids.contains(s.parent_of(id)->0));
    } else {
        let rest = ids.drop_last();
        let gone = ids.last();
        let t = s.retired_all(rest);
        assert(ids[ids.len() - 1] == gone);
        assert(!rest.contains(id)) by {
            if rest.contains(id) {
                let q = choose|q: int| 0 <= q < rest.len() && rest[q] == id;
                assert(ids[q] == id);
            }
        }
        assert(!rest.contains(gone)) by {
            if rest.contains(gone) {
                let q = choose|q: int| 0 <= q < rest.len() && rest[q] == gone;
                assert(ids[q] == ids[ids.len() - 1]);
            }
        }
        assert forall|q: int| 0 <= q < rest.len() implies s.has(#[trigger] rest[q]) by {
            assert(s.has(ids[q]));
        }
        assert(rest.no_duplicates());
        retired_all_parents(s, rest, id);
        retired_all_parents(s, rest, gone);
        laws::retire_all_keeps_tree(s, rest);
        laws::retire_finds(t, gone, id);
        nearest_steps(s, ids, id);
        nearest_steps(s, ids, gone);
        laws::found_member(t, gone);
        assert(t.placed(t.find(gone)->0));
    }
}

/// With one node more gone, the nearest above is the nearest above that node, where
/// it was that node.
proof fn nearest_steps(s: NavView, ids: Seq<usize>, id: usize)
    requires
        s.tree(),
        s.has(id),
        ids.len() > 0,
    ensures
        ({
            let all = |x: usize| ids.contains(x);
            let some = |x: usize| ids.drop_last().contains(x);
            nearest_above(s, id, all) == (if nearest_above(s, id, some) == Some(ids.last()) {
                nearest_above(s, ids.last(), all)
            } else {
                nearest_above(s, id, some)
            })
        }),
    decreases id,
{
    let all = |x: usize| ids.contains(x);
    let some = |x: usize| ids.drop_last().contains(x);
    laws::found_member(s, id);
    assert(s.placed(s.find(id)->0));
    if s.parent_of(id) is Some {
        let up = s.parent_of(id)->0;
        assert(ids.contains(up) <==> ids.drop_last().contains(up) || up == ids.last()) by {
            if ids.contains(up) {
                let q = choose|q: int| 0 <= q < ids.len() && ids[q] == up;
                if q < ids.len() - 1 {
                    assert(ids.drop_last()[q] == up);
                }
            }
            if ids.drop_last().contains(up) {
                let q = choose|q: int|
                    0 <= q < ids.drop_last().len() && ids.drop_last()[q] == up;
                assert(ids[q] == up);
            }
            assert(ids[ids.len() - 1] == ids.last());
        }
        if some(up) {
            nearest_steps(s, ids, up);
        }
    }
}

/// After tabs were closed, a visit that is left hangs on the nearest visit above it
/// that is left too: no branch is cut off, and none is moved elsewhere.
pub proof fn what_is_left_hangs_on_what_is_left_above(
    s: NavView,
    session: Seq<char>,
    tabs: Seq<(usize, usize, Seq<char>)>,
    i: int,
)
    requires
        s.tree(),
        0 <= i < s.nodes.len(),
        !tab_is_gone(s.nodes[i], session, tabs),
    ensures
        s.refreshed(session, tabs).parent_of(s.nodes[i].id) == nearest_above(
            s,
            s.nodes[i].id,
            |x: usize|
                exists|j: int|
                    0 <= j < s.nodes.len() && (#[trigger] s.nodes[j]).id == x && tab_is_gone(
                        s.nodes[j],
                        session,
                        tabs,
                    ),
        ),
{
    let n = s.nodes[i];
    let ids = s.closed_ids(session, tabs);
    let p = |m: NodeView| m.closed(session, tabs);
    let picked = s.nodes.filter(p);
    let gone = |x: usize|
        exists|j: int|
            0 <= j < s.nodes.len() && (#[trigger] s.nodes[j]).id == x && tab_is_gone(
                s.nodes[j],
                session,
                tabs,
            );
    assert(s.nodes.contains(n));
    laws::member_found(s, n);
    gone_is_closed(n, session, tabs);
    laws::open_is_not_listed(s, session, tabs, n.id);
    seqs::filter_members(s.nodes, p);
    laws::filter_keeps_distinct(s.nodes, p);
    assert forall|a: int, b: int| 0 <= a < b < ids.len() implies ids[a] != ids[b] by {
        assert(picked[a].id != picked[b].id);
    }
    assert(ids.no_duplicates()) by {
        assert forall|a: int, b: int|
            0 <= a < ids.len() && 0 <= b < ids.len() && a != b implies ids[a] != ids[b] by {
            if a < b {
                assert(ids[a] != ids[b]);
            } else {
                assert(ids[b] != ids[a]);
            }
        }
    }
    assert forall|q: int| 0 <= q < ids.len() implies s.has(#[trigger] ids[q]) by {
        assert(picked.contains(picked[q]));
        laws::member_found(s, picked[q]);
    }
    retired_all_parents(s, ids, n.id);
    laws::resync_finds(s.retired_all(ids), session, tabs, n.id);
    assert forall|x: usize| #[trigger] ids.contains(x) <==> gone(x) by {
        if ids.contains(x) {
            let q = choose|q: int| 0 <= q < ids.len() && ids[q] == x;
            assert(picked.contains(picked[q]));
            let j = choose|j: int| 0 <= j < s.nodes.len() && s.nodes[j] == picked[q];
            gone_is_closed(s.nodes[j], session, tabs);
            assert(s.nodes[j].id == x);
        }
        if gone(x) {
            let j = choose|j: int|
                0 <= j < s.nodes.len() && (#[trigger] s.nodes[j]).id == x && tab_is_gone(
                    s.nodes[j],
                    session,
                    tabs,
                );
            gone_is_closed(s.nodes[j], session, tabs);
            assert(s.nodes.contains(s.nodes[j]));
            assert(picked.contains(s.nodes[j]));
            let q = choose|q: int| 0 <= q < picked.len() && picked[q] == s.nodes[j];
            assert(ids[q] == x);
        }
    }
    nearest_by_predicate(s, n.id, |x: usize| ids.contains(x), gone);
}

proof fn nearest_by_predicate(
    s: NavView,
    id: usize,
    a: spec_fn(usize) -> bool,
    b: spec_fn(usize) -> bool,
)
    requires
        forall|x: usize| #[trigger] a(x) <==> b(x),
    ensures
        nearest_above(s, id, a) == nearest_above(s, id, b),
    decreases id,
{
    if s.parent_of(id) is Some {
        let up = s.parent_of(id)->0;
        assert(a(up) <==> b(up));
        if a(up) && up < id {
            nearest_by_predicate(s, up, a, b);
        }
    }
}

/// A new visit is recorded as what it is: under the next id, with the session and tab
/// it was made to, the tab's position and name as listed, the time, and below the
/// node the cursor stood on.
pub proof fn a_new_visit_is_recorded_as_it_was_made(
    s: NavView,
    session: Seq<char>,
    tab_id: usize,
    tabs: Seq<(usize, usize, Seq<char>)>,
    at: u64,
    k: int,
)
    requires
        s.tree(),
        s.grows(session, tab_id, tabs),
        s.next_id < usize::MAX,
        0 <= k < tabs.len(),
        tabs[k].0 == tab_id,
        forall|q: int| 0 <= q < k ==> (#[trigger] tabs[q]).0 != tab_id,
    ensures
        ({
            let t = s.visited(session, tab_id, tabs, at);
            let fresh = s.refreshed(session, tabs);
            &&& t.cursor == s.next_id
            &&& t.next_id == s.next_id + 1
            &&& exists|i: int|
                0 <= i < t.nodes.len() && (#[trigger] t.nodes[i]).id == s.next_id
                    && t.nodes[i].session == session && t.nodes[i].tab_id == tab_id
                    && t.nodes[i].tab_position == tabs[k].1 && t.nodes[i].tab_name == tabs[k].2
                    && t.nodes[i].at == at && t.nodes[i].parent == (if fresh.nodes.len() > 0 {
                    Some(fresh.cursor)
                } else {
                    None
                })
        }),
{
    let fresh = s.refreshed(session, tabs);
    let t = s.visited(session, tab_id, tabs, at);
    laws::refresh_keeps_tree(s, session, tabs);
    listed(tabs, tab_id, k);
    let l = listing(tabs, tab_id);
    let g = fresh.grown(session, tab_id, l.0, l.1, at);
    let m = g.with_cursor(fresh.next_id);
    laws::grown_finds(fresh, session, tab_id, l.0, l.1, at, fresh.next_id);
    laws::cursor_finds(g, fresh.next_id, fresh.next_id);
    laws::move_keeps_tree(s, session, tab_id, tabs, at);
    laws::prune_keeps_path(m);
    assert(m.ancestor(0) == Some(m.cursor));
    assert(m.on_path(m.cursor));
    laws::found_member(t, t.cursor);
    let n = t.find(t.cursor)->0;
    let i = choose|i: int| 0 <= i < t.nodes.len() && t.nodes[i] == n;
    assert(t.nodes[i].id == s.next_id);
    if fresh.nodes.len() == 0 {
        assert(!fresh.has(fresh.cursor));
    }
}

/// Stepping back from a new visit lands on the session and tab of the visit it was
/// made from, also where that is another session.
pub proof fn back_from_a_new_visit_lands_where_it_was_made(
    s: NavView,
    session: Seq<char>,
    tab_id: usize,
    tabs: Seq<(usize, usize, Seq<char>)>,
    at: u64,
    i: int,
)
    requires
        s.tree(),
        s.grows(session, tab_id, tabs),
        s.next_id < usize::MAX,
        0 <= i < s.nodes.len(),
        s.nodes[i].id == s.cursor,
        !tab_is_gone(s.nodes[i], session, tabs),
    ensures
        ({
            let t = s.visited(session, tab_id, tabs, at);
            let n = s.nodes[i];
            &&& t.landing(false) matches Some(to)
            &&& to.0 == n.session
            &&& to.1 == n.tab_id
            &&& n.session != session ==> to.2 == n.tab_position
            &&& t.stepped(false).cursor == n.id
        }),
{
    let n = s.nodes[i];
    let fresh = s.refreshed(session, tabs);
    let t = s.visited(session, tab_id, tabs, at);
    let m = fresh.moved(session, tab_id, tabs, at);
    assert(s.nodes.contains(n));
    laws::member_found(s, n);
    gone_is_closed(n, session, tabs);
    laws::refresh_keeps_tree(s, session, tabs);
    laws::refresh_keeps_live_nodes(s, session, tabs, n.id);
    laws::found_member(fresh, n.id);
    laws::back_from_a_new_visit(s, session, tab_id, tabs, at);
    laws::move_keeps_tree(s, session, tab_id, tabs, at);
    laws::moved_stands(s, session, tab_id, tabs, at);
    laws::prune_keeps_path(m);
    assert(m.ancestor(0) == Some(m.cursor));
    assert(m.on_path(m.cursor));
    laws::path_goes_up(m, m.cursor);
    laws::step_keeps_tree(t, false);
    laws::cursor_finds(t, fresh.cursor, fresh.cursor);
}

/// A visit to the tab of a child only moves the cursor to such a child; to the tab of
/// the parent, only to the parent. No id is used up for either. Any other live tab is
/// a new visit.
pub proof fn neighbours_are_revisited(
    s: NavView,
    session: Seq<char>,
    tab_id: usize,
    tabs: Seq<(usize, usize, Seq<char>)>,
    at: u64,
    k: int,
    c: int,
)
    requires
        s.tree(),
        0 <= k < tabs.len(),
        tabs[k].0 == tab_id,
        s.grows(session, tab_id, tabs) ==> s.next_id < usize::MAX,
        0 <= c < s.refreshed(session, tabs).nodes.len(),
        s.refreshed(session, tabs).nodes[c].id == s.refreshed(session, tabs).cursor,
    ensures
        ({
            let fresh = s.refreshed(session, tabs);
            let here = fresh.nodes[c];
            let t = s.visited(session, tab_id, tabs, at);
            let stands = here.session == session && here.tab_id == tab_id;
            let below = exists|j: int|
                0 <= j < fresh.nodes.len() && (#[trigger] fresh.nodes[j]).parent == Some(here.id)
                    && fresh.nodes[j].session == session && fresh.nodes[j].tab_id == tab_id;
            let above = exists|j: int|
                0 <= j < fresh.nodes.len() && here.parent == Some((#[trigger] fresh.nodes[j]).id)
                    && fresh.nodes[j].session == session && fresh.nodes[j].tab_id == tab_id;
            &&& stands ==> t == fresh
            &&& !stands && below ==> t.next_id == s.next_id && exists|j: int|
                0 <= j < fresh.nodes.len() && (#[trigger] fresh.nodes[j]).id == t.cursor
                    && fresh.nodes[j].parent == Some(here.id) && fresh.nodes[j].session == session
                    && fresh.nodes[j].tab_id == tab_id
            &&& !stands && !below && above ==> t.next_id == s.next_id && Some(t.cursor)
                == here.parent
            &&& !stands && !below && !above <==> s.grows(session, tab_id, tabs)
        }),
{
    let fresh = s.refreshed(session, tabs);
    let here = fresh.nodes[c];
    let t = s.visited(session, tab_id, tabs, at);
    laws::refresh_keeps_tree(s, session, tabs);
    listed(tabs, tab_id, k);
    assert(fresh.nodes.contains(here));
    laws::member_found(fresh, here);
    let kids = fresh.children(fresh.cursor);
    let is_it = |n: NodeView| n.is(session, tab_id);
    let is_kid = |n: NodeView| n.parent == Some(fresh.cursor);
    seqs::filter_members(kids, is_it);
    seqs::filter_members(fresh.nodes, is_kid);
    let found = kids.filter(is_it);
    if exists|j: int|
        0 <= j < fresh.nodes.len() && (#[trigger] fresh.nodes[j]).parent == Some(here.id)
            && fresh.nodes[j].session == session && fresh.nodes[j].tab_id == tab_id {
        let j = choose|j: int|
            0 <= j < fresh.nodes.len() && (#[trigger] fresh.nodes[j]).parent == Some(here.id)
                && fresh.nodes[j].session == session && fresh.nodes[j].tab_id == tab_id;
        assert(fresh.nodes.contains(fresh.nodes[j]));
        assert(kids.contains(fresh.nodes[j]));
        assert(found.contains(fresh.nodes[j]));
        assert(found.len() > 0);
    }
    if found.len() > 0 {
        assert(found.contains(found[0]));
        assert(kids.contains(found[0]));
        assert(fresh.nodes.contains(found[0]));
        let j = choose|j: int| 0 <= j < fresh.nodes.len() && fresh.nodes[j] == found[0];
        assert(fresh.nodes[j].parent == Some(here.id));
    }
    if here.parent is Some {
        assert(fresh.placed(here));
        laws::found_member(fresh, here.parent->0);
        let up = fresh.find(here.parent->0)->0;
        let j = choose|j: int| 0 <= j < fresh.nodes.len() && fresh.nodes[j] == up;
        assert(here.parent == Some(fresh.nodes[j].id));
        assert forall|q: int|
            0 <= q < fresh.nodes.len() && here.parent == Some((#[trigger] fresh.nodes[q]).id) implies q
            == j by {
            if q < j {
                assert(fresh.nodes[q].id != fresh.nodes[j].id);
            } else if j < q {
                assert(fresh.nodes[j].id != fresh.nodes[q].id);
            }
        }
    }
    if s.moves(session, tab_id, tabs) && fresh.adjacent(session, tab_id) is Some {
        let id = fresh.adjacent(session, tab_id)->0;
        laws::adjacent_is_node(fresh, session, tab_id);
        laws::cursor_keeps_tree(fresh, id);
        laws::prune_keeps_path(fresh.with_cursor(id));
    }
}

/// Where the cursor stands nowhere, every live tab is a new visit. A tab that is not
/// listed is never visited.
pub proof fn only_listed_tabs_are_visited(
    s: NavView,
    session: Seq<char>,
    tab_id: usize,
    tabs: Seq<(usize, usize, Seq<char>)>,
    at: u64,
)
    requires
        s.tree(),
    ensures
        (forall|k: int| 0 <= k < tabs.len() ==> (#[trigger] tabs[k]).0 != tab_id) ==> s.visited(
            session,
            tab_id,
            tabs,
            at,
        ) == s.refreshed(session, tabs),
        s.refreshed(session, tabs).nodes.len() == 0 && (exists|k: int|
            0 <= k < tabs.len() && (#[trigger] tabs[k]).0 == tab_id) ==> s.grows(
            session,
            tab_id,
            tabs,
        ),
{
    let fresh = s.refreshed(session, tabs);
    if live(tabs, tab_id) {
        let i = choose|i: int| listed_at(tabs, tab_id, i);
        assert(tabs[i].0 == tab_id);
    }
    if exists|k: int| 0 <= k < tabs.len() && (#[trigger] tabs[k]).0 == tab_id {
        let k = choose|k: int| 0 <= k < tabs.len() && (#[trigger] tabs[k]).0 == tab_id;
        listed(tabs, tab_id, k);
    }
    if fresh.nodes.len() == 0 {
        assert(!fresh.has(fresh.cursor));
        let is_kid = |n: NodeView| n.parent == Some(fresh.cursor);
        let is_it = |n: NodeView| n.is(session, tab_id);
        seqs::filter_members(fresh.nodes, is_kid);
        let kids = fresh.children(fresh.cursor);
        seqs::filter_members(kids, is_it);
        let found = kids.filter(is_it);
        if found.len() > 0 {
            assert(found.contains(found[0]));
            assert(kids.contains(found[0]));
            assert(fresh.nodes.contains(found[0]));
        }
    }
}

/// A change is reported exactly where there is one: what was recorded differs from
/// what was read.
pub proof fn a_change_is_reported_where_there_is_one(
    s: NavView,
    session: Seq<char>,
    tab_id: usize,
    tabs: Seq<(usize, usize, Seq<char>)>,
    at: u64,
)
    requires
        s.tree(),
        s.grows(session, tab_id, tabs) ==> s.next_id < usize::MAX,
    ensures
        s.stale(session, tabs) || s.moves(session, tab_id, tabs) <==> s.visited(
            session,
            tab_id,
            tabs,
            at,
        ) != s,
{
    let t = s.visited(session, tab_id, tabs, at);
    laws::visit_in_line(s, session, tab_id, tabs, at);
    laws::in_line_is_not_stale(t, session, tabs);
    if !s.stale(session, tabs) {
        laws::not_stale_is_unchanged(s, session, tabs);
        if s.moves(session, tab_id, tabs) {
            laws::visit_stands_on_its_tab(s, session, tab_id, tabs, at);
        }
    }
}

/// A tree of no more than sixty-four visits is not pruned.
pub proof fn a_small_tree_is_not_pruned(s: NavView)
    requires
        s.nodes.len() <= 64,
    ensures
        s.pruned() == s,
{
}

/// Whether a node is the parent of another.
pub open spec fn is_above(s: NavView, id: usize, up: usize) -> bool {
    exists|i: int|
        0 <= i < s.nodes.len() && (#[trigger] s.nodes[i]).id == id && s.nodes[i].parent == Some(up)
}

/// A way up from the cursor, parent by parent.
pub open spec fn way_up(s: NavView, way: Seq<usize>) -> bool {
    &&& way.len() > 0
    &&& way[0] == s.cursor
    &&& forall|k: int, l: int|
        #![trigger way[k], way[l]]
        0 <= k < l < way.len() && l == k + 1 ==> is_above(s, way[k], way[l])
}

proof fn way_up_is_path(s: NavView, way: Seq<usize>, k: int)
    requires
        s.tree(),
        way_up(s, way),
        0 <= k < way.len(),
    ensures
        s.ancestor(k as nat) == Some(way[k]),
    decreases k,
{
    if k > 0 {
        way_up_is_path(s, way, k - 1);
        assert(is_above(s, way[k - 1], way[k]));
        parent_above(s, way[k - 1], way[k]);
    }
}

proof fn parent_above(s: NavView, id: usize, up: usize)
    requires
        s.tree(),
        is_above(s, id, up),
    ensures
        s.parent_of(id) == Some(up),
        s.has(id),
{
    let i = choose|i: int|
        0 <= i < s.nodes.len() && (#[trigger] s.nodes[i]).id == id && s.nodes[i].parent == Some(up);
    assert(s.nodes.contains(s.nodes[i]));
    laws::member_found(s, s.nodes[i]);
}

proof fn one_step_up(s: NavView, below: Seq<usize>, up: usize)
    requires
        way_up(s, below),
        is_above(s, below.last(), up),
    ensures
        way_up(s, below.push(up)),
{
    let way = below.push(up);
    assert forall|k: int, l: int|
        #![trigger way[k], way[l]]
        0 <= k < l < way.len() && l == k + 1 implies is_above(s, way[k], way[l]) by {
        if l < below.len() {
            assert(way[k] == below[k] && way[l] == below[l]);
        } else {
            assert(way[k] == below.last() && way[l] == up);
        }
    }
}

proof fn path_is_way_up(s: NavView, k: nat) -> (way: Seq<usize>)
    requires
        s.tree(),
        s.ancestor(k) is Some,
    ensures
        way_up(s, way),
        way.len() == k + 1,
        way.last() == s.ancestor(k)->0,
    decreases k,
{
    if k == 0 {
        seq![s.cursor]
    } else {
        let below = path_is_way_up(s, (k - 1) as nat);
        let up = s.ancestor(k)->0;
        above_of_parent(s, below.last(), up);
        one_step_up(s, below, up);
        below.push(up)
    }
}

proof fn above_of_parent(s: NavView, id: usize, up: usize)
    requires
        s.tree(),
        s.parent_of(id) == Some(up),
    ensures
        is_above(s, id, up),
{
    laws::found_member(s, id);
    let n = s.find(id)->0;
    let i = choose|i: int| 0 <= i < s.nodes.len() && s.nodes[i] == n;
    assert(s.nodes[i].id == id);
}

/// Pruning never touches the cursor or a node on the way up from it.
pub proof fn the_way_up_is_never_pruned(s: NavView, way: Seq<usize>, k: int, i: int)
    requires
        s.tree(),
        way_up(s, way),
        0 <= k < way.len(),
        0 <= i < s.nodes.len(),
        s.nodes[i].id == way[k],
    ensures
        s.pruned().cursor == s.cursor,
        exists|j: int|
            0 <= j < s.pruned().nodes.len() && (#[trigger] s.pruned().nodes[j]).id == way[k]
                && s.pruned().nodes[j].session == s.nodes[i].session && s.pruned().nodes[j].tab_id
                == s.nodes[i].tab_id && s.pruned().nodes[j].parent == s.nodes[i].parent,
{
    way_up_is_path(s, way, k);
    assert(s.on_path(way[k]));
    assert(s.nodes.contains(s.nodes[i]));
    laws::member_found(s, s.nodes[i]);
    laws::prune_keeps_path(s);
    let t = s.pruned();
    laws::found_member(t, way[k]);
    let n = t.find(way[k])->0;
    let j = choose|j: int| 0 <= j < t.nodes.len() && t.nodes[j] == n;
    assert(t.nodes[j].id == way[k]);
}

/// Of one visit too many the oldest leaf goes that is not on the way up, and nothing
/// else.
pub proof fn the_oldest_spare_leaf_is_pruned(s: NavView, i: int, k: int)
    requires
        s.tree(),
        s.nodes.len() == 65,
        0 <= i < s.nodes.len(),
        forall|j: int| 0 <= j < s.nodes.len() ==> (#[trigger] s.nodes[j]).parent != Some(
            s.nodes[i].id,
        ),
        forall|way: Seq<usize>| #[trigger] way_up(s, way) ==> way.last() != s.nodes[i].id,
        forall|q: int|
            0 <= q < s.nodes.len() && (#[trigger] s.nodes[q]).id < s.nodes[i].id ==> (exists|
                j: int,
            |
                0 <= j < s.nodes.len() && (#[trigger] s.nodes[j]).parent == Some(s.nodes[q].id))
                || exists|way: Seq<usize>| #[trigger] way_up(s, way) && way.last() == s.nodes[q].id,
        0 <= k < s.nodes.len(),
    ensures
        (exists|j: int|
            0 <= j < s.pruned().nodes.len() && (#[trigger] s.pruned().nodes[j]).id == s.nodes[k].id)
            <==> k != i,
{
    let id = s.nodes[i].id;
    assert(s.spare(id)) by {
        if s.on_path(id) {
            let q = choose|q: nat| s.ancestor(q) == Some(id);
            let way = path_is_way_up(s, q);
            assert(way.last() != s.nodes[i].id);
        }
    }
    assert forall|other: usize| #[trigger] s.spare(other) implies id <= other by {
        let q = choose|q: int| 0 <= q < s.nodes.len() && (#[trigger] s.nodes[q]).id == other;
        if other < id {
            if exists|j: int|
                0 <= j < s.nodes.len() && (#[trigger] s.nodes[j]).parent == Some(s.nodes[q].id) {
            } else {
                let way = choose|way: Seq<usize>| #[trigger]
                    way_up(s, way) && way.last() == s.nodes[q].id;
                way_up_is_path(s, way, way.len() - 1);
                assert(s.on_path(other));
            }
        }
    }
    assert(s.oldest_spare(id));
    let leaf = choose|leaf: usize| s.oldest_spare(leaf);
    assert(leaf == id);
    super::spliced_shrinks(s, id);
    let t = s.spliced(id);
    assert(t.nodes.len() <= 64);
    a_small_tree_is_not_pruned(t);
    assert(s.pruned() == s.spliced(leaf).pruned());
    if k != i {
        removing_a_node_hands_its_children_up(s, i, k);
    } else {
        let other: int = if i == 0 {
            1
        } else {
            0
        };
        removing_a_node_hands_its_children_up(s, i, other);
    }
}

/// The cursor goes where it is sent. The node it leaves remembers the child it went to;
/// gone anywhere else, it remembers what it did. No other node changes.
pub proof fn the_cursor_goes_where_it_is_sent(s: NavView, i: int, j: int, k: int)
    requires
        s.tree(),
        0 <= i < s.nodes.len(),
        s.nodes[i].id == s.cursor,
        0 <= j < s.nodes.len(),
        0 <= k < s.nodes.len(),
    ensures
        ({
            let t = s.with_cursor(s.nodes[j].id);
            &&& t.cursor == s.nodes[j].id
            &&& t.next_id == s.next_id
            &&& t.nodes.len() == s.nodes.len()
            &&& k != i ==> t.nodes[k] == s.nodes[k]
            &&& t.nodes[i] == (NodeView { last_child: t.nodes[i].last_child, ..s.nodes[i] })
            &&& s.nodes[j].parent == Some(s.cursor) ==> t.nodes[i].last_child == Some(s.nodes[j].id)
            &&& s.nodes[j].parent != Some(s.cursor) ==> t.nodes[i].last_child
                == s.nodes[i].last_child
        }),
{
    assert(s.nodes.contains(s.nodes[i]) && s.nodes.contains(s.nodes[j]));
    laws::member_found(s, s.nodes[i]);
    laws::member_found(s, s.nodes[j]);
    assert(first_at(s.nodes, s.cursor, i)) by {
        assert forall|q: int| 0 <= q < i implies (#[trigger] s.nodes[q]).id != s.cursor by {
            assert(s.nodes[q].id != s.nodes[i].id);
        }
    }
    find_is(s, s.cursor, i);
}

/// A node is found by its id: the first that has it, and none where none has.
pub proof fn a_node_is_found_by_its_id(s: NavView, id: usize, i: int)
    requires
        0 <= i < s.nodes.len(),
        forall|j: int| 0 <= j < i ==> (#[trigger] s.nodes[j]).id != id,
    ensures
        s.nodes[i].id == id ==> s.find(id) == Some(s.nodes[i]),
        (forall|j: int| 0 <= j < s.nodes.len() ==> (#[trigger] s.nodes[j]).id != id) ==> s.find(
            id,
        ) is None,
{
    if s.nodes[i].id == id {
        assert(first_at(s.nodes, id, i));
        find_is(s, id, i);
    }
}

/// The children of a node are those that have it for a parent.
pub proof fn children_are_those_below(s: NavView, id: usize, n: NodeView)
    ensures
        s.children(id).contains(n) <==> s.nodes.contains(n) && n.parent == Some(id),
{
    seqs::filter_members(s.nodes, |n: NodeView| n.parent == Some(id));
}

/// What was read back is gone on with; where nothing was, there is no visit and no id has
/// been used.
pub proof fn nothing_read_is_no_visit(state: NavState, n: Node, tabs: Seq<TabSnapshot>, i: int)
    ensures
        loaded_view(None).nodes.len() == 0,
        loaded_view(None).next_id == 0,
        loaded_view(Some(state)).nodes.len() == state.nodes.len(),
        0 <= i < state.nodes.len() ==> loaded_view(Some(state)).nodes[i] == state.nodes[i]@,
        loaded_view(Some(state)).cursor == state.cursor,
        loaded_view(Some(state)).next_id == state.next_id,
        n@.id == n.id && n@.session == n.session@ && n@.tab_id == n.tab_id && n@.tab_position
            == n.tab_position && n@.tab_name == n.tab_name@ && n@.parent == n.parent
            && n@.last_child == n.last_child && n@.at == n.at,
        0 <= i < tabs.len() ==> tabs_view(tabs)[i] == (tabs[i].0, tabs[i].1, tabs[i].2@),
        tabs_view(tabs).len() == tabs.len(),
{
}

} // verus!
