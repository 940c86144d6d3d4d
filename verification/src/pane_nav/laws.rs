//! What holds of the jump tree whatever is recorded and wherever one steps.
use super::{NavView, NodeView, MAX_NODES};
use crate::pane_nav;
use crate::seqs;
use vstd::prelude::*;

verus! {

impl NavView {
    /// No id occurs twice.
    pub open spec fn distinct(self) -> bool {
        forall|i: int, j: int|
            0 <= i < j < self.nodes.len() ==> (#[trigger] self.nodes[i]).id != (
            #[trigger] self.nodes[j]).id
    }

    /// A node hangs on an older node that is there, and remembers only a child
    /// of its own.
    pub open spec fn placed(self, n: NodeView) -> bool {
        &&& n.id < self.next_id
        &&& n.parent is Some ==> n.parent->0 < n.id && self.has(n.parent->0)
        &&& n.last_child is Some ==> self.has(n.last_child->0) && self.parent_of(n.last_child->0)
            == Some(n.id)
    }

    /// The nodes form a forest in which a parent is older than its children, and
    /// the cursor stands on one of them.
    pub open spec fn tree(self) -> bool {
        &&& self.distinct()
        &&& forall|n: NodeView| #[trigger] self.nodes.contains(n) ==> self.placed(n)
        &&& self.nodes.len() > 0 ==> self.has(self.cursor)
    }
}

/// A history without a visit is a tree.
pub proof fn no_visit_is_a_tree()
    ensures
        NavView::fresh().tree(),
{
}

/// A node of the list is what its id finds.
pub(crate) proof fn member_found(s: NavView, n: NodeView)
    requires
        s.distinct(),
        s.nodes.contains(n),
    ensures
        s.has(n.id),
        s.find(n.id) == Some(n),
{
    let i = choose|i: int| 0 <= i < s.nodes.len() && s.nodes[i] == n;
    assert forall|j: int| 0 <= j < i implies (#[trigger] s.nodes[j]).id != n.id by {
        assert(s.nodes[j].id != s.nodes[i].id);
    }
    pane_nav::find_is(s, n.id, i);
}

/// What an id finds is a node of the list.
pub(crate) proof fn found_member(s: NavView, id: usize)
    requires
        s.has(id),
    ensures
        s.find(id) is Some,
        s.nodes.contains(s.find(id)->0),
        s.find(id)->0.id == id,
{
    let i = s.index_of(id);
    assert(pane_nav::first_at(s.nodes, id, i));
    assert(s.nodes[i] == s.find(id)->0);
}

/// Filtering brings no id in twice.
pub(crate) proof fn filter_keeps_distinct(s: Seq<NodeView>, p: spec_fn(NodeView) -> bool)
    requires
        forall|i: int, j: int|
            0 <= i < j < s.len() ==> (#[trigger] s[i]).id != (
        #[trigger] s[j]).id,
    ensures
        forall|i: int, j: int|
            0 <= i < j < s.filter(p).len() ==> (#[trigger] s.filter(p)[i]).id != (
        #[trigger] s.filter(p)[j]).id,
    decreases s.len(),
{
    reveal(Seq::filter);
    if s.len() > 0 {
        let rest = s.drop_last();
        assert forall|i: int, j: int| 0 <= i < j < rest.len() implies (#[trigger] rest[i]).id != (
        #[trigger] rest[j]).id by {
            assert(s[i].id != s[j].id);
        }
        filter_keeps_distinct(rest, p);
        seqs::filter_members(rest, p);
        assert forall|i: int, j: int| 0 <= i < j < s.filter(p).len() implies (#[trigger] s.filter(
            p,
        )[i]).id != (
        #[trigger] s.filter(p)[j]).id by {
            if j < rest.filter(p).len() {
                assert(rest.filter(p)[i].id != rest.filter(p)[j].id);
            } else {
                assert(rest.filter(p).contains(rest.filter(p)[i]));
                let k = choose|k: int| 0 <= k < rest.len() && rest[k] == rest.filter(p)[i];
                assert(s[k].id != s[s.len() - 1].id);
            }
        }
    }
}

/// The nodes of a spliced tree are those of the tree but the one taken out,
/// each rid of it.
proof fn spliced_members(s: NavView, id: usize)
    requires
        s.has(id),
    ensures
        forall|n: NodeView|
            s.nodes.contains(n) && n.id != id ==> s.spliced(id).nodes.contains(
                #[trigger] n.without(id, s.parent_of(id)),
            ),
        forall|m: NodeView| #[trigger]
            s.spliced(id).nodes.contains(m) ==> exists|n: NodeView|
                s.nodes.contains(n) && n.id != id && m == #[trigger] n.without(id, s.parent_of(id)),
{
    let up = s.parent_of(id);
    let f = |n: NodeView| n.without(id, up);
    let p = |n: NodeView| n.id != id;
    let mapped = s.nodes.map_values(f);
    assert(s.spliced(id).nodes == mapped.filter(p));
    seqs::filter_members(mapped, p);
    assert forall|n: NodeView| s.nodes.contains(n) && n.id != id implies s.spliced(
        id,
    ).nodes.contains(#[trigger] n.without(id, up)) by {
        let i = choose|i: int| 0 <= i < s.nodes.len() && s.nodes[i] == n;
        assert(mapped[i] == n.without(id, up));
        assert(mapped.contains(n.without(id, up)));
    }
    assert forall|m: NodeView| #[trigger] s.spliced(id).nodes.contains(m) implies exists|
        n: NodeView,
    |
        s.nodes.contains(n) && n.id != id && m == #[trigger] n.without(id, up) by {
        let i = choose|i: int| 0 <= i < mapped.len() && mapped[i] == m;
        assert(s.nodes[i].without(id, up) == m);
    }
}

/// Taking a node out leaves every other node where its id finds it, rid of the
/// one that left.
pub proof fn splice_finds(s: NavView, id: usize, other: usize)
    requires
        s.distinct(),
        s.has(id),
        other != id,
    ensures
        s.spliced(id).distinct(),
        s.spliced(id).has(other) <==> s.has(other),
        s.has(other) ==> s.spliced(id).find(other) == Some(
            s.find(other)->0.without(id, s.parent_of(id)),
        ),
        !s.spliced(id).has(id),
{
    let t = s.spliced(id);
    let up = s.parent_of(id);
    let mapped = s.nodes.map_values(|n: NodeView| n.without(id, up));
    assert forall|i: int, j: int| 0 <= i < j < mapped.len() implies (#[trigger] mapped[i]).id != (
        #[trigger] mapped[j]).id by {
        assert(s.nodes[i].id != s.nodes[j].id);
    }
    filter_keeps_distinct(mapped, |n: NodeView| n.id != id);
    spliced_members(s, id);
    if s.has(other) {
        found_member(s, other);
        member_found(t, s.find(other)->0.without(id, up));
    }
    if t.has(other) {
        found_member(t, other);
        let n = choose|n: NodeView|
            s.nodes.contains(n) && n.id != id && t.find(other)->0 == #[trigger] n.without(id, up);
        member_found(s, n);
    }
    if t.has(id) {
        found_member(t, id);
    }
}

/// Taking a node out of a tree leaves a tree.
pub proof fn splice_keeps_tree(s: NavView, id: usize)
    requires
        s.tree(),
    ensures
        s.spliced(id).tree(),
        s.spliced(id).next_id == s.next_id,
{
    if s.has(id) {
        let t = s.spliced(id);
        let up = s.parent_of(id);
        found_member(s, id);
        assert(s.placed(s.find(id)->0));
        spliced_members(s, id);
        splice_finds(s, id, if id == 0 { 1 } else { 0 });
        assert forall|m: NodeView| #[trigger] t.nodes.contains(m) implies t.placed(m) by {
            let n = choose|n: NodeView|
                s.nodes.contains(n) && n.id != id && m == #[trigger] n.without(id, up);
            assert(s.placed(n));
            if m.parent is Some {
                splice_finds(s, id, m.parent->0);
            }
            if m.last_child is Some {
                splice_finds(s, id, m.last_child->0);
            }
        }
        if t.nodes.len() > 0 {
            if s.cursor != id {
                splice_finds(s, id, s.cursor);
            } else if up is Some {
                splice_finds(s, id, up->0);
            } else {
                let last = t.nodes.last();
                assert(t.nodes.contains(last));
                member_found(t, last);
            }
        }
    }
}

/// What handing on does to the node an id finds.
proof fn handed_finds(s: NavView, id: usize, other: usize)
    ensures
        s.handed_on(id).has(other) <==> s.has(other),
        s.has(other) ==> s.handed_on(id).find(other) == Some(
            s.find(other)->0.handing_on(id, s.remembered_by(id)),
        ),
        s.distinct() ==> s.handed_on(id).distinct(),
{
    let t = s.handed_on(id);
    assert forall|i: int| 0 <= i < s.nodes.len() implies (#[trigger] t.nodes[i])
        == s.nodes[i].handing_on(id, s.remembered_by(id)) && t.nodes[i].id == s.nodes[i].id by {}
    if s.has(other) {
        let i = s.index_of(other);
        assert(pane_nav::first_at(s.nodes, other, i));
        assert(pane_nav::first_at(t.nodes, other, i));
        pane_nav::find_is(t, other, i);
    }
    if t.has(other) {
        let i = t.index_of(other);
        assert(pane_nav::first_at(t.nodes, other, i));
        assert forall|j: int| 0 <= j < i implies (#[trigger] s.nodes[j]).id != other by {
            assert(t.nodes[j].id != other);
        }
        assert(pane_nav::first_at(s.nodes, other, i));
    }
    if s.distinct() {
        assert forall|i: int, j: int| 0 <= i < j < t.nodes.len() implies (#[trigger] t.nodes[i]).id
            != (#[trigger] t.nodes[j]).id by {
            assert(s.nodes[i].id != s.nodes[j].id);
        }
    }
}

/// A node after `id` of the tree has been retired.
pub open spec fn survivor(s: NavView, id: usize, n: NodeView) -> NodeView {
    n.handing_on(id, s.remembered_by(id)).without(id, s.parent_of(id))
}

/// The nodes that are left after one has been retired are those that were there,
/// but for that one.
proof fn retired_members(s: NavView, id: usize)
    requires
        s.has(id),
    ensures
        forall|m: NodeView| #[trigger]
            s.retired(id).nodes.contains(m) ==> exists|n: NodeView|
                s.nodes.contains(n) && n.id != id && m == #[trigger] survivor(s, id, n),
{
    let h = s.handed_on(id);
    handed_finds(s, id, id);
    spliced_members(h, id);
    assert forall|m: NodeView| #[trigger] s.retired(id).nodes.contains(m) implies exists|
        n: NodeView,
    |
        s.nodes.contains(n) && n.id != id && m == #[trigger] survivor(s, id, n) by {
        let k = choose|k: NodeView|
            h.nodes.contains(k) && k.id != id && m == #[trigger] k.without(id, h.parent_of(id));
        let i = choose|i: int| 0 <= i < h.nodes.len() && h.nodes[i] == k;
        assert(s.nodes.contains(s.nodes[i]));
        assert(m == survivor(s, id, s.nodes[i]));
    }
}

/// Retiring a node leaves every other node where its id finds it, rid of the one
/// that left.
pub(crate) proof fn retire_finds(s: NavView, id: usize, other: usize)
    requires
        s.distinct(),
        s.has(id),
        other != id,
    ensures
        s.retired(id).distinct(),
        s.retired(id).has(other) <==> s.has(other),
        s.has(other) ==> s.retired(id).find(other) == Some(survivor(s, id, s.find(other)->0)),
        !s.retired(id).has(id),
{
    handed_finds(s, id, id);
    handed_finds(s, id, other);
    splice_finds(s.handed_on(id), id, other);
}

/// Retiring a node that is not there does nothing.
proof fn retire_nothing(s: NavView, id: usize)
    requires
        !s.has(id),
    ensures
        s.retired(id) == s,
{
    handed_finds(s, id, id);
    assert(s.handed_on(id).nodes == s.nodes);
}

/// Retiring a node of a tree leaves a tree.
pub proof fn retire_keeps_tree(s: NavView, id: usize)
    requires
        s.tree(),
    ensures
        s.retired(id).tree(),
        s.retired(id).next_id == s.next_id,
{
    if s.has(id) {
        let t = s.retired(id);
        let up = s.parent_of(id);
        let heir = s.remembered_by(id);
        found_member(s, id);
        assert(s.placed(s.find(id)->0));
        handed_finds(s, id, id);
        retired_members(s, id);
        retire_finds(s, id, if id == 0 { 1 } else { 0 });
        if heir is Some {
            found_member(s, heir->0);
            assert(s.placed(s.find(heir->0)->0));
            retire_finds(s, id, heir->0);
        }
        assert forall|m: NodeView| #[trigger] t.nodes.contains(m) implies t.placed(m) by {
            let n = choose|n: NodeView|
                s.nodes.contains(n) && n.id != id && m == #[trigger] survivor(s, id, n);
            assert(s.placed(n));
            if m.parent is Some {
                retire_finds(s, id, m.parent->0);
            }
            if m.last_child is Some {
                retire_finds(s, id, m.last_child->0);
            }
        }
        if t.nodes.len() > 0 {
            if s.cursor != id {
                retire_finds(s, id, s.cursor);
            } else if up is Some {
                retire_finds(s, id, up->0);
            } else {
                let last = t.nodes.last();
                assert(t.nodes.contains(last));
                member_found(t, last);
            }
        }
    } else {
        retire_nothing(s, id);
    }
}

/// Bringing a tree in line with the live tabs leaves a tree.
pub proof fn refresh_keeps_tree(
    s: NavView,
    session: Seq<char>,
    tabs: Seq<(usize, usize, Seq<char>)>,
)
    requires
        s.tree(),
    ensures
        s.refreshed(session, tabs).tree(),
        s.refreshed(session, tabs).next_id == s.next_id,
{
    let ids = s.closed_ids(session, tabs);
    pane_nav::next_id_kept(s, ids);
    retire_all_keeps_tree(s, ids);
    let open = s.retired_all(ids);
    resync_keeps_tree(open, session, tabs);
}

pub(crate) proof fn retire_all_keeps_tree(s: NavView, ids: Seq<usize>)
    requires
        s.tree(),
    ensures
        s.retired_all(ids).tree(),
    decreases ids.len(),
{
    if ids.len() > 0 {
        retire_all_keeps_tree(s, ids.drop_last());
        retire_keeps_tree(s.retired_all(ids.drop_last()), ids.last());
    }
}

/// The tree with the positions and names of the live tabs.
pub open spec fn resynced(
    s: NavView,
    session: Seq<char>,
    tabs: Seq<(usize, usize, Seq<char>)>,
) -> NavView {
    NavView { nodes: s.nodes.map_values(|n: NodeView| n.resynced(session, tabs)), ..s }
}

pub(crate) proof fn resync_finds(
    s: NavView,
    session: Seq<char>,
    tabs: Seq<(usize, usize, Seq<char>)>,
    id: usize,
)
    ensures
        resynced(s, session, tabs).has(id) <==> s.has(id),
        s.has(id) ==> resynced(s, session, tabs).index_of(id) == s.index_of(id),
        s.has(id) ==> resynced(s, session, tabs).find(id) == Some(
            s.find(id)->0.resynced(session, tabs),
        ),
{
    let t = resynced(s, session, tabs);
    assert forall|i: int| 0 <= i < s.nodes.len() implies (#[trigger] t.nodes[i])
        == s.nodes[i].resynced(session, tabs) && t.nodes[i].id == s.nodes[i].id by {}
    if s.has(id) {
        let i = s.index_of(id);
        assert(pane_nav::first_at(s.nodes, id, i));
        assert(pane_nav::first_at(t.nodes, id, i));
        pane_nav::find_is(t, id, i);
    }
    if t.has(id) {
        let i = t.index_of(id);
        assert(pane_nav::first_at(t.nodes, id, i));
        assert forall|j: int| 0 <= j < i implies (#[trigger] s.nodes[j]).id != id by {
            assert(t.nodes[j].id != id);
        }
        assert(pane_nav::first_at(s.nodes, id, i));
    }
}

proof fn resync_keeps_tree(
    s: NavView,
    session: Seq<char>,
    tabs: Seq<(usize, usize, Seq<char>)>,
)
    requires
        s.tree(),
    ensures
        resynced(s, session, tabs).tree(),
{
    let t = resynced(s, session, tabs);
    assert forall|i: int, j: int| 0 <= i < j < t.nodes.len() implies (#[trigger] t.nodes[i]).id != (
        #[trigger] t.nodes[j]).id by {
        assert(s.nodes[i].id != s.nodes[j].id);
    }
    assert forall|m: NodeView| #[trigger] t.nodes.contains(m) implies t.placed(m) by {
        let i = choose|i: int| 0 <= i < t.nodes.len() && t.nodes[i] == m;
        let n = s.nodes[i];
        assert(s.nodes.contains(n));
        assert(s.placed(n));
        if n.parent is Some {
            resync_finds(s, session, tabs, n.parent->0);
        }
        if n.last_child is Some {
            resync_finds(s, session, tabs, n.last_child->0);
        }
    }
    resync_finds(s, session, tabs, s.cursor);
}

/// What moving the cursor does to the node an id finds.
pub(crate) proof fn cursor_finds(s: NavView, to: usize, id: usize)
    ensures
        s.with_cursor(to).has(id) <==> s.has(id),
        s.has(id) ==> {
            let n = s.find(id)->0;
            let m = s.with_cursor(to).find(id)->0;
            &&& m.id == n.id
            &&& m.parent == n.parent
            &&& m.session == n.session
            &&& m.tab_id == n.tab_id
            &&& m.tab_position == n.tab_position
            &&& m.tab_name == n.tab_name
            &&& m.at == n.at
            &&& m.last_child == n.last_child || (id == s.cursor && m.last_child == Some(to)
                && s.has(to) && s.parent_of(to) == Some(id))
        },
        s.has(s.cursor) && s.has(to) && s.parent_of(to) == Some(s.cursor) ==> s.with_cursor(
            to,
        ).find(s.cursor)->0.last_child == Some(to),
{
    let t = s.with_cursor(to);
    if s.has(s.cursor) {
        assert(pane_nav::first_at(s.nodes, s.cursor, s.index_of(s.cursor)));
    }
    assert forall|i: int| 0 <= i < s.nodes.len() implies (#[trigger] t.nodes[i]).id
        == s.nodes[i].id by {}
    if s.has(id) {
        let i = s.index_of(id);
        assert(pane_nav::first_at(s.nodes, id, i));
        assert(pane_nav::first_at(t.nodes, id, i));
        pane_nav::find_is(t, id, i);
        pane_nav::find_is(s, id, i);
    }
    if t.has(id) {
        let i = t.index_of(id);
        assert(pane_nav::first_at(t.nodes, id, i));
        assert forall|j: int| 0 <= j < i implies (#[trigger] s.nodes[j]).id != id by {
            assert(t.nodes[j].id != id);
        }
        assert(pane_nav::first_at(s.nodes, id, i));
    }
    if s.has(s.cursor) {
        let i = s.index_of(s.cursor);
        assert(pane_nav::first_at(t.nodes, s.cursor, i));
        pane_nav::find_is(t, s.cursor, i);
    }
}

/// Moving the cursor to a node of a tree leaves a tree.
pub proof fn cursor_keeps_tree(s: NavView, to: usize)
    requires
        s.tree(),
        s.has(to),
    ensures
        s.with_cursor(to).tree(),
{
    let t = s.with_cursor(to);
    if s.has(s.cursor) {
        assert(pane_nav::first_at(s.nodes, s.cursor, s.index_of(s.cursor)));
    }
    assert forall|i: int, j: int| 0 <= i < j < t.nodes.len() implies (#[trigger] t.nodes[i]).id != (
        #[trigger] t.nodes[j]).id by {
        assert(s.nodes[i].id != s.nodes[j].id);
    }
    assert forall|m: NodeView| #[trigger] t.nodes.contains(m) implies t.placed(m) by {
        let i = choose|i: int| 0 <= i < t.nodes.len() && t.nodes[i] == m;
        let n = s.nodes[i];
        assert(s.nodes.contains(n));
        assert(s.placed(n));
        if n.parent is Some {
            cursor_finds(s, to, n.parent->0);
        }
        if n.last_child is Some {
            cursor_finds(s, to, n.last_child->0);
        }
        cursor_finds(s, to, to);
    }
    cursor_finds(s, to, to);
}

/// What a new visit does to the node an id finds.
pub(crate) proof fn grown_finds(
    s: NavView,
    session: Seq<char>,
    tab_id: usize,
    position: usize,
    name: Seq<char>,
    at: u64,
    id: usize,
)
    requires
        s.tree(),
        s.next_id < usize::MAX,
    ensures
        s.grown(session, tab_id, position, name, at).has(id) <==> s.has(id) || id == s.next_id,
        s.has(id) ==> s.grown(session, tab_id, position, name, at).find(id) == s.find(id),
        s.grown(session, tab_id, position, name, at).find(s.next_id) == Some(
            s.grown(session, tab_id, position, name, at).nodes.last(),
        ),
        s.has(id) ==> id < s.next_id,
        s.grown(session, tab_id, position, name, at).distinct(),
{
    let t = s.grown(session, tab_id, position, name, at);
    assert forall|i: int| 0 <= i < s.nodes.len() implies (#[trigger] s.nodes[i]).id < s.next_id
        && t.nodes[i] == s.nodes[i] by {
        assert(s.nodes.contains(s.nodes[i]));
        assert(s.placed(s.nodes[i]));
    }
    assert(t.nodes[s.nodes.len() as int].id == s.next_id);
    assert(pane_nav::first_at(t.nodes, s.next_id, s.nodes.len() as int));
    pane_nav::find_is(t, s.next_id, s.nodes.len() as int);
    assert forall|i: int, j: int| 0 <= i < j < t.nodes.len() implies (#[trigger] t.nodes[i]).id != (
        #[trigger] t.nodes[j]).id by {
        if j < s.nodes.len() {
            assert(s.nodes[i].id != s.nodes[j].id);
        } else {
            assert(s.nodes[i].id < s.next_id);
        }
    }
    if s.has(id) {
        let i = s.index_of(id);
        assert(pane_nav::first_at(s.nodes, id, i));
        assert(pane_nav::first_at(t.nodes, id, i));
        pane_nav::find_is(t, id, i);
        pane_nav::find_is(s, id, i);
        assert(s.nodes[i].id < s.next_id);
    }
    if t.has(id) && id != s.next_id {
        let i = t.index_of(id);
        assert(pane_nav::first_at(t.nodes, id, i));
        assert(i < s.nodes.len());
        assert forall|j: int| 0 <= j < i implies (#[trigger] s.nodes[j]).id != id by {
            assert(t.nodes[j].id != id);
        }
        assert(pane_nav::first_at(s.nodes, id, i));
    }
}

/// A new visit below the cursor of a tree leaves a tree.
pub proof fn growth_keeps_tree(
    s: NavView,
    session: Seq<char>,
    tab_id: usize,
    position: usize,
    name: Seq<char>,
    at: u64,
)
    requires
        s.tree(),
        s.next_id < usize::MAX,
    ensures
        s.grown(session, tab_id, position, name, at).with_cursor(s.next_id).tree(),
{
    let t = s.grown(session, tab_id, position, name, at);
    grown_finds(s, session, tab_id, position, name, at, s.cursor);
    // The cursor has not moved yet, so a first visit has none to stand on.
    assert forall|m: NodeView| #[trigger] t.nodes.contains(m) implies t.placed(m) by {
        let i = choose|i: int| 0 <= i < t.nodes.len() && t.nodes[i] == m;
        if i < s.nodes.len() {
            assert(s.nodes.contains(m));
            assert(s.placed(m));
            if m.parent is Some {
                grown_finds(s, session, tab_id, position, name, at, m.parent->0);
            }
            if m.last_child is Some {
                grown_finds(s, session, tab_id, position, name, at, m.last_child->0);
            }
        }
    }
    let u = t.with_cursor(s.next_id);
    grown_finds(s, session, tab_id, position, name, at, s.next_id);
    if s.nodes.len() > 0 {
        cursor_keeps_tree(t, s.next_id);
    } else {
        assert(!s.has(s.cursor));
        assert(t.nodes.len() == 1);
        assert(t.nodes.last().parent is None);
        cursor_finds(t, s.next_id, s.next_id);
        assert(u.nodes == t.nodes);
        assert forall|m: NodeView| #[trigger] u.nodes.contains(m) implies u.placed(m) by {
            assert(t.placed(m));
        }
    }
}

/// Where there is a spare leaf, one is the oldest.
proof fn oldest_exists(s: NavView, id: usize)
    requires
        s.spare(id),
    ensures
        exists|old: usize| s.oldest_spare(old),
    decreases id,
{
    if forall|other: usize| #[trigger] s.spare(other) ==> id <= other {
        assert(s.oldest_spare(id));
    } else {
        let other = choose|other: usize| #[trigger] s.spare(other) && other < id;
        oldest_exists(s, other);
    }
}

/// Dropping a spare leaf leaves the path to the cursor as it was.
proof fn spare_off_path(s: NavView, id: usize, k: nat)
    requires
        s.tree(),
        s.spare(id),
    ensures
        s.spliced(id).ancestor(k) == s.ancestor(k),
    decreases k,
{
    let i = choose|i: int| 0 <= i < s.nodes.len() && (#[trigger] s.nodes[i]).id == id;
    pane_nav::has_of_member(s, id, i);
    assert(s.ancestor(0) == Some(s.cursor));
    assert(s.on_path(s.cursor));
    if k > 0 {
        spare_off_path(s, id, (k - 1) as nat);
        if s.ancestor((k - 1) as nat) is Some {
            let below = s.ancestor((k - 1) as nat)->0;
            assert(s.on_path(below));
            spare_finds(s, id, below);
        }
    }
}

/// Dropping a spare leaf leaves every other node as it was, but for forgetting
/// the leaf.
proof fn spare_finds(s: NavView, id: usize, other: usize)
    requires
        s.tree(),
        s.spare(id),
        other != id,
    ensures
        s.spliced(id).has(other) <==> s.has(other),
        s.parent_of(other) == s.spliced(id).parent_of(other),
        s.has(other) ==> same_visit(s.find(other)->0, s.spliced(id).find(other)->0),
{
    let i = choose|i: int| 0 <= i < s.nodes.len() && (#[trigger] s.nodes[i]).id == id;
    pane_nav::has_of_member(s, id, i);
    splice_finds(s, id, other);
    if s.has(other) {
        let j = s.index_of(other);
        assert(pane_nav::first_at(s.nodes, other, j));
        assert(s.nodes[j].parent != Some(id));
    }
}

/// Two nodes are one visit: they differ in where they hang, if at all.
pub open spec fn same_visit(a: NodeView, b: NodeView) -> bool {
    &&& a.id == b.id
    &&& a.session == b.session
    &&& a.tab_id == b.tab_id
    &&& a.tab_position == b.tab_position
    &&& a.tab_name == b.tab_name
    &&& a.at == b.at
}

/// Pruning a tree leaves a tree, and the path to the cursor as it was: the
/// cursor and every node above it stay.
pub proof fn prune_keeps_path(s: NavView)
    requires
        s.tree(),
    ensures
        s.pruned().tree(),
        s.pruned().cursor == s.cursor,
        s.pruned().next_id == s.next_id,
        s.pruned().nodes.len() <= s.nodes.len(),
        forall|k: nat| #[trigger] s.pruned().ancestor(k) == s.ancestor(k),
        forall|id: usize| #[trigger]
            s.on_path(id) ==> {
                &&& s.pruned().has(id) <==> s.has(id)
                &&& s.pruned().parent_of(id) == s.parent_of(id)
                &&& s.has(id) ==> same_visit(s.find(id)->0, s.pruned().find(id)->0)
            },
    decreases s.nodes.len(),
{
    if s.nodes.len() > MAX_NODES && exists|id: usize| s.oldest_spare(id) {
        let leaf = choose|id: usize| s.oldest_spare(id);
        let t = s.spliced(leaf);
        pane_nav::spliced_shrinks(s, leaf);
        splice_keeps_tree(s, leaf);
        prune_keeps_path(t);
        assert(s.ancestor(0) == Some(s.cursor));
        assert(s.on_path(s.cursor));
        assert forall|k: nat| #[trigger] s.pruned().ancestor(k) == s.ancestor(k) by {
            spare_off_path(s, leaf, k);
            assert(t.pruned().ancestor(k) == t.ancestor(k));
        }
        assert forall|id: usize| #[trigger] s.on_path(id) implies {
            &&& s.pruned().has(id) <==> s.has(id)
            &&& s.pruned().parent_of(id) == s.parent_of(id)
            &&& s.has(id) ==> same_visit(s.find(id)->0, s.pruned().find(id)->0)
        } by {
            let k = choose|k: nat| s.ancestor(k) == Some(id);
            spare_off_path(s, leaf, k);
            assert(t.on_path(id));
            spare_finds(s, leaf, id);
        }
    }
}

/// A tree is pruned down to the limit, unless all of it is the path to the
/// cursor.
pub proof fn prune_reaches_the_limit(s: NavView)
    requires
        s.tree(),
    ensures
        s.pruned().nodes.len() <= MAX_NODES || forall|n: NodeView| #[trigger]
            s.pruned().nodes.contains(n) ==> s.pruned().on_path(n.id),
    decreases s.nodes.len(),
{
    if s.nodes.len() > MAX_NODES {
        if exists|id: usize| s.oldest_spare(id) {
            let leaf = choose|id: usize| s.oldest_spare(id);
            pane_nav::spliced_shrinks(s, leaf);
            splice_keeps_tree(s, leaf);
            prune_reaches_the_limit(s.spliced(leaf));
        } else {
            assert forall|n: NodeView| #[trigger] s.nodes.contains(n) implies s.on_path(n.id) by {
                let i = choose|i: int| 0 <= i < s.nodes.len() && s.nodes[i] == n;
                no_spare_all_on_path(s, i);
            }
        }
    }
}

/// Where no leaf is spare, every node is on the path.
proof fn no_spare_all_on_path(s: NavView, i: int)
    requires
        s.tree(),
        !exists|id: usize| s.oldest_spare(id),
        0 <= i < s.nodes.len(),
    ensures
        s.on_path(s.nodes[i].id),
    decreases s.next_id - s.nodes[i].id,
{
    let n = s.nodes[i];
    assert(s.nodes.contains(n));
    assert(s.placed(n));
    if !s.on_path(n.id) {
        if s.spare(n.id) {
            oldest_exists(s, n.id);
        } else {
            let j = choose|j: int|
                0 <= j < s.nodes.len() && (#[trigger] s.nodes[j]).parent == Some(n.id);
            assert(s.nodes.contains(s.nodes[j]));
            assert(s.placed(s.nodes[j]));
            no_spare_all_on_path(s, j);
            let k = choose|k: nat| s.ancestor(k) == Some(s.nodes[j].id);
            member_found(s, s.nodes[j]);
            assert(s.ancestor((k + 1) as nat) == Some(n.id));
        }
    }
}

/// A neighbour of the cursor is a node of the tree.
pub(crate) proof fn adjacent_is_node(s: NavView, session: Seq<char>, tab_id: usize)
    requires
        s.tree(),
        s.adjacent(session, tab_id) is Some,
    ensures
        ({
            let id = s.adjacent(session, tab_id)->0;
            &&& s.has(id)
            &&& s.find(id)->0.is(session, tab_id)
            &&& s.parent_of(id) == Some(s.cursor) || s.parent_of(s.cursor) == Some(id)
        }),
{
    let kids = s.children(s.cursor);
    let p = |n: NodeView| n.is(session, tab_id);
    let q = |n: NodeView| n.parent == Some(s.cursor);
    let below = kids.filter(p);
    if below.len() > 0 {
        seqs::filter_members(kids, p);
        seqs::filter_members(s.nodes, q);
        assert(below.contains(below[0]));
        assert(kids.contains(below[0]));
        member_found(s, below[0]);
    } else {
        let up = s.parent_of(s.cursor)->0;
        found_member(s, up);
    }
}

/// A neighbour that is a visit to this tab is taken for one.
proof fn adjacent_found(s: NavView, session: Seq<char>, tab_id: usize, id: usize)
    requires
        s.tree(),
        s.has(id),
        s.find(id)->0.is(session, tab_id),
        s.parent_of(id) == Some(s.cursor) || s.parent_of(s.cursor) == Some(id),
    ensures
        s.adjacent(session, tab_id) is Some,
{
    let kids = s.children(s.cursor);
    let p = |n: NodeView| n.is(session, tab_id);
    let q = |n: NodeView| n.parent == Some(s.cursor);
    seqs::filter_members(kids, p);
    seqs::filter_members(s.nodes, q);
    found_member(s, id);
    if s.parent_of(id) == Some(s.cursor) {
        assert(kids.contains(s.find(id)->0));
        assert(kids.filter(p).contains(s.find(id)->0));
    }
}

/// Recording a visit leaves a tree, and no id is given out twice.
pub proof fn visit_keeps_tree(
    s: NavView,
    session: Seq<char>,
    tab_id: usize,
    tabs: Seq<(usize, usize, Seq<char>)>,
    at: u64,
)
    requires
        s.tree(),
        s.grows(session, tab_id, tabs) ==> s.next_id < usize::MAX,
    ensures
        s.visited(session, tab_id, tabs, at).tree(),
        s.visited(session, tab_id, tabs, at).next_id >= s.next_id,
        s.grows(session, tab_id, tabs) ==> s.visited(session, tab_id, tabs, at).next_id
            == s.next_id + 1,
{
    let fresh = s.refreshed(session, tabs);
    refresh_keeps_tree(s, session, tabs);
    pane_nav::next_id_kept(s, s.closed_ids(session, tabs));
    if s.moves(session, tab_id, tabs) {
        move_keeps_tree(s, session, tab_id, tabs, at);
        prune_keeps_path(fresh.moved(session, tab_id, tabs, at));
    }
}

pub(crate) proof fn move_keeps_tree(
    s: NavView,
    session: Seq<char>,
    tab_id: usize,
    tabs: Seq<(usize, usize, Seq<char>)>,
    at: u64,
)
    requires
        s.tree(),
        s.moves(session, tab_id, tabs),
        s.grows(session, tab_id, tabs) ==> s.next_id < usize::MAX,
    ensures
        s.refreshed(session, tabs).moved(session, tab_id, tabs, at).tree(),
{
    let fresh = s.refreshed(session, tabs);
    refresh_keeps_tree(s, session, tabs);
    pane_nav::next_id_kept(s, s.closed_ids(session, tabs));
    match fresh.adjacent(session, tab_id) {
        Some(id) => {
            adjacent_is_node(fresh, session, tab_id);
            cursor_keeps_tree(fresh, id);
        },
        None => {
            let listed = pane_nav::listing(tabs, tab_id);
            growth_keeps_tree(fresh, session, tab_id, listed.0, listed.1, at);
        },
    }
}

/// Where one step leads is a node, and it hangs on the cursor or the cursor on
/// it.
pub(crate) proof fn neighbour_is_node(s: NavView, forward: bool)
    requires
        s.tree(),
        s.neighbour(forward) is Some,
    ensures
        s.has(s.cursor),
        s.has(s.neighbour(forward)->0),
        forward ==> s.parent_of(s.neighbour(forward)->0) == Some(s.cursor),
        !forward ==> s.parent_of(s.cursor) == s.neighbour(forward),
{
    found_member(s, s.cursor);
    let current = s.find(s.cursor)->0;
    assert(s.placed(current));
    if forward && !(current.last_child is Some && s.has(current.last_child->0)) {
        let id = choose|id: usize| s.newest_child(id);
        let i = choose|i: int|
            0 <= i < s.nodes.len() && (#[trigger] s.nodes[i]).id == id && s.nodes[i].parent == Some(
                s.cursor,
            );
        assert(s.nodes.contains(s.nodes[i]));
        member_found(s, s.nodes[i]);
    }
}

/// One step along a tree leaves a tree, and always lands on the node it leads to.
pub proof fn step_keeps_tree(s: NavView, forward: bool)
    requires
        s.tree(),
    ensures
        s.stepped(forward).tree(),
        s.stepped(forward).next_id == s.next_id,
        s.landing(forward) is Some <==> s.neighbour(forward) is Some,
{
    if s.neighbour(forward) is Some {
        neighbour_is_node(s, forward);
        cursor_keeps_tree(s, s.neighbour(forward)->0);
        cursor_finds(s, s.neighbour(forward)->0, s.neighbour(forward)->0);
    }
}

/// Stepping forward and then back returns to where one was, and stepping
/// forward again returns to the same branch rather than to the newest one.
pub proof fn forward_follows_the_branch_last_taken(s: NavView)
    requires
        s.tree(),
        s.neighbour(true) is Some,
    ensures
        s.stepped(true).stepped(false).cursor == s.cursor,
        s.stepped(true).stepped(false).stepped(true).cursor == s.stepped(true).cursor,
{
    let to = s.neighbour(true)->0;
    neighbour_is_node(s, true);
    cursor_finds(s, to, to);
    cursor_finds(s, to, s.cursor);
    let t = s.stepped(true);
    assert(t.neighbour(false) == Some(s.cursor));
    cursor_finds(t, s.cursor, s.cursor);
    cursor_finds(t, s.cursor, to);
    found_member(s, s.cursor);
    found_member(s, to);
    assert(s.placed(s.find(to)->0));
    let u = t.stepped(false);
    assert(u.find(s.cursor)->0.last_child == Some(to));
}

/// At a root, stepping back goes nowhere and changes nothing.
pub proof fn back_from_a_root_is_a_no_op(s: NavView)
    requires
        s.parent_of(s.cursor) is None,
    ensures
        s.stepped(false) == s,
        s.landing(false) is None,
{
}

impl NavView {
    /// Every node of `session` is a live tab, with its position and name.
    pub open spec fn in_line(
        self,
        session: Seq<char>,
        tabs: Seq<(usize, usize, Seq<char>)>,
    ) -> bool {
        forall|n: NodeView| #[trigger]
            self.nodes.contains(n) ==> !n.closed(session, tabs) && n.resynced(session, tabs) == n
    }
}

/// What is left after nodes have been taken out was there before, and is none
/// of them.
pub(crate) proof fn retire_all_members(s: NavView, ids: Seq<usize>)
    ensures
        forall|m: NodeView| #[trigger]
            s.retired_all(ids).nodes.contains(m) ==> !ids.contains(m.id) && exists|n: NodeView|
                s.nodes.contains(n) && #[trigger] same_visit(n, m),
    decreases ids.len(),
{
    if ids.len() == 0 {
        assert forall|m: NodeView| #[trigger] s.nodes.contains(m) implies exists|n: NodeView|
            s.nodes.contains(n) && #[trigger] same_visit(n, m) by {
            assert(same_visit(m, m));
        }
    } else {
        let id = ids.last();
        let t = s.retired_all(ids.drop_last());
        retire_all_members(s, ids.drop_last());
        if t.has(id) {
            retired_members(t, id);
        } else {
            retire_nothing(t, id);
        }
        assert forall|m: NodeView| #[trigger] t.retired(id).nodes.contains(m) implies !ids.contains(
            m.id,
        ) && exists|n: NodeView| s.nodes.contains(n) && #[trigger] same_visit(n, m) by {
            let before = if t.has(id) {
                choose|n: NodeView|
                    t.nodes.contains(n) && n.id != id && m == #[trigger] survivor(t, id, n)
            } else {
                m
            };
            assert(t.nodes.contains(before));
            if m.id == id {
                let i = choose|i: int| 0 <= i < t.nodes.len() && t.nodes[i] == before;
                pane_nav::has_of_member(t, id, i);
            }
            let n = choose|n: NodeView| s.nodes.contains(n) && #[trigger] same_visit(n, before);
            assert(same_visit(n, m));
            if ids.contains(m.id) {
                let k = choose|k: int| 0 <= k < ids.len() && ids[k] == m.id;
                assert(ids.drop_last()[k] == m.id);
            }
        }
    }
}

/// After a refresh nothing of the session is out of line: no closed tab is left,
/// and positions and names are those of the live tabs.
pub proof fn refresh_brings_in_line(
    s: NavView,
    session: Seq<char>,
    tabs: Seq<(usize, usize, Seq<char>)>,
)
    ensures
        s.refreshed(session, tabs).in_line(session, tabs),
{
    let ids = s.closed_ids(session, tabs);
    let open = s.retired_all(ids);
    retire_all_members(s, ids);
    let p = |n: NodeView| n.closed(session, tabs);
    seqs::filter_members(s.nodes, p);
    let t = s.refreshed(session, tabs);
    assert forall|r: NodeView| #[trigger] t.nodes.contains(r) implies !r.closed(session, tabs)
        && r.resynced(session, tabs) == r by {
        let i = choose|i: int| 0 <= i < t.nodes.len() && t.nodes[i] == r;
        let m = open.nodes[i];
        assert(open.nodes.contains(m));
        let n = choose|n: NodeView| s.nodes.contains(n) && #[trigger] same_visit(n, m);
        if n.closed(session, tabs) {
            assert(s.nodes.filter(p).contains(n));
            let k = choose|k: int| 0 <= k < s.nodes.filter(p).len() && s.nodes.filter(p)[k] == n;
            assert(ids[k] == m.id);
        }
    }
}

/// A refresh of what is in line finds nothing to do.
pub proof fn in_line_is_not_stale(
    s: NavView,
    session: Seq<char>,
    tabs: Seq<(usize, usize, Seq<char>)>,
)
    requires
        s.in_line(session, tabs),
    ensures
        !s.stale(session, tabs),
        s.refreshed(session, tabs) == s,
{
    let p = |n: NodeView| n.closed(session, tabs);
    seqs::filter_members(s.nodes, p);
    let ids = s.closed_ids(session, tabs);
    if s.nodes.filter(p).len() > 0 {
        assert(s.nodes.filter(p).contains(s.nodes.filter(p)[0]));
    }
    assert(ids.len() == 0);
    assert forall|i: int| 0 <= i < s.nodes.len() implies #[trigger] s.nodes[i].resynced(
        session,
        tabs,
    ) == s.nodes[i] by {
        assert(s.nodes.contains(s.nodes[i]));
    }
    assert(s.refreshed(session, tabs).nodes == s.nodes);
}

/// A refresh that finds nothing to do changes nothing.
pub proof fn not_stale_is_unchanged(
    s: NavView,
    session: Seq<char>,
    tabs: Seq<(usize, usize, Seq<char>)>,
)
    requires
        !s.stale(session, tabs),
    ensures
        s.refreshed(session, tabs) == s,
{
    let ids = s.closed_ids(session, tabs);
    assert(ids.len() == 0);
    assert(s.retired_all(ids) == s);
    assert forall|i: int| 0 <= i < s.nodes.len() implies #[trigger] s.nodes[i].resynced(
        session,
        tabs,
    ) == s.nodes[i] by {}
    assert(s.refreshed(session, tabs).nodes == s.nodes);
}

/// An echo of the cursor changes nothing: what is not reported as a change is
/// none.
pub proof fn echo_changes_nothing(
    s: NavView,
    session: Seq<char>,
    tab_id: usize,
    tabs: Seq<(usize, usize, Seq<char>)>,
    at: u64,
)
    requires
        !s.stale(session, tabs),
        !s.moves(session, tab_id, tabs),
    ensures
        s.visited(session, tab_id, tabs, at) == s,
{
    not_stale_is_unchanged(s, session, tabs);
}

/// The same report given twice changes nothing the second time: nothing is out of
/// line any more, and the cursor already stands on the tab.
pub proof fn a_repeated_report_is_an_echo(
    s: NavView,
    session: Seq<char>,
    tab_id: usize,
    tabs: Seq<(usize, usize, Seq<char>)>,
    at: u64,
    later: u64,
)
    requires
        s.tree(),
        s.grows(session, tab_id, tabs) ==> s.next_id < usize::MAX,
    ensures
        ({
            let t = s.visited(session, tab_id, tabs, at);
            &&& !t.stale(session, tabs)
            &&& !t.moves(session, tab_id, tabs)
            &&& t.visited(session, tab_id, tabs, later) == t
        }),
{
    let t = s.visited(session, tab_id, tabs, at);
    visit_in_line(s, session, tab_id, tabs, at);
    in_line_is_not_stale(t, session, tabs);
    if pane_nav::live(tabs, tab_id) {
        visit_stands_on_its_tab(s, session, tab_id, tabs, at);
    }
    echo_changes_nothing(t, session, tab_id, tabs, later);
}

/// Taking nodes out leaves every other node of a tree, with its visit, and a
/// cursor that stands on one of those.
pub(crate) proof fn retire_all_finds(s: NavView, ids: Seq<usize>, id: usize)
    requires
        s.tree(),
        s.has(id),
        !ids.contains(id),
    ensures
        s.retired_all(ids).has(id),
        same_visit(s.find(id)->0, s.retired_all(ids).find(id)->0),
        s.cursor == id ==> s.retired_all(ids).cursor == id,
    decreases ids.len(),
{
    if ids.len() > 0 {
        let rest = ids.drop_last();
        let t = s.retired_all(rest);
        assert(!rest.contains(id)) by {
            if rest.contains(id) {
                let k = choose|k: int| 0 <= k < rest.len() && rest[k] == id;
                assert(ids[k] == id);
            }
        }
        retire_all_finds(s, rest, id);
        retire_all_keeps_tree(s, rest);
        assert(ids[ids.len() - 1] == ids.last());
        if t.has(ids.last()) {
            retire_finds(t, ids.last(), id);
        } else {
            retire_nothing(t, ids.last());
        }
    }
}

/// A node whose tab is not closed survives a refresh; only its position and
/// name may change. A cursor on it stays.
pub proof fn refresh_keeps_live_nodes(
    s: NavView,
    session: Seq<char>,
    tabs: Seq<(usize, usize, Seq<char>)>,
    id: usize,
)
    requires
        s.tree(),
        s.has(id),
        !s.find(id)->0.closed(session, tabs),
    ensures
        s.refreshed(session, tabs).has(id),
        same_visit(
            s.find(id)->0.resynced(session, tabs),
            s.refreshed(session, tabs).find(id)->0,
        ),
        s.cursor == id ==> s.refreshed(session, tabs).cursor == id,
{
    let ids = s.closed_ids(session, tabs);
    open_is_not_listed(s, session, tabs, id);
    retire_all_finds(s, ids, id);
    resync_finds(s.retired_all(ids), session, tabs, id);
}

proof fn refresh_never_grows(s: NavView, ids: Seq<usize>)
    ensures
        s.retired_all(ids).nodes.len() <= s.nodes.len(),
    decreases ids.len(),
{
    if ids.len() > 0 {
        let t = s.retired_all(ids.drop_last());
        refresh_never_grows(s, ids.drop_last());
        if t.has(ids.last()) {
            let i = t.index_of(ids.last());
            assert(pane_nav::first_at(t.nodes, ids.last(), i));
            assert(t.handed_on(ids.last()).nodes[i].id == ids.last());
            pane_nav::spliced_shrinks(t.handed_on(ids.last()), ids.last());
        } else {
            retire_nothing(t, ids.last());
        }
    }
}

/// After a visit to a live tab, that is where the cursor stands.
pub proof fn visit_stands_on_its_tab(
    s: NavView,
    session: Seq<char>,
    tab_id: usize,
    tabs: Seq<(usize, usize, Seq<char>)>,
    at: u64,
)
    requires
        s.tree(),
        pane_nav::live(tabs, tab_id),
        s.grows(session, tab_id, tabs) ==> s.next_id < usize::MAX,
    ensures
        s.visited(session, tab_id, tabs, at).stands_on(session, tab_id),
{
    let fresh = s.refreshed(session, tabs);
    refresh_keeps_tree(s, session, tabs);
    if s.moves(session, tab_id, tabs) {
        let m = fresh.moved(session, tab_id, tabs, at);
        move_keeps_tree(s, session, tab_id, tabs, at);
        moved_stands(s, session, tab_id, tabs, at);
        prune_keeps_path(m);
        assert(m.ancestor(0) == Some(m.cursor));
        assert(m.on_path(m.cursor));
    }
}

/// Where a move leaves the cursor.
pub(crate) proof fn moved_stands(
    s: NavView,
    session: Seq<char>,
    tab_id: usize,
    tabs: Seq<(usize, usize, Seq<char>)>,
    at: u64,
)
    requires
        s.tree(),
        s.moves(session, tab_id, tabs),
        s.grows(session, tab_id, tabs) ==> s.next_id < usize::MAX,
    ensures
        ({
            let fresh = s.refreshed(session, tabs);
            let m = fresh.moved(session, tab_id, tabs, at);
            &&& m.has(m.cursor)
            &&& m.find(m.cursor)->0.is(session, tab_id)
            &&& fresh.has(fresh.cursor) ==> m.has(fresh.cursor) && same_visit(
                fresh.find(fresh.cursor)->0,
                m.find(fresh.cursor)->0,
            )
            &&& fresh.has(fresh.cursor) ==> m.parent_of(m.cursor) == Some(fresh.cursor)
                || m.parent_of(fresh.cursor) == Some(m.cursor)
            &&& fresh.has(fresh.cursor) && fresh.adjacent(session, tab_id) is None ==> m.parent_of(
                m.cursor,
            ) == Some(fresh.cursor)
        }),
{
    let fresh = s.refreshed(session, tabs);
    refresh_keeps_tree(s, session, tabs);
    pane_nav::next_id_kept(s, s.closed_ids(session, tabs));
    match fresh.adjacent(session, tab_id) {
        Some(id) => {
            adjacent_is_node(fresh, session, tab_id);
            cursor_finds(fresh, id, id);
            cursor_finds(fresh, id, fresh.cursor);
        },
        None => {
            let listed = pane_nav::listing(tabs, tab_id);
            let g = fresh.grown(session, tab_id, listed.0, listed.1, at);
            grown_finds(fresh, session, tab_id, listed.0, listed.1, at, fresh.next_id);
            grown_finds(fresh, session, tab_id, listed.0, listed.1, at, fresh.cursor);
            cursor_finds(g, fresh.next_id, fresh.next_id);
            cursor_finds(g, fresh.next_id, fresh.cursor);
        },
    }
}

/// A move and the pruning after it keep the session in line.
pub(crate) proof fn visit_in_line(
    s: NavView,
    session: Seq<char>,
    tab_id: usize,
    tabs: Seq<(usize, usize, Seq<char>)>,
    at: u64,
)
    ensures
        s.visited(session, tab_id, tabs, at).in_line(session, tabs),
{
    let fresh = s.refreshed(session, tabs);
    refresh_brings_in_line(s, session, tabs);
    if s.moves(session, tab_id, tabs) {
        match fresh.adjacent(session, tab_id) {
            Some(id) => {
                cursor_in_line(fresh, id, session, tabs);
            },
            None => {
                let listed = pane_nav::listing(tabs, tab_id);
                let g = fresh.grown(session, tab_id, listed.0, listed.1, at);
                assert forall|n: NodeView| #[trigger] g.nodes.contains(n) implies !n.closed(
                    session,
                    tabs,
                ) && n.resynced(session, tabs) == n by {
                    let i = choose|i: int| 0 <= i < g.nodes.len() && g.nodes[i] == n;
                    if i < fresh.nodes.len() {
                        assert(fresh.nodes[i] == n);
                        assert(fresh.nodes.contains(n));
                    }
                }
                cursor_in_line(g, fresh.next_id, session, tabs);
            },
        }
        prune_in_line(fresh.moved(session, tab_id, tabs, at), session, tabs);
    }
}

proof fn cursor_in_line(
    s: NavView,
    to: usize,
    session: Seq<char>,
    tabs: Seq<(usize, usize, Seq<char>)>,
)
    requires
        s.in_line(session, tabs),
    ensures
        s.with_cursor(to).in_line(session, tabs),
{
    let t = s.with_cursor(to);
    assert forall|m: NodeView| #[trigger] t.nodes.contains(m) implies !m.closed(session, tabs)
        && m.resynced(session, tabs) == m by {
        let i = choose|i: int| 0 <= i < t.nodes.len() && t.nodes[i] == m;
        if s.has(s.cursor) {
            assert(pane_nav::first_at(s.nodes, s.cursor, s.index_of(s.cursor)));
        }
        assert(s.nodes.contains(s.nodes[i]));
        assert(s.nodes[i].resynced(session, tabs) == s.nodes[i]);
    }
}

proof fn prune_in_line(s: NavView, session: Seq<char>, tabs: Seq<(usize, usize, Seq<char>)>)
    requires
        s.in_line(session, tabs),
    ensures
        s.pruned().in_line(session, tabs),
    decreases s.nodes.len(),
{
    if s.nodes.len() > MAX_NODES && exists|id: usize| s.oldest_spare(id) {
        let leaf = choose|id: usize| s.oldest_spare(id);
        let t = s.spliced(leaf);
        pane_nav::spliced_shrinks(s, leaf);
        spliced_members(s, leaf);
        assert forall|m: NodeView| #[trigger] t.nodes.contains(m) implies !m.closed(session, tabs)
            && m.resynced(session, tabs) == m by {
            let n = choose|n: NodeView|
                s.nodes.contains(n) && n.id != leaf && m == #[trigger] n.without(
                    leaf,
                    s.parent_of(leaf),
                );
            assert(n.resynced(session, tabs) == n);
        }
        prune_in_line(t, session, tabs);
    }
}

/// Going to another tab and back again adds no node for the way back: in a tree
/// that is not over its limit, hopping between two tabs leaves it as large as
/// the first hop made it.
pub proof fn ping_pong_adds_no_nodes(
    s: NavView,
    session: Seq<char>,
    here: usize,
    there: usize,
    tabs: Seq<(usize, usize, Seq<char>)>,
    at: u64,
    later: u64,
)
    requires
        s.tree(),
        s.nodes.len() <= MAX_NODES,
        s.stands_on(session, here),
        here != there,
        pane_nav::live(tabs, here),
        pane_nav::live(tabs, there),
        s.grows(session, there, tabs) ==> s.next_id < usize::MAX,
    ensures
        ({
            let hop = s.visited(session, there, tabs, at);
            let back = hop.visited(session, here, tabs, later);
            &&& !hop.grows(session, here, tabs)
            &&& back.nodes.len() <= hop.nodes.len()
            &&& back.stands_on(session, here)
        }),
{
    let fresh = s.refreshed(session, tabs);
    let hop = s.visited(session, there, tabs, at);
    refresh_keeps_tree(s, session, tabs);
    refresh_keeps_live_nodes(s, session, tabs, s.cursor);
    refresh_never_grows(s, s.closed_ids(session, tabs));
    assert(s.moves(session, there, tabs));
    let m = fresh.moved(session, there, tabs, at);
    move_keeps_tree(s, session, there, tabs, at);
    moved_stands(s, session, there, tabs, at);
    prune_keeps_path(m);
    assert(m.ancestor(0) == Some(m.cursor));
    assert(m.on_path(m.cursor));
    if m.parent_of(m.cursor) == Some(fresh.cursor) {
        assert(m.ancestor(1) == Some(fresh.cursor)) by {
            reveal_with_fuel(NavView::ancestor, 2);
        }
        assert(m.on_path(fresh.cursor));
    } else {
        assert(fresh.adjacent(session, there) is Some);
        assert(m.nodes.len() == fresh.nodes.len());
        assert(hop == m);
    }
    visit_in_line(s, session, there, tabs, at);
    in_line_is_not_stale(hop, session, tabs);
    adjacent_found(hop, session, here, fresh.cursor);
    visit_stands_on_its_tab(hop, session, here, tabs, later);
    if hop.moves(session, here, tabs) {
        let id = hop.adjacent(session, here)->0;
        adjacent_is_node(hop, session, here);
        cursor_keeps_tree(hop, id);
        prune_keeps_path(hop.with_cursor(id));
    }
}

/// A visit that is genuinely new hangs on the node the user stood on, and no
/// trail is lost for it: below the limit every visit to a tab that is not
/// closed is still there, the one that had been backed out of included.
pub proof fn new_visit_branches_and_loses_nothing(
    s: NavView,
    session: Seq<char>,
    tab_id: usize,
    tabs: Seq<(usize, usize, Seq<char>)>,
    at: u64,
    id: usize,
)
    requires
        s.tree(),
        s.grows(session, tab_id, tabs),
        s.next_id < usize::MAX,
        s.nodes.len() < MAX_NODES,
        s.has(id),
        !s.find(id)->0.closed(session, tabs),
    ensures
        ({
            let fresh = s.refreshed(session, tabs);
            let t = s.visited(session, tab_id, tabs, at);
            &&& t.has(id)
            &&& same_visit(s.find(id)->0.resynced(session, tabs), t.find(id)->0)
            &&& t.cursor == s.next_id
            &&& t.parent_of(t.cursor) == Some(fresh.cursor)
            &&& t.nodes.len() == fresh.nodes.len() + 1
        }),
{
    let fresh = s.refreshed(session, tabs);
    refresh_keeps_tree(s, session, tabs);
    refresh_keeps_live_nodes(s, session, tabs, id);
    refresh_never_grows(s, s.closed_ids(session, tabs));
    pane_nav::next_id_kept(s, s.closed_ids(session, tabs));
    let listed = pane_nav::listing(tabs, tab_id);
    let g = fresh.grown(session, tab_id, listed.0, listed.1, at);
    grown_finds(fresh, session, tab_id, listed.0, listed.1, at, id);
    grown_finds(fresh, session, tab_id, listed.0, listed.1, at, fresh.next_id);
    cursor_finds(g, fresh.next_id, id);
    cursor_finds(g, fresh.next_id, fresh.next_id);
    found_member(fresh, id);
}

/// Stepping back from a new visit returns to where it was made from, and
/// stepping forward again lands on it.
pub proof fn back_from_a_new_visit(
    s: NavView,
    session: Seq<char>,
    tab_id: usize,
    tabs: Seq<(usize, usize, Seq<char>)>,
    at: u64,
)
    requires
        s.tree(),
        s.grows(session, tab_id, tabs),
        s.next_id < usize::MAX,
        s.refreshed(session, tabs).nodes.len() > 0,
    ensures
        ({
            let t = s.visited(session, tab_id, tabs, at);
            let back = t.stepped(false);
            &&& back.cursor == s.refreshed(session, tabs).cursor
            &&& back.stepped(true).cursor == t.cursor
            &&& back.landing(true) matches Some((to_session, to_tab, _))
            &&& to_session == session
            &&& to_tab == tab_id
        }),
{
    let fresh = s.refreshed(session, tabs);
    let t = s.visited(session, tab_id, tabs, at);
    refresh_keeps_tree(s, session, tabs);
    pane_nav::next_id_kept(s, s.closed_ids(session, tabs));
    let listed = pane_nav::listing(tabs, tab_id);
    let g = fresh.grown(session, tab_id, listed.0, listed.1, at);
    let m = g.with_cursor(fresh.next_id);
    grown_finds(fresh, session, tab_id, listed.0, listed.1, at, fresh.cursor);
    grown_finds(fresh, session, tab_id, listed.0, listed.1, at, fresh.next_id);
    cursor_finds(g, fresh.next_id, fresh.cursor);
    cursor_finds(g, fresh.next_id, fresh.next_id);
    move_keeps_tree(s, session, tab_id, tabs, at);
    prune_keeps_path(m);
    prune_remembers(m, fresh.cursor, fresh.next_id);
    assert(m.ancestor(0) == Some(m.cursor));
    assert(m.on_path(m.cursor));
    let back = t.stepped(false);
    assert(t.neighbour(false) == Some(fresh.cursor));
    cursor_finds(t, fresh.cursor, fresh.cursor);
    cursor_finds(t, fresh.cursor, fresh.next_id);
    found_member(t, fresh.cursor);
    assert(t.placed(t.find(fresh.cursor)->0));
    assert(back.neighbour(true) == Some(fresh.next_id));
    cursor_finds(back, fresh.next_id, fresh.next_id);
}

/// Pruning keeps what a node on the path remembers of the path.
proof fn prune_remembers(s: NavView, up: usize, id: usize)
    requires
        s.tree(),
        s.cursor == id,
        s.has(id),
        s.has(up),
        s.parent_of(id) == Some(up),
        s.find(up)->0.last_child == Some(id),
    ensures
        s.pruned().has(up),
        s.pruned().find(up)->0.last_child == Some(id),
    decreases s.nodes.len(),
{
    if s.nodes.len() > MAX_NODES && exists|leaf: usize| s.oldest_spare(leaf) {
        let leaf = choose|leaf: usize| s.oldest_spare(leaf);
        pane_nav::spliced_shrinks(s, leaf);
        splice_keeps_tree(s, leaf);
        assert(s.ancestor(0) == Some(id));
        assert(s.ancestor(1) == Some(up)) by {
            reveal_with_fuel(NavView::ancestor, 2);
        }
        assert(s.on_path(id) && s.on_path(up));
        splice_finds(s, leaf, up);
        splice_finds(s, leaf, id);
        prune_remembers(s.spliced(leaf), up, id);
    }
}

impl NavView {
    /// Every node above the cursor remembers the way down to it.
    pub open spec fn remembers_path(self) -> bool {
        forall|id: usize| #[trigger]
            self.on_path(id) ==> match self.parent_of(id) {
                Some(up) => self.remembered_by(up) == Some(id),
                None => true,
            }
    }
}

/// Before the first visit there is no way to remember.
pub proof fn no_visit_remembers_its_path()
    ensures
        NavView::fresh().remembers_path(),
{
}

/// The path leads to ever older nodes.
proof fn path_is_older(s: NavView, k: nat)
    requires
        s.tree(),
        s.ancestor(k) is Some,
    ensures
        k == 0 ==> s.ancestor(k)->0 == s.cursor,
        k > 0 ==> s.ancestor(k)->0 < s.cursor,
    decreases k,
{
    if k > 0 {
        path_is_older(s, (k - 1) as nat);
        let below = s.ancestor((k - 1) as nat)->0;
        found_member(s, below);
        assert(s.placed(s.find(below)->0));
    }
}

/// What lies above a node of the path is on the path.
pub(crate) proof fn path_goes_up(s: NavView, id: usize)
    requires
        s.on_path(id),
        s.parent_of(id) is Some,
    ensures
        s.on_path(s.parent_of(id)->0),
{
    let k = choose|k: nat| s.ancestor(k) == Some(id);
    assert(s.ancestor((k + 1) as nat) == s.parent_of(id));
}

/// Descending to a child, the path gets longer by it, and is remembered.
proof fn descent_remembers(s: NavView, to: usize)
    requires
        s.tree(),
        s.remembers_path(),
        s.has(s.cursor),
        s.has(to),
        s.parent_of(to) == Some(s.cursor),
    ensures
        s.with_cursor(to).remembers_path(),
{
    let t = s.with_cursor(to);
    assert forall|id: usize| #[trigger] t.on_path(id) implies match t.parent_of(id) {
        Some(up) => t.remembered_by(up) == Some(id),
        None => true,
    } by {
        let k = choose|k: nat| t.ancestor(k) == Some(id);
        cursor_finds(s, to, to);
        cursor_finds(s, to, id);
        cursor_finds(s, to, s.cursor);
        if k > 0 {
            descent_path(s, to, (k - 1) as nat);
            assert(s.on_path(id));
            path_is_older(s, (k - 1) as nat);
            if s.parent_of(id) is Some {
                found_member(s, id);
                assert(s.placed(s.find(id)->0));
                cursor_finds(s, to, s.parent_of(id)->0);
            }
        }
    }
}

proof fn descent_path(s: NavView, to: usize, k: nat)
    requires
        s.has(to),
        s.parent_of(to) == Some(s.cursor),
    ensures
        s.with_cursor(to).ancestor((k + 1) as nat) == s.ancestor(k),
    decreases k,
{
    let t = s.with_cursor(to);
    if k == 0 {
        cursor_finds(s, to, to);
        assert(t.ancestor(0) == Some(to));
        assert(t.ancestor(1) == t.parent_of(to)) by {
            reveal_with_fuel(NavView::ancestor, 2);
        }
    } else {
        descent_path(s, to, (k - 1) as nat);
        if s.ancestor((k - 1) as nat) is Some {
            cursor_finds(s, to, s.ancestor((k - 1) as nat)->0);
        }
    }
}

/// Going back to the parent, the path gets shorter, and nothing is forgotten.
proof fn ascent_remembers(s: NavView)
    requires
        s.tree(),
        s.remembers_path(),
        s.has(s.cursor),
        s.parent_of(s.cursor) is Some,
    ensures
        s.with_cursor(s.parent_of(s.cursor)->0).remembers_path(),
        s.with_cursor(s.parent_of(s.cursor)->0).nodes == s.nodes,
{
    let up = s.parent_of(s.cursor)->0;
    let t = s.with_cursor(up);
    found_member(s, s.cursor);
    assert(s.placed(s.find(s.cursor)->0));
    found_member(s, up);
    assert(s.placed(s.find(up)->0));
    assert(t.nodes == s.nodes);
    assert forall|id: usize| #[trigger] t.on_path(id) implies match t.parent_of(id) {
        Some(p) => t.remembered_by(p) == Some(id),
        None => true,
    } by {
        let k = choose|k: nat| t.ancestor(k) == Some(id);
        ascent_path(s, k);
        assert(s.on_path(id));
        same_nodes_find(s, t, id);
        if t.parent_of(id) is Some {
            same_nodes_find(s, t, t.parent_of(id)->0);
        }
    }
}

proof fn same_nodes_find(s: NavView, t: NavView, id: usize)
    requires
        s.nodes == t.nodes,
    ensures
        s.find(id) == t.find(id),
{
}

proof fn ascent_path(s: NavView, k: nat)
    requires
        s.tree(),
        s.has(s.cursor),
        s.parent_of(s.cursor) is Some,
        s.with_cursor(s.parent_of(s.cursor)->0).nodes == s.nodes,
    ensures
        s.with_cursor(s.parent_of(s.cursor)->0).ancestor(k) == s.ancestor((k + 1) as nat),
    decreases k,
{
    let t = s.with_cursor(s.parent_of(s.cursor)->0);
    if k == 0 {
        assert(s.ancestor(1) == s.parent_of(s.cursor)) by {
            reveal_with_fuel(NavView::ancestor, 2);
        }
    } else {
        ascent_path(s, (k - 1) as nat);
        if t.ancestor((k - 1) as nat) is Some {
            same_nodes_find(s, t, t.ancestor((k - 1) as nat)->0);
        }
    }
}

/// A step along a tree keeps the way down to the cursor in memory.
pub proof fn a_step_remembers_the_path(s: NavView, forward: bool)
    requires
        s.tree(),
        s.remembers_path(),
    ensures
        s.stepped(forward).remembers_path(),
{
    if s.neighbour(forward) is Some {
        neighbour_is_node(s, forward);
        if forward {
            descent_remembers(s, s.neighbour(forward)->0);
        } else {
            ascent_remembers(s);
        }
    }
}

/// Stepping back and forward again returns to where one was, rather than to
/// whatever branch happens to be newest.
pub proof fn back_and_forward_returns(s: NavView)
    requires
        s.tree(),
        s.remembers_path(),
        s.landing(false) is Some,
    ensures
        ({
            let back = s.stepped(false);
            let here = s.find(s.cursor)->0;
            &&& back.stepped(true).cursor == s.cursor
            &&& back.landing(true) == Some((here.session, here.tab_id, here.tab_position))
        }),
{
    step_keeps_tree(s, false);
    neighbour_is_node(s, false);
    let up = s.parent_of(s.cursor)->0;
    let back = s.stepped(false);
    ascent_remembers(s);
    assert(s.ancestor(0) == Some(s.cursor));
    assert(s.on_path(s.cursor));
    same_nodes_find(s, back, up);
    same_nodes_find(s, back, s.cursor);
    assert(back.neighbour(true) == Some(s.cursor));
    cursor_finds(back, s.cursor, s.cursor);
}

/// The path after a node has been retired is the path before, without it.
proof fn retired_path(s: NavView, id: usize, k: nat)
    requires
        s.tree(),
        s.has(id),
        s.cursor == id ==> s.parent_of(id) is Some,
        s.retired(id).ancestor(k) is Some,
    ensures
        s.on_path(s.retired(id).ancestor(k)->0),
        s.retired(id).ancestor(k)->0 != id,
    decreases k,
{
    let t = s.retired(id);
    handed_finds(s, id, id);
    found_member(s, id);
    assert(s.placed(s.find(id)->0));
    assert(s.ancestor(0) == Some(s.cursor));
    assert(s.on_path(s.cursor));
    if k == 0 {
        if s.cursor == id {
            path_goes_up(s, id);
        }
    } else {
        retired_path(s, id, (k - 1) as nat);
        let below = t.ancestor((k - 1) as nat)->0;
        retire_finds(s, id, below);
        path_goes_up(s, below);
        if s.parent_of(below) == Some(id) {
            path_goes_up(s, id);
        }
    }
}

/// A node of the path other than the one retired stays on it.
proof fn retired_path_keeps(s: NavView, id: usize, k: nat)
    requires
        s.tree(),
        s.has(id),
        s.ancestor(k) is Some,
        s.ancestor(k)->0 != id,
    ensures
        s.retired(id).on_path(s.ancestor(k)->0),
    decreases k,
{
    let t = s.retired(id);
    let here = s.ancestor(k)->0;
    handed_finds(s, id, id);
    assert(t.ancestor(0) == Some(t.cursor));
    if k > 0 {
        let below = s.ancestor((k - 1) as nat)->0;
        found_member(s, below);
        assert(s.placed(s.find(below)->0));
        if below != id {
            retired_path_keeps(s, id, (k - 1) as nat);
            retire_finds(s, id, below);
            path_goes_up(t, below);
        } else if k > 1 {
            let lower = s.ancestor((k - 2) as nat)->0;
            assert(s.parent_of(lower) == Some(id));
            found_member(s, lower);
            assert(s.placed(s.find(lower)->0));
            retired_path_keeps(s, id, (k - 2) as nat);
            retire_finds(s, id, lower);
            path_goes_up(t, lower);
        } else {
            assert(t.cursor == here);
        }
    }
}

/// Retiring a node keeps the way down to the cursor in memory: where it was part
/// of the way, what it remembered is handed on.
proof fn retirement_remembers(s: NavView, id: usize)
    requires
        s.tree(),
        s.remembers_path(),
        s.has(id) && s.cursor == id ==> s.parent_of(id) is Some,
    ensures
        s.retired(id).remembers_path(),
{
    if !s.has(id) {
        retire_nothing(s, id);
    } else {
        let t = s.retired(id);
        found_member(s, id);
        assert(s.placed(s.find(id)->0));
        assert forall|x: usize| #[trigger] t.on_path(x) implies match t.parent_of(x) {
            Some(up) => t.remembered_by(up) == Some(x),
            None => true,
        } by {
            let k = choose|k: nat| t.ancestor(k) == Some(x);
            retired_path(s, id, k);
            assert(s.on_path(x));
            retire_finds(s, id, x);
            if t.parent_of(x) is Some {
                if s.parent_of(x) == Some(id) {
                    path_goes_up(s, x);
                    assert(s.on_path(id));
                    assert(s.remembered_by(id) == Some(x));
                    retire_finds(s, id, s.parent_of(id)->0);
                } else {
                    retire_finds(s, id, s.parent_of(x)->0);
                }
            }
        }
    }
}

proof fn retirements_remember(s: NavView, ids: Seq<usize>, kept: usize)
    requires
        s.tree(),
        s.remembers_path(),
        s.on_path(kept),
        s.has(kept),
        !ids.contains(kept),
    ensures
        s.retired_all(ids).remembers_path(),
        s.retired_all(ids).on_path(kept),
    decreases ids.len(),
{
    if ids.len() > 0 {
        let rest = ids.drop_last();
        let id = ids.last();
        assert(!rest.contains(kept)) by {
            if rest.contains(kept) {
                let k = choose|k: int| 0 <= k < rest.len() && rest[k] == kept;
                assert(ids[k] == kept);
            }
        }
        assert(ids[ids.len() - 1] == id);
        retirements_remember(s, rest, kept);
        retire_all_keeps_tree(s, rest);
        let t = s.retired_all(rest);
        let k = choose|k: nat| t.ancestor(k) == Some(kept);
        if t.has(id) {
            if t.cursor == id {
                assert(k > 0);
                above_cursor(t, k);
            }
            retired_path_keeps(t, id, k);
        } else {
            retire_nothing(t, id);
        }
        retirement_remembers(t, id);
    }
}

/// Where the path goes on above the cursor, the cursor has a parent.
proof fn above_cursor(s: NavView, k: nat)
    requires
        k > 0,
        s.ancestor(k) is Some,
    ensures
        s.parent_of(s.cursor) is Some,
    decreases k,
{
    if k == 1 {
        reveal_with_fuel(NavView::ancestor, 2);
    } else {
        above_cursor(s, (k - 1) as nat);
    }
}

/// Where a tab on the path is open, closing others keeps the way down to the
/// cursor in memory.
pub proof fn a_refresh_remembers_the_path(
    s: NavView,
    session: Seq<char>,
    tabs: Seq<(usize, usize, Seq<char>)>,
    kept: usize,
)
    requires
        s.tree(),
        s.remembers_path(),
        s.on_path(kept),
        s.has(kept),
        !s.find(kept)->0.closed(session, tabs),
    ensures
        s.refreshed(session, tabs).remembers_path(),
{
    let ids = s.closed_ids(session, tabs);
    open_is_not_listed(s, session, tabs, kept);
    retirements_remember(s, ids, kept);
    resync_remembers(s.retired_all(ids), session, tabs);
}

pub(crate) proof fn open_is_not_listed(
    s: NavView,
    session: Seq<char>,
    tabs: Seq<(usize, usize, Seq<char>)>,
    id: usize,
)
    requires
        s.distinct(),
        s.has(id),
        !s.find(id)->0.closed(session, tabs),
    ensures
        !s.closed_ids(session, tabs).contains(id),
{
    let ids = s.closed_ids(session, tabs);
    let p = |n: NodeView| n.closed(session, tabs);
    seqs::filter_members(s.nodes, p);
    if ids.contains(id) {
        let k = choose|k: int| 0 <= k < ids.len() && ids[k] == id;
        let n = s.nodes.filter(p)[k];
        assert(s.nodes.filter(p).contains(n));
        member_found(s, n);
    }
}

proof fn resync_path(
    s: NavView,
    session: Seq<char>,
    tabs: Seq<(usize, usize, Seq<char>)>,
    k: nat,
)
    ensures
        resynced(s, session, tabs).ancestor(k) == s.ancestor(k),
    decreases k,
{
    if k > 0 {
        resync_path(s, session, tabs, (k - 1) as nat);
        if s.ancestor((k - 1) as nat) is Some {
            resync_finds(s, session, tabs, s.ancestor((k - 1) as nat)->0);
        }
    }
}

proof fn resync_remembers(s: NavView, session: Seq<char>, tabs: Seq<(usize, usize, Seq<char>)>)
    requires
        s.remembers_path(),
    ensures
        resynced(s, session, tabs).remembers_path(),
{
    let t = resynced(s, session, tabs);
    assert forall|id: usize| #[trigger] t.on_path(id) implies match t.parent_of(id) {
        Some(up) => t.remembered_by(up) == Some(id),
        None => true,
    } by {
        let k = choose|k: nat| t.ancestor(k) == Some(id);
        resync_path(s, session, tabs, k);
        assert(s.on_path(id));
        resync_finds(s, session, tabs, id);
        if s.parent_of(id) is Some {
            resync_finds(s, session, tabs, s.parent_of(id)->0);
        }
    }
}

/// Stepping back and forward again returns to where one was, whichever other tabs
/// were closed in between, those on the way included.
pub proof fn back_and_forward_returns_across_a_closing(
    s: NavView,
    session: Seq<char>,
    tabs: Seq<(usize, usize, Seq<char>)>,
)
    requires
        s.tree(),
        s.remembers_path(),
        s.has(s.cursor),
        !s.find(s.cursor)->0.closed(session, tabs),
        s.refreshed(session, tabs).landing(false) is Some,
    ensures
        ({
            let back = s.refreshed(session, tabs).stepped(false);
            let here = s.find(s.cursor)->0;
            &&& back.stepped(true).cursor == s.cursor
            &&& back.landing(true) matches Some((to_session, to_tab, _))
            &&& to_session == here.session
            &&& to_tab == here.tab_id
        }),
{
    assert(s.ancestor(0) == Some(s.cursor));
    assert(s.on_path(s.cursor));
    refresh_keeps_tree(s, session, tabs);
    refresh_keeps_live_nodes(s, session, tabs, s.cursor);
    a_refresh_remembers_the_path(s, session, tabs, s.cursor);
    back_and_forward_returns(s.refreshed(session, tabs));
}

/// Pruning keeps the way down to the cursor in memory.
pub proof fn pruning_remembers_the_path(s: NavView)
    requires
        s.tree(),
        s.remembers_path(),
    ensures
        s.pruned().remembers_path(),
    decreases s.nodes.len(),
{
    if s.nodes.len() > MAX_NODES && exists|id: usize| s.oldest_spare(id) {
        let leaf = choose|id: usize| s.oldest_spare(id);
        let t = s.spliced(leaf);
        pane_nav::spliced_shrinks(s, leaf);
        splice_keeps_tree(s, leaf);
        assert forall|id: usize| #[trigger] t.on_path(id) implies match t.parent_of(id) {
            Some(up) => t.remembered_by(up) == Some(id),
            None => true,
        } by {
            let k = choose|k: nat| t.ancestor(k) == Some(id);
            spare_off_path(s, leaf, k);
            assert(s.on_path(id));
            spare_finds(s, leaf, id);
            if s.parent_of(id) is Some {
                path_goes_up(s, id);
                splice_finds(s, leaf, s.parent_of(id)->0);
            }
        }
        pruning_remembers_the_path(t);
    }
}

/// Recording a visit keeps the way down to the cursor in memory, as long as a tab
/// on it is open or there was no visit yet.
pub proof fn a_visit_remembers_the_path(
    s: NavView,
    session: Seq<char>,
    tab_id: usize,
    tabs: Seq<(usize, usize, Seq<char>)>,
    at: u64,
    kept: usize,
)
    requires
        s.tree(),
        s.remembers_path(),
        s.nodes.len() == 0 || (s.on_path(kept) && s.has(kept) && !s.find(kept)->0.closed(
            session,
            tabs,
        )),
        s.grows(session, tab_id, tabs) ==> s.next_id < usize::MAX,
    ensures
        s.visited(session, tab_id, tabs, at).remembers_path(),
{
    let fresh = s.refreshed(session, tabs);
    refresh_keeps_tree(s, session, tabs);
    if s.nodes.len() == 0 {
        in_line_is_not_stale(s, session, tabs);
    } else {
        a_refresh_remembers_the_path(s, session, tabs, kept);
    }
    if s.moves(session, tab_id, tabs) {
        let m = fresh.moved(session, tab_id, tabs, at);
        move_keeps_tree(s, session, tab_id, tabs, at);
        match fresh.adjacent(session, tab_id) {
            Some(id) => {
                adjacent_is_node(fresh, session, tab_id);
                if fresh.nodes.len() == 0 {
                    assert(fresh.has(id));
                    found_member(fresh, id);
                }
                if fresh.parent_of(id) == Some(fresh.cursor) {
                    descent_remembers(fresh, id);
                } else {
                    ascent_remembers(fresh);
                }
            },
            None => {
                let listed = pane_nav::listing(tabs, tab_id);
                growth_remembers(fresh, session, tab_id, listed.0, listed.1, at);
            },
        }
        pruning_remembers_the_path(m);
    }
}

proof fn growth_remembers(
    s: NavView,
    session: Seq<char>,
    tab_id: usize,
    position: usize,
    name: Seq<char>,
    at: u64,
)
    requires
        s.tree(),
        s.remembers_path(),
        s.next_id < usize::MAX,
    ensures
        s.grown(session, tab_id, position, name, at).with_cursor(s.next_id).remembers_path(),
{
    let g = s.grown(session, tab_id, position, name, at);
    let t = g.with_cursor(s.next_id);
    grown_finds(s, session, tab_id, position, name, at, s.cursor);
    grown_finds(s, session, tab_id, position, name, at, s.next_id);
    cursor_finds(g, s.next_id, s.next_id);
    assert forall|id: usize| #[trigger] t.on_path(id) implies match t.parent_of(id) {
        Some(up) => t.remembered_by(up) == Some(id),
        None => true,
    } by {
        let k = choose|k: nat| t.ancestor(k) == Some(id);
        if s.has(s.cursor) {
            cursor_finds(g, s.next_id, s.cursor);
            if k > 0 {
                descent_path(g, s.next_id, (k - 1) as nat);
                grown_path(s, session, tab_id, position, name, at, (k - 1) as nat);
                assert(s.on_path(id));
                path_is_older(s, (k - 1) as nat);
                grown_finds(s, session, tab_id, position, name, at, id);
                found_member(s, s.cursor);
                cursor_finds(g, s.next_id, id);
                if t.parent_of(id) is Some {
                    found_member(s, id);
                    assert(s.placed(s.find(id)->0));
                    let up = s.parent_of(id)->0;
                    grown_finds(s, session, tab_id, position, name, at, up);
                    cursor_finds(g, s.next_id, up);
                }
            }
        } else if k > 0 {
            assert(t.parent_of(s.next_id) is None);
            above_cursor(t, k);
        }
    }
}

proof fn grown_path(
    s: NavView,
    session: Seq<char>,
    tab_id: usize,
    position: usize,
    name: Seq<char>,
    at: u64,
    k: nat,
)
    requires
        s.tree(),
        s.has(s.cursor),
        s.next_id < usize::MAX,
    ensures
        s.grown(session, tab_id, position, name, at).ancestor(k) == s.ancestor(k),
        s.ancestor(k) is Some ==> s.has(s.ancestor(k)->0),
    decreases k,
{
    if k > 0 {
        grown_path(s, session, tab_id, position, name, at, (k - 1) as nat);
        if s.ancestor((k - 1) as nat) is Some {
            let below = s.ancestor((k - 1) as nat)->0;
            grown_finds(s, session, tab_id, position, name, at, below);
            found_member(s, below);
            assert(s.placed(s.find(below)->0));
        }
    }
}

} // verus!
