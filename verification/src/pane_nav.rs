//! Cross-session tab jump *tree*: an undo tree, applied to navigation.
//!
//! Nodes are tabs, not panes: moving focus between the panes of one tab is
//! navigation within a context, not a jump between contexts. Going back and
//! then somewhere new does not lose the trail that was backed out of; it stays
//! as a sibling branch. A node is a *visit*, so one tab can sit at several
//! nodes.
use crate::seqs;
use crate::text::str_eq;
use vstd::prelude::*;

pub mod laws;
pub mod promises;

verus! {

/// One live tab of the recording session: (stable id, display position, name).
pub type TabSnapshot = (usize, usize, String);

/// Backstop only: dead tabs are pruned continuously, so the tree stays far
/// below this in practice.
pub const MAX_NODES: usize = 64;

/// A visit to a tab.
pub struct Node {
    /// Stable across pruning, unlike an index.
    pub id: usize,
    pub session: String,
    pub tab_id: usize,
    /// Refreshed from the live tabs on every record.
    pub tab_position: usize,
    pub tab_name: String,
    pub parent: Option<usize>,
    /// The child last descended into.
    pub last_child: Option<usize>,
    pub at: u64,
}

/// What a [`Node`] holds, as a mathematical value.
#[verifier::ext_equal]
pub ghost struct NodeView {
    pub id: usize,
    pub session: Seq<char>,
    pub tab_id: usize,
    pub tab_position: usize,
    pub tab_name: Seq<char>,
    pub parent: Option<usize>,
    pub last_child: Option<usize>,
    pub at: u64,
}

impl View for Node {
    type V = NodeView;

    open spec fn view(&self) -> NodeView {
        NodeView {
            id: self.id,
            session: self.session@,
            tab_id: self.tab_id,
            tab_position: self.tab_position,
            tab_name: self.tab_name@,
            parent: self.parent,
            last_child: self.last_child,
            at: self.at,
        }
    }
}

impl NodeView {
    /// A visit to this tab of this session.
    pub open spec fn is(self, session: Seq<char>, tab_id: usize) -> bool {
        self.session == session && self.tab_id == tab_id
    }

    /// The node after `id`, whose parent is `parent`, has been taken out.
    pub open spec fn without(self, id: usize, parent: Option<usize>) -> NodeView {
        NodeView {
            parent: if self.parent == Some(id) {
                parent
            } else {
                self.parent
            },
            last_child: if self.last_child == Some(id) {
                None
            } else {
                self.last_child
            },
            ..self
        }
    }

    /// The node after `id` has handed on its place in memory: who remembered it
    /// remembers `heir` instead, where there is one.
    pub open spec fn handing_on(self, id: usize, heir: Option<usize>) -> NodeView {
        NodeView {
            last_child: if self.last_child == Some(id) && heir is Some {
                heir
            } else {
                self.last_child
            },
            ..self
        }
    }
}

impl Node {
    pub fn is(&self, session: &str, tab_id: usize) -> (r: bool)
        ensures
            r == self@.is(session@, tab_id),
    {
        str_eq(self.session.as_str(), session) && self.tab_id == tab_id
    }
}

/// The tree and where in it the user stands.
pub struct NavState {
    pub nodes: Vec<Node>,
    pub cursor: usize,
    pub next_id: usize,
}

/// What a [`NavState`] holds, as a mathematical value.
#[verifier::ext_equal]
pub ghost struct NavView {
    pub nodes: Seq<NodeView>,
    pub cursor: usize,
    pub next_id: usize,
}

impl View for NavState {
    type V = NavView;

    open spec fn view(&self) -> NavView {
        NavView {
            nodes: self.nodes@.map_values(|n: Node| n@),
            cursor: self.cursor,
            next_id: self.next_id,
        }
    }
}

/// `i` is where `id` is found first.
pub open spec fn first_at(nodes: Seq<NodeView>, id: usize, i: int) -> bool {
    &&& 0 <= i < nodes.len()
    &&& nodes[i].id == id
    &&& forall|j: int| 0 <= j < i ==> (#[trigger] nodes[j]).id != id
}

impl NavView {
    /// Where the node with this id stands, if there is one.
    pub open spec fn index_of(self, id: usize) -> int {
        choose|i: int| first_at(self.nodes, id, i)
    }

    pub open spec fn has(self, id: usize) -> bool {
        exists|i: int| first_at(self.nodes, id, i)
    }

    /// The node with this id.
    pub open spec fn find(self, id: usize) -> Option<NodeView> {
        if self.has(id) {
            Some(self.nodes[self.index_of(id)])
        } else {
            None
        }
    }

    /// The nodes whose parent is `id`, oldest first.
    pub open spec fn children(self, id: usize) -> Seq<NodeView> {
        self.nodes.filter(|n: NodeView| n.parent == Some(id))
    }

    /// The cursor on `id`. Where that is a step from a node down to one of its
    /// children, the node remembers it.
    pub open spec fn with_cursor(self, id: usize) -> NavView {
        let descends = self.has(self.cursor) && self.has(id) && self.find(id)->0.parent == Some(
            self.cursor,
        );
        NavView {
            nodes: if descends {
                let i = self.index_of(self.cursor);
                self.nodes.update(i, NodeView { last_child: Some(id), ..self.nodes[i] })
            } else {
                self.nodes
            },
            cursor: id,
            next_id: self.next_id,
        }
    }

    /// The tree without `id`: its children hang on its parent, nothing
    /// remembers it, and a cursor on it moves to its parent, or else to the
    /// newest node.
    pub open spec fn spliced(self, id: usize) -> NavView {
        if self.has(id) {
            let parent = self.find(id)->0.parent;
            let nodes = self.nodes.map_values(|n: NodeView| n.without(id, parent)).filter(
                |n: NodeView| n.id != id,
            );
            NavView {
                nodes,
                cursor: if self.cursor != id {
                    self.cursor
                } else if parent is Some {
                    parent->0
                } else if nodes.len() > 0 {
                    nodes.last().id
                } else {
                    0
                },
                next_id: self.next_id,
            }
        } else {
            self
        }
    }
}

/// The live tabs, as mathematical values.
pub open spec fn tabs_view(tabs: Seq<TabSnapshot>) -> Seq<(usize, usize, Seq<char>)> {
    tabs.map_values(|t: TabSnapshot| (t.0, t.1, t.2@))
}

/// `i` is where the tab with this id is listed first.
pub open spec fn listed_at(tabs: Seq<(usize, usize, Seq<char>)>, tab_id: usize, i: int) -> bool {
    &&& 0 <= i < tabs.len()
    &&& tabs[i].0 == tab_id
    &&& forall|j: int| 0 <= j < i ==> (#[trigger] tabs[j]).0 != tab_id
}

/// The tab is among the live ones.
pub open spec fn live(tabs: Seq<(usize, usize, Seq<char>)>, tab_id: usize) -> bool {
    exists|i: int| listed_at(tabs, tab_id, i)
}

/// Position and name of a live tab.
pub open spec fn listing(tabs: Seq<(usize, usize, Seq<char>)>, tab_id: usize) -> (
    usize,
    Seq<char>,
) {
    let i = choose|i: int| listed_at(tabs, tab_id, i);
    (tabs[i].1, tabs[i].2)
}

impl NodeView {
    /// The tab of this node of `session` is closed.
    pub open spec fn closed(
        self,
        session: Seq<char>,
        tabs: Seq<(usize, usize, Seq<char>)>,
    ) -> bool {
        self.session == session && !live(tabs, self.tab_id)
    }

    /// Position and name as the live tabs have them.
    pub open spec fn resynced(
        self,
        session: Seq<char>,
        tabs: Seq<(usize, usize, Seq<char>)>,
    ) -> NodeView {
        if self.session == session && live(tabs, self.tab_id) {
            NodeView {
                tab_position: listing(tabs, self.tab_id).0,
                tab_name: listing(tabs, self.tab_id).1,
                ..self
            }
        } else {
            self
        }
    }
}

impl NavView {
    /// The nodes of `session` whose tab is closed.
    pub open spec fn closed_ids(
        self,
        session: Seq<char>,
        tabs: Seq<(usize, usize, Seq<char>)>,
    ) -> Seq<usize> {
        self.nodes.filter(|n: NodeView| n.closed(session, tabs)).map_values(|n: NodeView| n.id)
    }

    /// The child that a node last descended into.
    pub open spec fn remembered_by(self, id: usize) -> Option<usize> {
        match self.find(id) {
            Some(n) => n.last_child,
            None => None,
        }
    }

    /// The tree in which who remembered `id` remembers what `id` remembers.
    pub open spec fn handed_on(self, id: usize) -> NavView {
        let heir = self.remembered_by(id);
        NavView { nodes: self.nodes.map_values(|n: NodeView| n.handing_on(id, heir)), ..self }
    }

    /// The tree after the tab of `id` was closed: the node is taken out, and the
    /// branch that was taken below it is still the branch last taken.
    pub open spec fn retired(self, id: usize) -> NavView {
        self.handed_on(id).spliced(id)
    }

    /// The tree after each of `ids` has been retired in turn.
    pub open spec fn retired_all(self, ids: Seq<usize>) -> NavView
        decreases ids.len(),
    {
        if ids.len() == 0 {
            self
        } else {
            self.retired_all(ids.drop_last()).retired(ids.last())
        }
    }

    /// The tree brought in line with the live tabs of `session`.
    pub open spec fn refreshed(
        self,
        session: Seq<char>,
        tabs: Seq<(usize, usize, Seq<char>)>,
    ) -> NavView {
        let open = self.retired_all(self.closed_ids(session, tabs));
        NavView { nodes: open.nodes.map_values(|n: NodeView| n.resynced(session, tabs)), ..open }
    }

    /// Whether bringing the tree in line finds anything to do.
    pub open spec fn stale(
        self,
        session: Seq<char>,
        tabs: Seq<(usize, usize, Seq<char>)>,
    ) -> bool {
        let closed = self.closed_ids(session, tabs);
        let open = self.retired_all(closed).nodes;
        ||| closed.len() > 0
        ||| exists|i: int|
            0 <= i < open.len() && #[trigger] open[i].resynced(session, tabs) != open[i]
    }

    /// The node `k` steps above the cursor.
    pub open spec fn ancestor(self, k: nat) -> Option<usize>
        decreases k,
    {
        if k == 0 {
            Some(self.cursor)
        } else {
            match self.ancestor((k - 1) as nat) {
                Some(id) => self.parent_of(id),
                None => None,
            }
        }
    }

    pub open spec fn parent_of(self, id: usize) -> Option<usize> {
        match self.find(id) {
            Some(n) => n.parent,
            None => None,
        }
    }

    /// The cursor, or a node above it.
    pub open spec fn on_path(self, id: usize) -> bool {
        exists|k: nat| self.ancestor(k) == Some(id)
    }

    /// A leaf that is not on the path the user stands on.
    pub open spec fn spare(self, id: usize) -> bool {
        &&& exists|i: int| 0 <= i < self.nodes.len() && (#[trigger] self.nodes[i]).id == id
        &&& !self.on_path(id)
        &&& forall|i: int|
            0 <= i < self.nodes.len() ==> (#[trigger] self.nodes[i]).parent != Some(id)
    }

    /// The spare leaf with the smallest id: ids are given out in order, so it
    /// is the oldest.
    pub open spec fn oldest_spare(self, id: usize) -> bool {
        self.spare(id) && forall|other: usize| #[trigger] self.spare(other) ==> id <= other
    }

    /// The tree cut down to [`MAX_NODES`], one oldest spare leaf at a time, as
    /// far as there are any.
    pub open spec fn pruned(self) -> NavView
        decreases self.nodes.len(),
    {
        if self.nodes.len() <= MAX_NODES {
            self
        } else if exists|id: usize| self.oldest_spare(id) {
            let id = choose|id: usize| self.oldest_spare(id);
            proof {
                spliced_shrinks(self, id);
            }
            self.spliced(id).pruned()
        } else {
            self
        }
    }

    /// The child of the cursor, or else its parent, that is a visit to this tab.
    pub open spec fn adjacent(self, session: Seq<char>, tab_id: usize) -> Option<usize> {
        let below = self.children(self.cursor).filter(|n: NodeView| n.is(session, tab_id));
        if below.len() > 0 {
            Some(below[0].id)
        } else {
            match self.parent_of(self.cursor) {
                Some(p) => match self.find(p) {
                    Some(n) => if n.is(session, tab_id) {
                        Some(n.id)
                    } else {
                        None
                    },
                    None => None,
                },
                None => None,
            }
        }
    }

    /// The tree with a new visit below the cursor.
    pub open spec fn grown(
        self,
        session: Seq<char>,
        tab_id: usize,
        tab_position: usize,
        tab_name: Seq<char>,
        at: u64,
    ) -> NavView {
        NavView {
            nodes: self.nodes.push(
                NodeView {
                    id: self.next_id,
                    session,
                    tab_id,
                    tab_position,
                    tab_name,
                    parent: if self.has(self.cursor) {
                        Some(self.cursor)
                    } else {
                        None
                    },
                    last_child: None,
                    at,
                },
            ),
            cursor: self.cursor,
            next_id: (self.next_id + 1) as usize,
        }
    }

    /// The cursor stands on a visit to this tab.
    pub open spec fn stands_on(self, session: Seq<char>, tab_id: usize) -> bool {
        match self.find(self.cursor) {
            Some(n) => n.is(session, tab_id),
            None => false,
        }
    }

    /// The move to a live tab the cursor does not stand on: to a neighbour if
    /// it is one, else to a new visit below the cursor.
    pub open spec fn moved(
        self,
        session: Seq<char>,
        tab_id: usize,
        tabs: Seq<(usize, usize, Seq<char>)>,
        at: u64,
    ) -> NavView {
        match self.adjacent(session, tab_id) {
            Some(id) => self.with_cursor(id),
            None => self.grown(
                session,
                tab_id,
                listing(tabs, tab_id).0,
                listing(tabs, tab_id).1,
                at,
            ).with_cursor(self.next_id),
        }
    }

    /// Whether a visit to this tab is a move at all.
    pub open spec fn moves(
        self,
        session: Seq<char>,
        tab_id: usize,
        tabs: Seq<(usize, usize, Seq<char>)>,
    ) -> bool {
        !self.refreshed(session, tabs).stands_on(session, tab_id) && live(tabs, tab_id)
    }

    /// Whether recording a visit to this tab adds a node.
    pub open spec fn grows(
        self,
        session: Seq<char>,
        tab_id: usize,
        tabs: Seq<(usize, usize, Seq<char>)>,
    ) -> bool {
        &&& self.moves(session, tab_id, tabs)
        &&& self.refreshed(session, tabs).adjacent(session, tab_id) is None
    }

    /// The tree after a visit to this tab has been recorded.
    pub open spec fn visited(
        self,
        session: Seq<char>,
        tab_id: usize,
        tabs: Seq<(usize, usize, Seq<char>)>,
        at: u64,
    ) -> NavView {
        let fresh = self.refreshed(session, tabs);
        if self.moves(session, tab_id, tabs) {
            fresh.moved(session, tab_id, tabs, at).pruned()
        } else {
            fresh
        }
    }

    /// The child of the cursor with the largest id.
    pub open spec fn newest_child(self, id: usize) -> bool {
        &&& exists|i: int|
            0 <= i < self.nodes.len() && (#[trigger] self.nodes[i]).id == id
                && self.nodes[i].parent == Some(self.cursor)
        &&& forall|i: int|
            0 <= i < self.nodes.len() && (#[trigger] self.nodes[i]).parent == Some(self.cursor)
                ==> self.nodes[i].id <= id
    }

    /// Where one step along the tree leads.
    pub open spec fn neighbour(self, forward: bool) -> Option<usize> {
        match self.find(self.cursor) {
            None => None,
            Some(current) => if !forward {
                current.parent
            } else if current.last_child is Some && self.has(current.last_child->0) {
                current.last_child
            } else if exists|id: usize| self.newest_child(id) {
                Some(choose|id: usize| self.newest_child(id))
            } else {
                None
            },
        }
    }

    /// The tree after one step.
    pub open spec fn stepped(self, forward: bool) -> NavView {
        match self.neighbour(forward) {
            Some(id) => self.with_cursor(id),
            None => self,
        }
    }

    /// What one step lands on: session, tab id and tab position.
    pub open spec fn landing(self, forward: bool) -> Option<(Seq<char>, usize, usize)> {
        match self.neighbour(forward) {
            Some(id) => match self.stepped(forward).find(id) {
                Some(n) => Some((n.session, n.tab_id, n.tab_position)),
                None => None,
            },
            None => None,
        }
    }
}

pub proof fn find_is(s: NavView, id: usize, i: int)
    requires
        first_at(s.nodes, id, i),
    ensures
        s.has(id),
        s.index_of(id) == i,
        s.find(id) == Some(s.nodes[i]),
{
    let k = s.index_of(id);
    assert(first_at(s.nodes, id, k));
    if k < i {
        assert(s.nodes[k].id != id);
    } else if i < k {
        assert(s.nodes[i].id != id);
    }
}

impl NavState {
    /// Where the node with this id stands.
    fn position(&self, id: usize) -> (r: Option<usize>)
        ensures
            match r {
                Some(i) => first_at(self@.nodes, id, i as int),
                None => !self@.has(id),
            },
    {
        let mut i: usize = 0;
        while i < self.nodes.len()
            invariant
                i <= self.nodes.len(),
                forall|j: int| 0 <= j < i ==> (#[trigger] self@.nodes[j]).id != id,
            decreases self.nodes.len() - i,
        {
            assert(self@.nodes[i as int] == self.nodes@[i as int]@);
            if self.nodes[i].id == id {
                return Some(i);
            }
            i += 1;
        }
        assert(self@.nodes.len() == self.nodes@.len());
        None
    }

    /// The node with this id.
    pub fn node(&self, id: usize) -> (r: Option<&Node>)
        ensures
            match r {
                Some(n) => self@.find(id) == Some(n@),
                None => self@.find(id) is None,
            },
    {
        match self.position(id) {
            Some(i) => {
                proof {
                    find_is(self@, id, i as int);
                }
                Some(&self.nodes[i])
            },
            None => None,
        }
    }

    /// The node with this id, to be changed in place.
    pub fn node_mut(&mut self, id: usize) -> (r: Option<&mut Node>)
        ensures
            match r {
                Some(n) => {
                    &&& old(self)@.find(id) == Some(n@)
                    &&& final(self)@ == (NavView {
                        nodes: old(self)@.nodes.update(old(self)@.index_of(id), final(n)@),
                        ..old(self)@
                    })
                },
                None => {
                    &&& old(self)@.find(id) is None
                    &&& *final(self) == *old(self)
                },
            },
    {
        match self.position(id) {
            Some(i) => {
                proof {
                    find_is(self@, id, i as int);
                }
                let ghost before = self.nodes@;
                let n = &mut self.nodes[i];
                assert(before.update(i as int, *final(n)).map_values(|m: Node| m@)
                    == before.map_values(|m: Node| m@).update(i as int, (*final(n))@));
                Some(n)
            },
            None => None,
        }
    }

    /// The nodes whose parent is `id`, oldest first.
    pub fn children_of(&self, id: usize) -> (r: Vec<&Node>)
        ensures
            r@.map_values(|n: &Node| n@) == self@.children(id),
    {
        let mut out: Vec<&Node> = Vec::new();
        let ghost p = |n: NodeView| n.parent == Some(id);
        proof {
            seqs::filter_none(self@.nodes, p);
        }
        let mut i: usize = 0;
        while i < self.nodes.len()
            invariant
                i <= self.nodes.len(),
                p == (|n: NodeView| n.parent == Some(id)),
                out@.map_values(|n: &Node| n@) == self@.nodes.take(i as int).filter(p),
            decreases self.nodes.len() - i,
        {
            proof {
                seqs::filter_step(self@.nodes, p, i as int);
            }
            assert(self@.nodes[i as int] == self.nodes@[i as int]@);
            let ghost before = out@;
            if self.nodes[i].parent == Some(id) {
                out.push(&self.nodes[i]);
                assert(out@.map_values(|n: &Node| n@) == before.map_values(|n: &Node| n@).push(
                    self.nodes@[i as int]@,
                ));
            }
            i += 1;
        }
        assert(self@.nodes.take(i as int) == self@.nodes);
        out
    }

    /// Put the cursor on `id`, remembering a step down to a child.
    pub fn set_cursor(&mut self, id: usize)
        ensures
            final(self)@ == old(self)@.with_cursor(id),
    {
        let from = self.cursor;
        let descends = match (self.node(from), self.node(id)) {
            (Some(_), Some(n)) => n.parent == Some(from),
            _ => false,
        };
        if descends {
            if let Some(parent) = self.node_mut(from) {
                parent.last_child = Some(id);
            }
        }
        self.cursor = id;
    }
}

pub proof fn spliced_shrinks(s: NavView, id: usize)
    requires
        exists|i: int| 0 <= i < s.nodes.len() && (#[trigger] s.nodes[i]).id == id,
    ensures
        s.has(id),
        s.spliced(id).nodes.len() < s.nodes.len(),
{
    let i = choose|i: int| 0 <= i < s.nodes.len() && (#[trigger] s.nodes[i]).id == id;
    has_of_member(s, id, i);
    let parent = s.find(id)->0.parent;
    let mapped = s.nodes.map_values(|n: NodeView| n.without(id, parent));
    let p = |n: NodeView| n.id != id;
    assert(mapped[i].id == id);
    filter_drops(mapped, p, i);
}

proof fn filter_drops(s: Seq<NodeView>, p: spec_fn(NodeView) -> bool, i: int)
    requires
        0 <= i < s.len(),
        !p(s[i]),
    ensures
        s.filter(p).len() < s.len(),
    decreases s.len(),
{
    reveal(Seq::filter);
    s.drop_last().lemma_filter_len(p);
    if i < s.len() - 1 {
        filter_drops(s.drop_last(), p, i);
    }
}

/// A node that is there is found.
pub proof fn has_of_member(s: NavView, id: usize, i: int)
    requires
        0 <= i < s.nodes.len(),
        s.nodes[i].id == id,
    ensures
        s.has(id),
    decreases i,
{
    if forall|j: int| 0 <= j < i ==> (#[trigger] s.nodes[j]).id != id {
        assert(first_at(s.nodes, id, i));
    } else {
        let j = choose|j: int| 0 <= j < i && (#[trigger] s.nodes[j]).id == id;
        has_of_member(s, id, j);
    }
}

/// Drop a node, splicing its children onto its parent so the branch below it
/// stays reachable. A root's children become roots.
pub fn remove_node(state: &mut NavState, id: usize)
    ensures
        final(state)@ == old(state)@.spliced(id),
{
    let parent = match state.node(id) {
        Some(n) => n.parent,
        None => {
            return ;
        },
    };
    let ghost before = state@;
    let ghost f = |n: NodeView| n.without(id, parent);
    let ghost p = |n: NodeView| n.id != id;
    let ghost mapped = before.nodes.map_values(f);
    let mut rest: Vec<Node> = Vec::new();
    std::mem::swap(&mut rest, &mut state.nodes);
    let ghost all = rest@;
    let mut kept: Vec<Node> = Vec::new();
    proof {
        seqs::filter_none(mapped, p);
    }
    for n in it: rest
        invariant
            it.seq() == all,
            f == (|n: NodeView| n.without(id, parent)),
            p == (|n: NodeView| n.id != id),
            mapped == all.map_values(|n: Node| n@).map_values(f),
            kept@.map_values(|n: Node| n@) == mapped.take(it.index()).filter(p),
    {
        let ghost i = it.index();
        proof {
            seqs::filter_step(mapped, p, i);
        }
        let mut n = n;
        assert(n@ == all.map_values(|n: Node| n@)[i]);
        if n.parent == Some(id) {
            n.parent = parent;
        }
        if n.last_child == Some(id) {
            n.last_child = None;
        }
        assert(n@ == mapped[i]);
        if n.id != id {
            let ghost prior = kept@;
            kept.push(n);
            assert(kept@.map_values(|n: Node| n@) == prior.map_values(|n: Node| n@).push(n@));
        }
    }
    assert(mapped.take(all.len() as int) == mapped);
    state.nodes = kept;
    assert(state@.nodes == mapped.filter(p));
    if state.cursor == id {
        state.cursor = match parent {
            Some(up) => up,
            None => match state.nodes.last() {
                Some(n) => n.id,
                None => 0,
            },
        };
    }
}

/// Drop a node whose tab was closed. A parent that remembers it takes over the
/// child it remembers, so that stepping back and forward again still returns to
/// where one was.
fn retire_node(state: &mut NavState, id: usize)
    ensures
        final(state)@ == old(state)@.retired(id),
{
    let ghost before = state@;
    let heir = match state.node(id) {
        Some(n) => n.last_child,
        None => None,
    };
    let mut m: usize = 0;
    while m < state.nodes.len()
        invariant
            m <= state.nodes.len(),
            heir == before.remembered_by(id),
            state@.nodes.len() == before.nodes.len(),
            state@.cursor == before.cursor,
            state@.next_id == before.next_id,
            forall|j: int|
                0 <= j < m ==> #[trigger] state@.nodes[j] == before.nodes[j].handing_on(id, heir),
            forall|j: int|
                m <= j < before.nodes.len() ==> #[trigger] state@.nodes[j] == before.nodes[j],
        decreases state.nodes.len() - m,
    {
        let ghost prior = state@;
        assert(state.nodes@[m as int]@ == state@.nodes[m as int]);
        if heir.is_some() && state.nodes[m].last_child == Some(id) {
            state.nodes[m].last_child = heir;
        }
        assert(state.nodes@[m as int]@ == before.nodes[m as int].handing_on(id, heir));
        assert forall|j: int| 0 <= j < before.nodes.len() && j != m implies
            #[trigger] state@.nodes[j] == prior.nodes[j] by {}
        m += 1;
    }
    assert(state@.nodes == before.handed_on(id).nodes);
    remove_node(state, id);
}

/// Where the tab with this id is listed.
fn find_tab(tabs: &[TabSnapshot], tab_id: usize) -> (r: Option<usize>)
    ensures
        match r {
            Some(i) => {
                &&& listed_at(tabs_view(tabs@), tab_id, i as int)
                &&& live(tabs_view(tabs@), tab_id)
                &&& listing(tabs_view(tabs@), tab_id) == (tabs@[i as int].1, tabs@[i as int].2@)
            },
            None => !live(tabs_view(tabs@), tab_id),
        },
{
    let ghost view = tabs_view(tabs@);
    let mut i: usize = 0;
    while i < tabs.len()
        invariant
            i <= tabs.len(),
            view == tabs_view(tabs@),
            forall|j: int| 0 <= j < i ==> (#[trigger] view[j]).0 != tab_id,
        decreases tabs.len() - i,
    {
        assert(view[i as int] == (tabs@[i as int].0, tabs@[i as int].1, tabs@[i as int].2@));
        if tabs[i].0 == tab_id {
            proof {
                assert(listed_at(view, tab_id, i as int));
                let k = choose|k: int| listed_at(view, tab_id, k);
                assert(k == i) by {
                    if k < i {
                        assert(view[k].0 != tab_id);
                    } else if i < k {
                        assert(view[i as int].0 != tab_id);
                    }
                }
            }
            return Some(i);
        }
        i += 1;
    }
    None
}

/// Re-sync this session's nodes against its live tabs: drop the closed ones,
/// refresh position and name on the rest. Reports whether anything moved.
pub fn refresh_session(state: &mut NavState, session: &str, tabs: &[TabSnapshot]) -> (changed: bool)
    ensures
        final(state)@ == old(state)@.refreshed(session@, tabs_view(tabs@)),
        changed == old(state)@.stale(session@, tabs_view(tabs@)),
{
    let ghost view = tabs_view(tabs@);
    let ghost before = state@;
    let ghost p = |n: NodeView| n.closed(session@, view);
    let ghost id_of = |n: NodeView| n.id;
    proof {
        seqs::filter_none(before.nodes, p);
    }
    let mut closed: Vec<usize> = Vec::new();
    let mut i: usize = 0;
    while i < state.nodes.len()
        invariant
            i <= state.nodes.len(),
            state@ == before,
            view == tabs_view(tabs@),
            p == (|n: NodeView| n.closed(session@, view)),
            id_of == (|n: NodeView| n.id),
            closed@ == before.nodes.take(i as int).filter(p).map_values(id_of),
        decreases state.nodes.len() - i,
    {
        proof {
            seqs::filter_step(before.nodes, p, i as int);
        }
        let n = &state.nodes[i];
        assert(n@ == before.nodes[i as int]);
        if str_eq(n.session.as_str(), session) && find_tab(tabs, n.tab_id).is_none() {
            closed.push(n.id);
        }
        i += 1;
    }
    assert(before.nodes.take(i as int) == before.nodes);
    assert(closed@ == before.closed_ids(session@, view));
    let mut changed = closed.len() > 0;
    let mut k: usize = 0;
    assert(closed@.take(0) == Seq::<usize>::empty());
    while k < closed.len()
        invariant
            k <= closed.len(),
            state@ == before.retired_all(closed@.take(k as int)),
        decreases closed.len() - k,
    {
        retire_node(state, closed[k]);
        assert(closed@.take(k + 1).drop_last() == closed@.take(k as int));
        k += 1;
    }
    assert(closed@.take(k as int) == closed@);
    let ghost open = state@;
    let mut m: usize = 0;
    while m < state.nodes.len()
        invariant
            m <= state.nodes.len(),
            view == tabs_view(tabs@),
            state@.nodes.len() == open.nodes.len(),
            state@.cursor == open.cursor,
            state@.next_id == open.next_id,
            forall|j: int|
                0 <= j < m ==> #[trigger] state@.nodes[j] == open.nodes[j].resynced(session@, view),
            forall|j: int| m <= j < open.nodes.len() ==> #[trigger] state@.nodes[j] == open.nodes[j],
            changed == (closed@.len() > 0 || exists|j: int|
                0 <= j < m && #[trigger] open.nodes[j].resynced(session@, view) != open.nodes[j]),
        decreases state.nodes.len() - m,
    {
        let ghost prior = state@;
        assert(state.nodes@[m as int]@ == state@.nodes[m as int]);
        if str_eq(state.nodes[m].session.as_str(), session) {
            if let Some(t) = find_tab(tabs, state.nodes[m].tab_id) {
                let position = tabs[t].1;
                if state.nodes[m].tab_position != position || state.nodes[m].tab_name != tabs[t].2 {
                    state.nodes[m].tab_position = position;
                    state.nodes[m].tab_name = tabs[t].2.clone();
                    changed = true;
                }
            }
        }
        assert(state.nodes@[m as int]@ == open.nodes[m as int].resynced(session@, view));
        assert forall|j: int| 0 <= j < open.nodes.len() && j != m implies
            #[trigger] state@.nodes[j] == prior.nodes[j] by {}
        m += 1;
    }
    assert(state@.nodes == open.nodes.map_values(|n: NodeView| n.resynced(session@, view)));
    changed
}

/// A list of distinct nodes is no longer than the tree.
proof fn distinct_ids_fit(s: NavView, ids: Seq<usize>)
    requires
        ids.no_duplicates(),
        forall|k: int| 0 <= k < ids.len() ==> s.has(#[trigger] ids[k]),
    ensures
        ids.len() <= s.nodes.len(),
{
    let all = s.nodes.map_values(|n: NodeView| n.id);
    ids.unique_seq_to_set();
    all.lemma_cardinality_of_set();
    assert forall|x: usize| ids.to_set().contains(x) implies all.to_set().contains(x) by {
        let k = choose|k: int| 0 <= k < ids.len() && ids[k] == x;
        assert(s.has(ids[k]));
        let i = s.index_of(x);
        assert(first_at(s.nodes, x, i));
        assert(all[i] == x);
    }
    vstd::set_lib::lemma_len_subset(ids.to_set(), all.to_set());
}

/// A list that holds the cursor and is closed under parents holds the path.
proof fn path_within(s: NavView, ids: Seq<usize>, k: nat)
    requires
        ids.contains(s.cursor),
        forall|i: int|
            0 <= i < ids.len() ==> match s.parent_of(#[trigger] ids[i]) {
                Some(up) => ids.contains(up),
                None => true,
            },
    ensures
        s.ancestor(k) is Some ==> ids.contains(s.ancestor(k)->0),
    decreases k,
{
    if k > 0 {
        path_within(s, ids, (k - 1) as nat);
        if s.ancestor((k - 1) as nat) is Some {
            let below = s.ancestor((k - 1) as nat)->0;
            let i = choose|i: int| 0 <= i < ids.len() && ids[i] == below;
            assert(s.parent_of(ids[i]) == s.ancestor(k));
        }
    }
}

impl NavState {
    /// The cursor and the nodes above it.
    fn path(&self) -> (r: Vec<usize>)
        ensures
            forall|id: usize| #[trigger] r@.contains(id) <==> self@.on_path(id),
    {
        let mut out: Vec<usize> = Vec::new();
        let mut walk: Option<usize> = Some(self.cursor);
        let ghost mut steps: nat = 0;
        while walk.is_some()
            invariant
                walk == self@.ancestor(steps),
                steps == out.len(),
                out@.no_duplicates(),
                forall|i: int| 0 <= i < out.len() ==> #[trigger] self@.ancestor(i as nat) == Some(out@[i]),
                forall|i: int| 0 <= i < out.len() - 1 ==> #[trigger] self@.has(out@[i]),
                walk is Some && out.len() > 0 ==> self@.has(out@[out.len() - 1]),
            ensures
                walk is None || out@.contains(walk->0),
            decreases self.nodes.len() + 1 - out.len(),
        {
            let id: usize = match walk {
                Some(id) => id,
                None => 0,
            };
            if contains_id(&out, id) {
                break;
            }
            proof {
                assert(self@.nodes.len() == self.nodes.len());
                distinct_ids_fit(self@, out@);
            }
            let ghost before = out@;
            out.push(id);
            walk = match self.node(id) {
                Some(n) => n.parent,
                None => None,
            };
            proof {
                steps = steps + 1;
                assert forall|i: int| 0 <= i < out.len() implies #[trigger] self@.ancestor(i as nat)
                    == Some(out@[i]) by {
                    if i < before.len() {
                        assert(self@.ancestor(i as nat) == Some(before[i]));
                    }
                }
            }
        }
        proof {
            assert(self@.ancestor(0) == Some(self@.cursor));
            assert(self@.ancestor(0int as nat) == Some(out@[0]));
            assert forall|i: int| 0 <= i < out.len() implies match self@.parent_of(
                #[trigger] out@[i],
            ) {
                Some(up) => out@.contains(up),
                None => true,
            } by {
                assert(self@.ancestor(i as nat) == Some(out@[i]));
                assert(self@.ancestor((i + 1) as nat) == self@.parent_of(out@[i]));
                if i + 1 < out.len() {
                    assert(self@.ancestor((i + 1) as nat) == Some(out@[i + 1]));
                }
            }
            assert forall|id: usize| #[trigger] out@.contains(id) <==> self@.on_path(id) by {
                if out@.contains(id) {
                    let i = choose|i: int| 0 <= i < out.len() && out@[i] == id;
                    assert(self@.ancestor(i as nat) == Some(out@[i]));
                }
                if self@.on_path(id) {
                    let k = choose|k: nat| self@.ancestor(k) == Some(id);
                    path_within(self@, out@, k);
                }
            }
        }
        out
    }

    /// Whether some node has this parent.
    fn has_children(&self, id: usize) -> (r: bool)
        ensures
            r == exists|i: int|
                0 <= i < self@.nodes.len() && (#[trigger] self@.nodes[i]).parent == Some(id),
    {
        let mut i: usize = 0;
        while i < self.nodes.len()
            invariant
                i <= self.nodes.len(),
                forall|j: int| 0 <= j < i ==> (#[trigger] self@.nodes[j]).parent != Some(id),
            decreases self.nodes.len() - i,
        {
            assert(self@.nodes[i as int] == self.nodes@[i as int]@);
            if self.nodes[i].parent == Some(id) {
                return true;
            }
            i += 1;
        }
        false
    }

    /// The oldest leaf off the cursor's path.
    fn oldest_spare_leaf(&self) -> (r: Option<usize>)
        ensures
            match r {
                Some(id) => self@.oldest_spare(id),
                None => forall|id: usize| !self@.spare(id),
            },
    {
        let protected = self.path();
        let mut best: Option<usize> = None;
        let mut i: usize = 0;
        while i < self.nodes.len()
            invariant
                i <= self.nodes.len(),
                forall|id: usize| #[trigger] protected@.contains(id) <==> self@.on_path(id),
                match best {
                    Some(id) => self@.spare(id) && forall|j: int|
                        0 <= j < i && self@.spare((#[trigger] self@.nodes[j]).id) ==> id
                            <= self@.nodes[j].id,
                    None => forall|j: int|
                        0 <= j < i ==> !self@.spare((#[trigger] self@.nodes[j]).id),
                },
            decreases self.nodes.len() - i,
        {
            assert(self@.nodes[i as int] == self.nodes@[i as int]@);
            let id = self.nodes[i].id;
            if !contains_id(&protected, id) && !self.has_children(id) {
                assert(self@.spare(id));
                let smaller = match best {
                    Some(b) => id < b,
                    None => true,
                };
                if smaller {
                    best = Some(id);
                }
            }
            i += 1;
        }
        proof {
            assert forall|id: usize| #[trigger] self@.spare(id) implies best is Some && best->0 <= id by {
                let j = choose|j: int| 0 <= j < self@.nodes.len() && (#[trigger] self@.nodes[j]).id == id;
                assert(self@.spare(self@.nodes[j].id));
            }
        }
        best
    }
}

fn contains_id(ids: &Vec<usize>, id: usize) -> (r: bool)
    ensures
        r == ids@.contains(id),
{
    let mut i: usize = 0;
    while i < ids.len()
        invariant
            i <= ids.len(),
            forall|j: int| 0 <= j < i ==> ids@[j] != id,
        decreases ids.len() - i,
    {
        if ids[i] == id {
            return true;
        }
        i += 1;
    }
    false
}

/// Trim to [`MAX_NODES`] by dropping the oldest leaves. Never touches the
/// cursor or its ancestors: the path you are standing on outranks any age rule.
pub fn prune(state: &mut NavState)
    ensures
        final(state)@ == old(state)@.pruned(),
{
    while state.nodes.len() > MAX_NODES
        invariant
            state@.pruned() == old(state)@.pruned(),
        ensures
            state@ == old(state)@.pruned(),
        decreases state.nodes.len(),
    {
        assert(state@.nodes.len() == state.nodes.len());
        match state.oldest_spare_leaf() {
            Some(id) => {
                proof {
                    let chosen = choose|other: usize| state@.oldest_spare(other);
                    assert(state@.oldest_spare(chosen));
                    assert(chosen == id);
                    spliced_shrinks(state@, id);
                }
                remove_node(state, id);
                assert(state@.nodes.len() == state.nodes.len());
            },
            None => {
                break;
            },
        }
    }
    assert(state@.nodes.len() == state.nodes.len());
}

/// Record a tab change. Revisiting the cursor's parent or one of its children
/// only moves the cursor; anything else is genuinely new and branches off the
/// cursor. Reports whether the tree changed.
pub fn apply(
    state: &mut NavState,
    session: &str,
    tab_id: usize,
    tabs: &[TabSnapshot],
    now: u64,
) -> (changed: bool)
    requires
        old(state)@.grows(session@, tab_id, tabs_view(tabs@)) ==> old(state).next_id < usize::MAX,
    ensures
        final(state)@ == old(state)@.visited(session@, tab_id, tabs_view(tabs@), now),
        changed == (old(state)@.stale(session@, tabs_view(tabs@)) || old(state)@.moves(
            session@,
            tab_id,
            tabs_view(tabs@),
        )),
{
    let refreshed = refresh_session(state, session, tabs);
    proof {
        next_id_kept(old(state)@, old(state)@.closed_ids(session@, tabs_view(tabs@)));
    }
    let already = match state.node(state.cursor) {
        Some(n) => n.is(session, tab_id),
        None => false,
    };
    if already {
        return refreshed;
    }
    let t = match find_tab(tabs, tab_id) {
        Some(t) => t,
        None => {
            return refreshed;
        },
    };
    match state.adjacent(session, tab_id) {
        Some(id) => state.set_cursor(id),
        None => {
            let id = state.next_id;
            let parent = if state.node(state.cursor).is_some() {
                Some(state.cursor)
            } else {
                None
            };
            let ghost before = state.nodes@;
            let node = Node {
                id,
                session: session.to_owned(),
                tab_id,
                tab_position: tabs[t].1,
                tab_name: tabs[t].2.clone(),
                parent,
                last_child: None,
                at: now,
            };
            let ghost grown = state@.grown(session@, tab_id, tabs@[t as int].1, tabs@[t as int].2@, now);
            state.nodes.push(node);
            state.next_id = id + 1;
            assert(state@.nodes == before.map_values(|n: Node| n@).push(node@));
            assert(state@ == grown);
            state.set_cursor(id);
        },
    }
    prune(state);
    true
}

pub proof fn next_id_kept(s: NavView, ids: Seq<usize>)
    ensures
        s.retired_all(ids).next_id == s.next_id,
    decreases ids.len(),
{
    if ids.len() > 0 {
        next_id_kept(s, ids.drop_last());
    }
}

impl NavState {
    /// The neighbour of the cursor that is a visit to this tab.
    fn adjacent(&self, session: &str, tab_id: usize) -> (r: Option<usize>)
        ensures
            r == self@.adjacent(session@, tab_id),
    {
        let below = self.children_of(self.cursor);
        let ghost kids = self@.children(self.cursor);
        let ghost p = |n: NodeView| n.is(session@, tab_id);
        proof {
            seqs::filter_none(kids, p);
        }
        let mut i: usize = 0;
        while i < below.len()
            invariant
                i <= below.len(),
                kids == self@.children(self.cursor),
                below@.map_values(|n: &Node| n@) == kids,
                p == (|n: NodeView| n.is(session@, tab_id)),
                kids.take(i as int).filter(p) == Seq::<NodeView>::empty(),
            decreases below.len() - i,
        {
            proof {
                seqs::filter_step(kids, p, i as int);
                assert(kids[i as int] == below@[i as int]@);
            }
            if below[i].is(session, tab_id) {
                proof {
                    assert(kids == kids.take(i + 1) + kids.skip(i + 1));
                    Seq::filter_distributes_over_add(kids.take(i + 1), kids.skip(i + 1), p);
                    assert(kids.filter(p)[0] == kids[i as int]);
                }
                return Some(below[i].id);
            }
            i += 1;
        }
        assert(kids.take(i as int) == kids);
        match self.node(self.cursor) {
            Some(n) => match n.parent {
                Some(up) => match self.node(up) {
                    Some(m) => if m.is(session, tab_id) {
                        Some(m.id)
                    } else {
                        None
                    },
                    None => None,
                },
                None => None,
            },
            None => None,
        }
    }

    /// The child of the cursor with the largest id.
    fn newest_child(&self) -> (r: Option<usize>)
        ensures
            match r {
                Some(id) => self@.newest_child(id),
                None => forall|id: usize| !self@.newest_child(id),
            },
    {
        let mut best: Option<usize> = None;
        let mut i: usize = 0;
        while i < self.nodes.len()
            invariant
                i <= self.nodes.len(),
                match best {
                    Some(id) => {
                        &&& exists|j: int|
                            0 <= j < i && (#[trigger] self@.nodes[j]).id == id
                                && self@.nodes[j].parent == Some(self@.cursor)
                        &&& forall|j: int|
                            0 <= j < i && (#[trigger] self@.nodes[j]).parent == Some(self@.cursor)
                                ==> self@.nodes[j].id <= id
                    },
                    None => forall|j: int|
                        0 <= j < i ==> (#[trigger] self@.nodes[j]).parent != Some(self@.cursor),
                },
            decreases self.nodes.len() - i,
        {
            assert(self@.nodes[i as int] == self.nodes@[i as int]@);
            if self.nodes[i].parent == Some(self.cursor) {
                let id = self.nodes[i].id;
                let larger = match best {
                    Some(b) => id >= b,
                    None => true,
                };
                if larger {
                    best = Some(id);
                }
            }
            i += 1;
        }
        best
    }
}

/// Step the cursor one place along the tree; returns the (session, tab id, tab
/// position) to focus, or `None` at an edge. Forward follows the branch you
/// were last on, falling back to the newest child.
pub fn advance(state: &mut NavState, forward: bool) -> (r: Option<(String, usize, usize)>)
    ensures
        final(state)@ == old(state)@.stepped(forward),
        match r {
            Some(to) => old(state)@.landing(forward) == Some((to.0@, to.1, to.2)),
            None => old(state)@.landing(forward) is None,
        },
{
    let (parent, last_child) = match state.node(state.cursor) {
        Some(n) => (n.parent, n.last_child),
        None => {
            return None;
        },
    };
    let next = if forward {
        let remembered = match last_child {
            Some(id) => state.node(id).is_some(),
            None => false,
        };
        if remembered {
            last_child
        } else {
            let newest = state.newest_child();
            proof {
                if newest is Some {
                    let chosen = choose|id: usize| state@.newest_child(id);
                    assert(state@.newest_child(chosen));
                    assert(chosen == newest->0);
                }
            }
            newest
        }
    } else {
        parent
    };
    match next {
        Some(id) => {
            state.set_cursor(id);
            match state.node(id) {
                Some(n) => Some((n.session.clone(), n.tab_id, n.tab_position)),
                None => None,
            }
        },
        None => None,
    }
}

impl NavView {
    /// No visit yet.
    pub open spec fn fresh() -> NavView {
        NavView { nodes: Seq::empty(), cursor: 0, next_id: 0 }
    }
}

impl Default for NavState {
    fn default() -> (r: NavState)
        ensures
            r@ == NavView::fresh(),
    {
        let r = NavState { nodes: Vec::new(), cursor: 0, next_id: 0 };
        assert(r@.nodes == Seq::<NodeView>::empty());
        r
    }
}

/// What was read back, or a tree without a visit where nothing could be.
pub open spec fn loaded_view(loaded: Option<NavState>) -> NavView {
    match loaded {
        Some(state) => state@,
        None => NavView::fresh(),
    }
}

/// Whether recording a tab change in the tree that was read back adds a node to
/// it, and so uses up an id.
pub fn adds_a_visit(
    loaded: Option<NavState>,
    session: &str,
    tab_id: usize,
    tabs: &[TabSnapshot],
) -> (r: bool)
    ensures
        r == loaded_view(loaded).grows(session@, tab_id, tabs_view(tabs@)),
{
    let mut state = match loaded {
        Some(state) => state,
        None => NavState::default(),
    };
    refresh_session(&mut state, session, tabs);
    let already = match state.node(state.cursor) {
        Some(n) => n.is(session, tab_id),
        None => false,
    };
    !already && find_tab(tabs, tab_id).is_some() && state.adjacent(session, tab_id).is_none()
}

/// Record a tab change in the tree that was read back. Returns the tree to
/// write, or `None` where nothing changed: most reports are an echo, and
/// writing regardless would churn the file all day.
pub fn record(
    loaded: Option<NavState>,
    session: &str,
    tab_id: usize,
    tabs: &[TabSnapshot],
    now: u64,
) -> (r: Option<NavState>)
    requires
        loaded_view(loaded).grows(session@, tab_id, tabs_view(tabs@)) ==> loaded_view(loaded).next_id
            < usize::MAX,
    ensures
        r is Some <==> loaded_view(loaded).stale(session@, tabs_view(tabs@)) || loaded_view(
            loaded,
        ).moves(session@, tab_id, tabs_view(tabs@)),
        r matches Some(state) ==> state@ == loaded_view(loaded).visited(
            session@,
            tab_id,
            tabs_view(tabs@),
            now,
        ),
{
    let mut state = match loaded {
        Some(state) => state,
        None => NavState::default(),
    };
    if apply(&mut state, session, tab_id, tabs, now) {
        Some(state)
    } else {
        None
    }
}

/// Step along the tree that was read back. Returns the tree to write and the
/// (session, tab id, tab position) to focus, or `None` at an edge.
pub fn step(loaded: Option<NavState>, forward: bool) -> (r: Option<
    (NavState, (String, usize, usize)),
>)
    ensures
        r is Some <==> loaded_view(loaded).landing(forward) is Some,
        r matches Some((state, to)) ==> {
            &&& state@ == loaded_view(loaded).stepped(forward)
            &&& loaded_view(loaded).landing(forward) == Some((to.0@, to.1, to.2))
        },
{
    let mut state = match loaded {
        Some(state) => state,
        None => NavState::default(),
    };
    match advance(&mut state, forward) {
        Some(to) => Some((state, to)),
        None => None,
    }
}

} // verus!
