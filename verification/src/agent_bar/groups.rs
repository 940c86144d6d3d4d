//! Which agents stand under which header, and in what order.
use crate::dict::{Dict, Same};
use crate::host::opt_text;
use crate::readmodel::Agent;
use crate::seqs;
use crate::text;
use crate::text::str_eq;
use vstd::prelude::*;
use vstd::relations::*;
use vstd::seq_lib::*;

verus! {

pub const SESSIONLESS_LABEL: &'static str = "sessionless";

pub const BACKGROUND_LABEL: &'static str = "bg agents";

/// A live zellij session, independent of whether any agent runs in it.
#[derive(Clone, Copy, Debug, PartialEq, Eq, Structural)]
pub struct SessionMeta {
    /// Attached clients. Past our own, another terminal window holds it.
    pub clients: usize,
    /// Wall-clock creation.
    pub created_ms: i64,
}

impl View for SessionMeta {
    type V = SessionMeta;

    open spec fn view(&self) -> SessionMeta {
        *self
    }
}

impl Same for SessionMeta {
    fn same(&self, other: &Self) -> (r: bool) {
        *self == *other
    }
}

#[derive(Debug)]
pub enum GroupLabel {
    Session(String),
    Sessionless,
    /// All agents run in the background. They have no pane of their own, so they
    /// are decoupled into their own section and only ever selected.
    BackgroundAgents,
}

pub ghost enum LabelView {
    Session(Seq<char>),
    Sessionless,
    BackgroundAgents,
}

impl View for GroupLabel {
    type V = LabelView;

    open spec fn view(&self) -> LabelView {
        match self {
            GroupLabel::Session(s) => LabelView::Session(s@),
            GroupLabel::Sessionless => LabelView::Sessionless,
            GroupLabel::BackgroundAgents => LabelView::BackgroundAgents,
        }
    }
}

/// What a header says.
pub open spec fn label_text(label: LabelView) -> Seq<char> {
    match label {
        LabelView::Session(s) => s,
        LabelView::Sessionless => SESSIONLESS_LABEL@,
        LabelView::BackgroundAgents => BACKGROUND_LABEL@,
    }
}

impl GroupLabel {
    pub fn as_str(&self) -> (r: &str)
        ensures
            r@ == label_text(self@),
    {
        match self {
            GroupLabel::Session(s) => s.as_str(),
            GroupLabel::Sessionless => SESSIONLESS_LABEL,
            GroupLabel::BackgroundAgents => BACKGROUND_LABEL,
        }
    }
}

/// A single display row.
#[derive(Debug)]
pub struct Row {
    pub agent: Agent,
    /// Nested under another agent: indented, with a connector, on one line.
    pub is_child: bool,
    /// The last one nested under its parent.
    pub is_last_child: bool,
    /// The session to focus when the row is clicked; `None` for a row that can
    /// only be selected.
    pub focus_sid: Option<String>,
}

pub ghost struct RowView {
    pub agent: Agent,
    pub is_child: bool,
    pub is_last_child: bool,
    pub focus_sid: Option<Seq<char>>,
}

impl View for Row {
    type V = RowView;

    open spec fn view(&self) -> RowView {
        RowView {
            agent: self.agent,
            is_child: self.is_child,
            is_last_child: self.is_last_child,
            focus_sid: opt_text(self.focus_sid),
        }
    }
}

/// One section of rows: a zellij session's agents, those without a session, or
/// those in the background.
#[derive(Debug)]
pub struct Group {
    pub label: GroupLabel,
    pub rows: Vec<Row>,
    /// The session's creation time, or that of its earliest agent: the sort key.
    pub created_ms: i64,
    pub any_unrouted: bool,
}

#[verifier::ext_equal]
pub ghost struct GroupView {
    pub label: LabelView,
    pub rows: Seq<RowView>,
    pub created_ms: int,
    pub any_unrouted: bool,
}

impl View for Group {
    type V = GroupView;

    open spec fn view(&self) -> GroupView {
        GroupView {
            label: self.label@,
            rows: self.rows@.map_values(|r: Row| r@),
            created_ms: self.created_ms as int,
            any_unrouted: self.any_unrouted,
        }
    }
}

pub open spec fn group_views(groups: Seq<Group>) -> Seq<GroupView> {
    groups.map_values(|g: Group| g@)
}

pub open spec fn is_bg(a: Agent) -> bool {
    a.kind@ == "bg"@
}

/// The session an agent belongs to, if any: what it is grouped by.
pub open spec fn key_of(a: Agent) -> Option<Seq<char>> {
    opt_text(a.zellij_session)
}

/// One agent put among agents ordered by their start, behind those that started
/// no later.
pub open spec fn inserted(s: Seq<Agent>, a: Agent) -> Seq<Agent>
    decreases s.len(),
{
    if s.len() == 0 || s.last().started_at_ms <= a.started_at_ms {
        s.push(a)
    } else {
        inserted(s.drop_last(), a).push(s.last())
    }
}

/// Agents in the order in which they started; of two that started together, in
/// the order given.
pub open spec fn by_start(s: Seq<Agent>) -> Seq<Agent>
    decreases s.len(),
{
    if s.len() == 0 {
        Seq::empty()
    } else {
        inserted(by_start(s.drop_last()), s.last())
    }
}

pub open spec fn in_group(key: Option<Seq<char>>) -> spec_fn(Agent) -> bool {
    |a: Agent| !is_bg(a) && key_of(a) == key
}

pub open spec fn in_background() -> spec_fn(Agent) -> bool {
    |a: Agent| is_bg(a)
}

/// The agents of a session, or those without one.
pub open spec fn members(agents: Seq<Agent>, key: Option<Seq<char>>) -> Seq<Agent> {
    by_start(agents.filter(in_group(key)))
}

pub open spec fn background(agents: Seq<Agent>) -> Seq<Agent> {
    by_start(agents.filter(in_background()))
}

/// The time a group is ordered by. A session that has left the live list keeps
/// its slot from its earliest agent.
pub open spec fn created(
    agents: Seq<Agent>,
    sessions: Map<Seq<char>, SessionMeta>,
    key: Option<Seq<char>>,
) -> int {
    let tops = members(agents, key);
    if key is Some && sessions.contains_key(key->0) {
        sessions[key->0].created_ms as int
    } else if tops.len() > 0 {
        tops[0].started_at_ms as int
    } else {
        i64::MAX as int
    }
}

/// A group for each live session and for each session an agent names, and one
/// for the agents without a session where there are any.
pub open spec fn owed(agents: Seq<Agent>, sessions: Map<Seq<char>, SessionMeta>) -> Set<
    Option<Seq<char>>,
> {
    Set::new(
        |key: Option<Seq<char>>|
            (key is Some && sessions.contains_key(key->0)) || exists|i: int|
                0 <= i < agents.len() && !is_bg(#[trigger] agents[i]) && key_of(agents[i]) == key,
    )
}

/// The order of groups: oldest first, of the same age by name, and those
/// without a session last.
pub open spec fn not_after(
    agents: Seq<Agent>,
    sessions: Map<Seq<char>, SessionMeta>,
    a: Option<Seq<char>>,
    b: Option<Seq<char>>,
) -> bool {
    match (a, b) {
        (_, None) => true,
        (None, Some(_)) => false,
        (Some(x), Some(y)) => {
            let ca = created(agents, sessions, a);
            let cb = created(agents, sessions, b);
            ca < cb || (ca == cb && (x == y || text::precedes(x, y)))
        },
    }
}

pub open spec fn group_order(agents: Seq<Agent>, sessions: Map<Seq<char>, SessionMeta>) -> spec_fn(
    Option<Seq<char>>,
    Option<Seq<char>>,
) -> bool {
    |a: Option<Seq<char>>, b: Option<Seq<char>>| not_after(agents, sessions, a, b)
}

/// The groups that are owed, in their order.
pub open spec fn group_keys(agents: Seq<Agent>, sessions: Map<Seq<char>, SessionMeta>) -> Seq<
    Option<Seq<char>>,
> {
    owed(agents, sessions).to_seq().sort_by(group_order(agents, sessions))
}

pub open spec fn top_row(a: Agent, focus_sid: Option<Seq<char>>) -> RowView {
    RowView { agent: a, is_child: false, is_last_child: false, focus_sid }
}

pub open spec fn unrouted(s: Seq<Agent>) -> bool {
    exists|i: int| 0 <= i < s.len() && (#[trigger] s[i]).zellij_pane_id is None
}

pub open spec fn group_of(
    agents: Seq<Agent>,
    sessions: Map<Seq<char>, SessionMeta>,
    key: Option<Seq<char>>,
) -> GroupView {
    let tops = members(agents, key);
    GroupView {
        label: match key {
            Some(s) => LabelView::Session(s),
            None => LabelView::Sessionless,
        },
        rows: tops.map_values(|a: Agent| top_row(a, Some(a.session_id@))),
        created_ms: created(agents, sessions, key),
        any_unrouted: unrouted(tops),
    }
}

/// The section of the background agents, none of which can be focused.
pub open spec fn background_group(agents: Seq<Agent>) -> GroupView {
    let bg = background(agents);
    GroupView {
        label: LabelView::BackgroundAgents,
        rows: bg.map_values(|a: Agent| top_row(a, None)),
        created_ms: bg[0].started_at_ms as int,
        any_unrouted: false,
    }
}

/// The whole panel: the groups in their order, and the background agents at the
/// end where there are any.
pub open spec fn grouping(agents: Seq<Agent>, sessions: Map<Seq<char>, SessionMeta>) -> Seq<
    GroupView,
> {
    let groups = group_keys(agents, sessions).map_values(
        |key: Option<Seq<char>>| group_of(agents, sessions, key),
    );
    if background(agents).len() > 0 {
        groups.push(background_group(agents))
    } else {
        groups
    }
}

proof fn inserted_at(s: Seq<Agent>, a: Agent, p: int)
    requires
        0 <= p <= s.len(),
        p > 0 ==> s[p - 1].started_at_ms <= a.started_at_ms,
        forall|i: int| p <= i < s.len() ==> (#[trigger] s[i]).started_at_ms > a.started_at_ms,
    ensures
        inserted(s, a) == s.insert(p, a),
    decreases s.len(),
{
    if p == s.len() {
        assert(s.insert(p, a) =~= s.push(a));
    } else {
        let rest = s.drop_last();
        assert(s[s.len() - 1].started_at_ms > a.started_at_ms);
        assert forall|i: int| p <= i < rest.len() implies (#[trigger] rest[i]).started_at_ms
            > a.started_at_ms by {
            assert(rest[i] == s[i]);
        }
        inserted_at(rest, a, p);
        assert(s.insert(p, a) =~= rest.insert(p, a).push(s.last()));
    }
}

fn insert_by_start(out: &mut Vec<Agent>, a: Agent)
    ensures
        final(out)@ == inserted(old(out)@, a),
{
    let mut p: usize = out.len();
    while p > 0 && out[p - 1].started_at_ms > a.started_at_ms
        invariant
            p <= out.len(),
            out@ == old(out)@,
            forall|i: int| p <= i < out.len() ==> (#[trigger] out@[i]).started_at_ms
                > a.started_at_ms,
        decreases p,
    {
        p -= 1;
    }
    proof {
        inserted_at(out@, a, p as int);
    }
    out.insert(p, a);
}

fn background_agent(a: &Agent) -> (r: bool)
    ensures
        r == is_bg(*a),
{
    str_eq(a.kind.as_str(), "bg")
}

fn collect_members(agents: &Vec<Agent>, key: &Option<String>) -> (r: Vec<Agent>)
    ensures
        r@ == members(agents@, opt_text(*key)),
{
    let ghost p = in_group(opt_text(*key));
    let mut out: Vec<Agent> = Vec::new();
    let mut i: usize = 0;
    proof {
        seqs::filter_none(agents@, p);
    }
    while i < agents.len()
        invariant
            i <= agents.len(),
            p == in_group(opt_text(*key)),
            out@ == by_start(agents@.take(i as int).filter(p)),
        decreases agents.len() - i,
    {
        let a = &agents[i];
        proof {
            seqs::filter_step(agents@, p, i as int);
        }
        let ghost before = agents@.take(i as int).filter(p);
        if !background_agent(a) && crate::host::same_opt_text(&a.zellij_session, key) {
            insert_by_start(&mut out, a.copy());
            assert(before.push(agents@[i as int]).drop_last() =~= before);
        }
        i += 1;
    }
    assert(agents@.take(i as int) == agents@);
    out
}

fn collect_background(agents: &Vec<Agent>) -> (r: Vec<Agent>)
    ensures
        r@ == background(agents@),
{
    let ghost p = in_background();
    let mut out: Vec<Agent> = Vec::new();
    let mut i: usize = 0;
    proof {
        seqs::filter_none(agents@, p);
    }
    while i < agents.len()
        invariant
            i <= agents.len(),
            p == in_background(),
            out@ == by_start(agents@.take(i as int).filter(p)),
        decreases agents.len() - i,
    {
        let a = &agents[i];
        proof {
            seqs::filter_step(agents@, p, i as int);
        }
        let ghost before = agents@.take(i as int).filter(p);
        if background_agent(a) {
            insert_by_start(&mut out, a.copy());
            assert(before.push(agents@[i as int]).drop_last() =~= before);
        }
        i += 1;
    }
    assert(agents@.take(i as int) == agents@);
    out
}

/// The session keys of a panel, each once.
pub open spec fn key_views(keys: Seq<Option<String>>) -> Seq<Option<Seq<char>>> {
    keys.map_values(|k: Option<String>| opt_text(k))
}

fn has_key(keys: &Vec<Option<String>>, key: &Option<String>) -> (r: bool)
    ensures
        r == key_views(keys@).contains(opt_text(*key)),
{
    let mut i: usize = 0;
    while i < keys.len()
        invariant
            i <= keys.len(),
            forall|j: int| 0 <= j < i ==> key_views(keys@)[j] != opt_text(*key),
        decreases keys.len() - i,
    {
        if crate::host::same_opt_text(&keys[i], key) {
            assert(key_views(keys@)[i as int] == opt_text(*key));
            return true;
        }
        i += 1;
    }
    false
}

fn collect_keys(agents: &Vec<Agent>, sessions: &Dict<String, SessionMeta>) -> (r: Vec<
    Option<String>,
>)
    ensures
        key_views(r@).no_duplicates(),
        key_views(r@).to_set() == owed(agents@, sessions@),
{
    let mut keys: Vec<Option<String>> = Vec::new();
    let n = sessions.len();
    let mut i: usize = 0;
    while i < n
        invariant
            i <= n,
            n == sessions.list().len(),
            sessions.is_listed(),
            keys.len() == i,
            forall|j: int|
                0 <= j < i ==> #[trigger] key_views(keys@)[j] == Some(sessions.list()[j].0@),
        decreases n - i,
    {
        let ghost before = key_views(keys@);
        keys.push(Some(sessions.key_at(i).clone()));
        assert(key_views(keys@) =~= before.push(Some(sessions.list()[i as int].0@)));
        i += 1;
    }
    let ghost names = key_views(keys@);
    proof {
        assert forall|a: int, b: int| 0 <= a < b < names.len() implies names[a] != names[b] by {
            assert(sessions.list()[a].0@ != sessions.list()[b].0@);
        }
        assert forall|k: Option<Seq<char>>| #[trigger] names.contains(k) <==> (k is Some
            && sessions@.contains_key(k->0)) by {
            if names.contains(k) {
                let j = choose|j: int| 0 <= j < names.len() && names[j] == k;
                assert(sessions@.contains_key(sessions.list()[j].0@));
            }
            if k is Some && sessions@.contains_key(k->0) {
                let j = choose|j: int|
                    0 <= j < sessions.list().len() && #[trigger] sessions.list()[j].0@ == k->0;
                assert(names[j] == k);
            }
        }
    }
    let mut i: usize = 0;
    while i < agents.len()
        invariant
            i <= agents.len(),
            key_views(keys@).no_duplicates(),
            forall|k: Option<Seq<char>>| #[trigger]
                key_views(keys@).contains(k) <==> ((k is Some && sessions@.contains_key(k->0))
                    || exists|j: int|
                    0 <= j < i && !is_bg(#[trigger] agents@[j]) && key_of(agents@[j]) == k),
        decreases agents.len() - i,
    {
        let a = &agents[i];
        let ghost before = key_views(keys@);
        if !background_agent(a) && !has_key(&keys, &a.zellij_session) {
            keys.push(crate::host::copy_opt_text(&a.zellij_session));
            let ghost key = key_of(*a);
            assert(key_views(keys@) =~= before.push(key));
            assert forall|k: Option<Seq<char>>| #[trigger]
                key_views(keys@).contains(k) <==> before.contains(k) || k == key by {
                if before.contains(k) {
                    let j = choose|j: int| 0 <= j < before.len() && before[j] == k;
                    assert(key_views(keys@)[j] == k);
                }
                if k == key {
                    assert(key_views(keys@)[before.len() as int] == k);
                }
            }
            assert(!is_bg(agents@[i as int]));
        }
        proof {
            assert forall|k: Option<Seq<char>>| #[trigger]
                key_views(keys@).contains(k) <==> ((k is Some && sessions@.contains_key(k->0))
                    || exists|j: int|
                    0 <= j < i + 1 && !is_bg(#[trigger] agents@[j]) && key_of(agents@[j]) == k) by {
                assert(key_views(keys@).contains(k) <==> before.contains(k) || (!is_bg(
                    agents@[i as int],
                ) && key_of(agents@[i as int]) == k));
            }
        }
        i += 1;
    }
    assert(key_views(keys@).to_set() =~= owed(agents@, sessions@));
    keys
}

pub proof fn group_order_is_total(agents: Seq<Agent>, sessions: Map<Seq<char>, SessionMeta>)
    ensures
        total_ordering(group_order(agents, sessions)),
{
    let leq = group_order(agents, sessions);
    assert forall|x: Option<Seq<char>>, y: Option<Seq<char>>| #[trigger]
        leq(x, y) && #[trigger] leq(y, x) implies x == y by {
        if x is Some && y is Some {
            text::precedes_total(x->0, y->0);
        }
    }
    assert forall|x: Option<Seq<char>>, y: Option<Seq<char>>| #[trigger]
        leq(x, y) || #[trigger] leq(y, x) by {
        if x is Some && y is Some {
            text::precedes_total(x->0, y->0);
        }
    }
    assert forall|x: Option<Seq<char>>, y: Option<Seq<char>>, z: Option<Seq<char>>| #[trigger]
        leq(x, y) && #[trigger] leq(y, z) implies leq(x, z) by {
        if x is Some && y is Some && z is Some {
            if text::precedes(x->0, y->0) && text::precedes(y->0, z->0) {
                text::precedes_trans(x->0, y->0, z->0);
            }
        }
    }
}

pub proof fn set_in_sequence<A>(s: Set<A>)
    requires
        s.finite(),
    ensures
        s.to_seq().no_duplicates(),
        s.to_seq().to_set() == s,
    decreases s.len(),
{
    s.lemma_to_seq_to_set_id();
    if s.len() > 0 {
        let x = s.choose();
        let rest = s.remove(x);
        set_in_sequence(rest);
        let all = s.to_seq();
        assert(all == Seq::<A>::empty().push(x) + rest.to_seq());
        assert forall|i: int, j: int| 0 <= i < j < all.len() implies all[i] != all[j] by {
            assert(all[j] == rest.to_seq()[j - 1]);
            if i == 0 {
                assert(rest.to_seq().to_set().contains(rest.to_seq()[j - 1]));
            } else {
                assert(all[i] == rest.to_seq()[i - 1]);
            }
        }
    } else {
        assert(s.to_seq().len() == 0);
    }
}

proof fn same_members_same_bag<A>(a: Seq<A>, b: Seq<A>)
    requires
        a.no_duplicates(),
        b.no_duplicates(),
        a.to_set() == b.to_set(),
    ensures
        a.to_multiset() == b.to_multiset(),
{
    broadcast use vstd::seq_lib::group_to_multiset_ensures;

    a.lemma_multiset_has_no_duplicates();
    b.lemma_multiset_has_no_duplicates();
    assert forall|x: A| a.to_multiset().count(x) == b.to_multiset().count(x) by {
        assert(a.contains(x) <==> a.to_set().contains(x));
        assert(b.contains(x) <==> b.to_set().contains(x));
        assert(a.to_multiset().contains(x) <==> a.to_multiset().count(x) > 0);
        assert(b.to_multiset().contains(x) <==> b.to_multiset().count(x) > 0);
    }
    assert(a.to_multiset() =~= b.to_multiset());
}

/// A group's session key, read off its label.
pub open spec fn label_key(label: LabelView) -> Option<Seq<char>> {
    match label {
        LabelView::Session(s) => Some(s),
        _ => None,
    }
}

fn any_unrouted_in(tops: &Vec<Agent>) -> (r: bool)
    ensures
        r == unrouted(tops@),
{
    let mut i: usize = 0;
    while i < tops.len()
        invariant
            i <= tops.len(),
            forall|j: int| 0 <= j < i ==> (#[trigger] tops@[j]).zellij_pane_id is Some,
        decreases tops.len() - i,
    {
        if tops[i].zellij_pane_id.is_none() {
            assert(tops@[i as int].zellij_pane_id is None);
            return true;
        }
        i += 1;
    }
    false
}

fn row_views_push(rows: &mut Vec<Row>, row: Row)
    ensures
        final(rows)@.map_values(|r: Row| r@) == old(rows)@.map_values(|r: Row| r@).push(row@),
{
    rows.push(row);
    assert(rows@.map_values(|r: Row| r@) =~= old(rows)@.map_values(|r: Row| r@).push(row@));
}

fn build_group(
    agents: &Vec<Agent>,
    sessions: &Dict<String, SessionMeta>,
    key: &Option<String>,
) -> (r: Group)
    ensures
        r@ == group_of(agents@, sessions@, opt_text(*key)),
{
    let tops = collect_members(agents, key);
    let live = match key {
        Some(name) => sessions.get(name),
        None => None,
    };
    let created_ms = match live {
        Some(m) => m.created_ms,
        None => if tops.len() > 0 {
            tops[0].started_at_ms
        } else {
            i64::MAX
        },
    };
    let any_unrouted = any_unrouted_in(&tops);
    let label = match key {
        Some(s) => GroupLabel::Session(s.clone()),
        None => GroupLabel::Sessionless,
    };
    let mut rows: Vec<Row> = Vec::new();
    let ghost f = |a: Agent| top_row(a, Some(a.session_id@));
    let ghost all = tops@;
    let mut i: usize = 0;
    while i < tops.len()
        invariant
            i <= tops.len(),
            all == tops@,
            f == (|a: Agent| top_row(a, Some(a.session_id@))),
            rows@.map_values(|r: Row| r@) == all.take(i as int).map_values(f),
        decreases tops.len() - i,
    {
        let agent = tops[i].copy();
        let sid = agent.session_id.clone();
        assert(all.take(i + 1).map_values(f) =~= all.take(i as int).map_values(f).push(
            f(all[i as int]),
        ));
        row_views_push(
            &mut rows,
            Row { agent, is_child: false, is_last_child: false, focus_sid: Some(sid) },
        );
        i += 1;
    }
    assert(all.take(i as int) == all);
    Group { label, rows, created_ms, any_unrouted }
}

/// Whether the first group stands no later than the second.
fn in_order(
    a: &Group,
    b: &Group,
    Ghost(agents): Ghost<Seq<Agent>>,
    Ghost(sessions): Ghost<Map<Seq<char>, SessionMeta>>,
) -> (r: bool)
    requires
        a.label@ !is BackgroundAgents,
        b.label@ !is BackgroundAgents,
        a@ == group_of(agents, sessions, label_key(a.label@)),
        b@ == group_of(agents, sessions, label_key(b.label@)),
    ensures
        r == not_after(agents, sessions, label_key(a.label@), label_key(b.label@)),
{
    match (&a.label, &b.label) {
        (GroupLabel::Session(x), GroupLabel::Session(y)) => a.created_ms < b.created_ms || (
        a.created_ms == b.created_ms && (*x == *y || text::before(x.as_str(), y.as_str()))),
        (GroupLabel::Session(_), _) => true,
        (_, GroupLabel::Session(_)) => false,
        _ => true,
    }
}

/// Group the agents by zellij session. Every live session gets a group even
/// with no agents in it; the background agents come last, in one section.
pub fn grouped(agents: &Vec<Agent>, sessions: &Dict<String, SessionMeta>) -> (r: Vec<Group>)
    ensures
        group_views(r@) == grouping(agents@, sessions@),
{
    let keys = collect_keys(agents, sessions);
    let ghost leq = group_order(agents@, sessions@);
    let ghost kv = key_views(keys@);
    let mut groups: Vec<Group> = Vec::new();
    let ghost mut sorted: Seq<Option<Seq<char>>> = Seq::empty();
    let mut i: usize = 0;
    proof {
        group_order_is_total(agents@, sessions@);
        assert(kv.take(0) == Seq::<Option<Seq<char>>>::empty());
    }
    while i < keys.len()
        invariant
            i <= keys.len(),
            kv == key_views(keys@),
            leq == group_order(agents@, sessions@),
            total_ordering(leq),
            sorted_by(sorted, leq),
            sorted.to_multiset() == kv.take(i as int).to_multiset(),
            groups.len() == sorted.len(),
            forall|j: int|
                #![trigger groups@[j]]
                #![trigger sorted[j]]
                0 <= j < sorted.len() ==> groups@[j]@ == group_of(agents@, sessions@, sorted[j]),
        decreases keys.len() - i,
    {
        let g = build_group(agents, sessions, &keys[i]);
        let ghost key = opt_text(keys@[i as int]);
        let mut p: usize = 0;
        while p < groups.len() && in_order(&groups[p], &g, Ghost(agents@), Ghost(sessions@))
            invariant
                p <= groups.len(),
                leq == group_order(agents@, sessions@),
                g@ == group_of(agents@, sessions@, key),
                groups.len() == sorted.len(),
                forall|j: int|
                    #![trigger groups@[j]]
                    #![trigger sorted[j]]
                    0 <= j < sorted.len() ==> groups@[j]@ == group_of(
                        agents@,
                        sessions@,
                        sorted[j],
                    ),
                forall|j: int| 0 <= j < p ==> leq(#[trigger] sorted[j], key),
            ensures
                p < groups.len() ==> !leq(sorted[p as int], key),
            decreases groups.len() - p,
        {
            assert(leq(sorted[p as int], key));
            p += 1;
        }
        let ghost old_groups = groups@;
        groups.insert(p, g);
        proof {
            let grown = sorted.insert(p as int, key);
            assert(leq(key, key));
            assert forall|a: int, b: int| 0 <= a < b < grown.len() implies #[trigger] leq(
                grown[a],
                grown[b],
            ) by {
                let oa = if a < p {
                    a
                } else {
                    a - 1
                };
                let ob = if b < p {
                    b
                } else {
                    b - 1
                };
                if a == p {
                    assert(leq(sorted[p as int], key) || leq(key, sorted[p as int]));
                    assert(grown[b] == sorted[ob]);
                    if ob > p {
                        assert(leq(sorted[p as int], sorted[ob]));
                    }
                } else if b == p {
                    assert(grown[a] == sorted[a]);
                } else {
                    assert(grown[a] == sorted[oa]);
                    assert(grown[b] == sorted[ob]);
                    assert(leq(sorted[oa], sorted[ob]));
                }
            }
            to_multiset_insert(sorted, p as int, key);
            to_multiset_build(kv.take(i as int), key);
            assert(kv.take(i + 1) =~= kv.take(i as int).push(key));
            sorted = grown;
            assert forall|j: int|
                #![trigger groups@[j]]
                #![trigger sorted[j]]
                0 <= j < sorted.len() implies groups@[j]@ == group_of(
                agents@,
                sessions@,
                sorted[j],
            ) by {
                if j < p {
                    assert(groups@[j] == old_groups[j]);
                } else if j > p {
                    assert(groups@[j] == old_groups[j - 1]);
                }
            }
        }
        i += 1;
    }
    proof {
        assert(kv.take(i as int) == kv);
        let need = owed(agents@, sessions@);
        seq_to_set_is_finite(kv);
        set_in_sequence(need);
        same_members_same_bag(kv, need.to_seq());
        need.to_seq().lemma_sort_by_ensures(leq);
        lemma_sorted_unique(sorted, group_keys(agents@, sessions@), leq);
        assert(group_views(groups@) =~= group_keys(agents@, sessions@).map_values(
            |key: Option<Seq<char>>| group_of(agents@, sessions@, key),
        ));
    }
    let ghost named = group_views(groups@);
    let bg = collect_background(agents);
    if bg.len() > 0 {
        let created_ms = bg[0].started_at_ms;
        let mut rows: Vec<Row> = Vec::new();
        let ghost f = |a: Agent| top_row(a, None);
        let mut i: usize = 0;
        while i < bg.len()
            invariant
                i <= bg.len(),
                f == (|a: Agent| top_row(a, None)),
                rows@.map_values(|r: Row| r@) == bg@.take(i as int).map_values(f),
            decreases bg.len() - i,
        {
            assert(bg@.take(i + 1).map_values(f) =~= bg@.take(i as int).map_values(f).push(
                f(bg@[i as int]),
            ));
            row_views_push(
                &mut rows,
                Row {
                    agent: bg[i].copy(),
                    is_child: false,
                    is_last_child: false,
                    focus_sid: None,
                },
            );
            i += 1;
        }
        assert(bg@.take(i as int) == bg@);
        let g = Group {
            label: GroupLabel::BackgroundAgents,
            rows,
            created_ms,
            any_unrouted: false,
        };
        assert(g@ == background_group(agents@));
        groups.push(g);
        assert(group_views(groups@) =~= named.push(background_group(agents@)));
    }
    groups
}

} // verus!
