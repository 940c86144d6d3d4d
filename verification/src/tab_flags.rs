//! The readmodel projected to per-tab tint flags for one zellij session.
use crate::dict::{Dict, Same};
use crate::host::{opt_text, PaneManifest, PaneView, TabPanes};
use crate::readmodel::{Agent, AgentStatus, ReadResult};
use crate::text::str_eq;
use vstd::prelude::*;

pub mod laws;

verus! {

/// What a tab is tinted with. Attention wins over busy when a tab has several
/// agents; idle contributes nothing.
#[derive(Copy, Clone, Debug, PartialEq, Eq, Structural)]
pub enum TabFlag {
    Busy,
    Attention,
}

impl View for TabFlag {
    type V = TabFlag;

    open spec fn view(&self) -> TabFlag {
        *self
    }
}

impl Same for TabFlag {
    fn same(&self, other: &Self) -> (r: bool) {
        *self == *other
    }
}

/// What is known of the agents in one pane. `claude_id` is the key by which
/// their attention is marked as seen.
#[derive(Clone, Debug, PartialEq, Eq)]
pub struct PaneAgent {
    pub claude_id: String,
    pub status: AgentStatus,
    pub attention_at_ms: i64,
}

/// Whether an agent is in a pane of this session.
pub open spec fn in_pane(a: Agent, session: Seq<char>, pane: u32) -> bool {
    opt_text(a.zellij_session) == Some(session) && a.zellij_pane_id == Some(pane)
}

/// Two agents in one pane: busy beats idle, and the later attention wins.
pub open spec fn merged(held: PaneAgent, a: Agent) -> PaneAgent {
    PaneAgent {
        claude_id: if a.attention_at_ms > held.attention_at_ms {
            a.session_id
        } else {
            held.claude_id
        },
        status: if a.status is Busy {
            AgentStatus::Busy
        } else {
            held.status
        },
        attention_at_ms: if a.attention_at_ms > held.attention_at_ms {
            a.attention_at_ms
        } else {
            held.attention_at_ms
        },
    }
}

/// The agents of a session by pane.
pub open spec fn projected(agents: Seq<Agent>, session: Seq<char>) -> Map<u32, PaneAgent>
    decreases agents.len(),
{
    if agents.len() == 0 {
        Map::empty()
    } else {
        let before = projected(agents.drop_last(), session);
        let a = agents.last();
        if opt_text(a.zellij_session) == Some(session) && a.zellij_pane_id is Some {
            let pane = a.zellij_pane_id->0;
            before.insert(
                pane,
                if before.contains_key(pane) {
                    merged(before[pane], a)
                } else {
                    PaneAgent {
                        claude_id: a.session_id,
                        status: a.status,
                        attention_at_ms: a.attention_at_ms,
                    }
                },
            )
        } else {
            before
        }
    }
}

/// Project every agent of the current session down to its pane. A readmodel that
/// could not be read has no agents.
pub fn project_for_session(read: &ReadResult, current_session: &str) -> (r: Dict<u32, PaneAgent>)
    ensures
        r@ == match *read {
            ReadResult::Loaded(agents) => projected(agents@, current_session@),
            _ => Map::empty(),
        },
{
    let mut out: Dict<u32, PaneAgent> = Dict::new();
    let agents = match read {
        ReadResult::Loaded(a) => a,
        _ => return out,
    };
    let mut i: usize = 0;
    assert(agents@.take(0) =~= Seq::<Agent>::empty());
    while i < agents.len()
        invariant
            i <= agents.len(),
            out@ == projected(agents@.take(i as int), current_session@),
        decreases agents.len() - i,
    {
        let a = &agents[i];
        proof {
            assert(agents@.take(i + 1).drop_last() =~= agents@.take(i as int));
            assert(agents@.take(i + 1).last() == *a);
        }
        let here = match &a.zellij_session {
            Some(s) => str_eq(s.as_str(), current_session),
            None => false,
        };
        if here {
            if let Some(pane_id) = a.zellij_pane_id {
                let next = match out.get(&pane_id) {
                    None => PaneAgent {
                        claude_id: a.session_id.clone(),
                        status: a.status.copy(),
                        attention_at_ms: a.attention_at_ms,
                    },
                    Some(held) => {
                        let later = a.attention_at_ms > held.attention_at_ms;
                        PaneAgent {
                            claude_id: if later {
                                a.session_id.clone()
                            } else {
                                held.claude_id.clone()
                            },
                            status: if a.status.is_busy() {
                                AgentStatus::Busy
                            } else {
                                held.status.copy()
                            },
                            attention_at_ms: if later {
                                a.attention_at_ms
                            } else {
                                held.attention_at_ms
                            },
                        }
                    },
                };
                out.insert(pane_id, next);
            }
        }
        i += 1;
    }
    assert(agents@.take(i as int) =~= agents@);
    out
}

/// Whether an agent's attention has not been seen yet.
pub open spec fn unseen(pa: PaneAgent, seen: Map<Seq<char>, i64>) -> bool {
    pa.attention_at_ms > 0 && pa.attention_at_ms > (if seen.contains_key(pa.claude_id@) {
        seen[pa.claude_id@]
    } else {
        0
    })
}

/// A pane that holds an agent.
pub open spec fn holds(pane: PaneView, agents: Map<u32, PaneAgent>) -> bool {
    !pane.is_plugin && agents.contains_key(pane.id)
}

/// Whether a pane asks for attention. In the active tab nothing does: the user is
/// looking at it.
pub open spec fn asks(
    pane: PaneView,
    agents: Map<u32, PaneAgent>,
    active: bool,
    seen: Map<Seq<char>, i64>,
) -> bool {
    holds(pane, agents) && !active && unseen(agents[pane.id], seen)
}

pub open spec fn works(pane: PaneView, agents: Map<u32, PaneAgent>) -> bool {
    holds(pane, agents) && agents[pane.id].status is Busy
}

/// The tint of a tab.
pub open spec fn flag_of_tab(
    panes: Seq<PaneView>,
    agents: Map<u32, PaneAgent>,
    active: bool,
    seen: Map<Seq<char>, i64>,
) -> Option<TabFlag> {
    if exists|i: int| 0 <= i < panes.len() && asks(#[trigger] panes[i], agents, active, seen) {
        Some(TabFlag::Attention)
    } else if exists|i: int| 0 <= i < panes.len() && works(#[trigger] panes[i], agents) {
        Some(TabFlag::Busy)
    } else {
        None
    }
}

/// The tints of all tabs that have one.
pub open spec fn tab_flags(
    agents: Map<u32, PaneAgent>,
    panes: Map<usize, Seq<PaneView>>,
    active_tab: Option<usize>,
    seen: Map<Seq<char>, i64>,
) -> Map<usize, TabFlag> {
    Map::new(
        |tab: usize|
            panes.contains_key(tab) && flag_of_tab(
                panes[tab],
                agents,
                active_tab == Some(tab),
                seen,
            ) is Some,
        |tab: usize| flag_of_tab(panes[tab], agents, active_tab == Some(tab), seen)->0,
    )
}

/// The agents of some panes whose attention has not been seen, with when it was
/// raised.
pub open spec fn unseen_in(
    panes: Seq<PaneView>,
    agents: Map<u32, PaneAgent>,
    seen: Map<Seq<char>, i64>,
) -> Seq<(Seq<char>, i64)>
    decreases panes.len(),
{
    if panes.len() == 0 {
        Seq::empty()
    } else {
        let before = unseen_in(panes.drop_last(), agents, seen);
        let pane = panes.last();
        if holds(pane, agents) && unseen(agents[pane.id], seen) {
            before.push((agents[pane.id].claude_id@, agents[pane.id].attention_at_ms))
        } else {
            before
        }
    }
}

/// What the user is looking at and has not been marked as seen.
pub open spec fn to_mark_seen(
    agents: Map<u32, PaneAgent>,
    panes: Map<usize, Seq<PaneView>>,
    active_tab: Option<usize>,
    seen: Map<Seq<char>, i64>,
) -> Seq<(Seq<char>, i64)> {
    match active_tab {
        Some(tab) => if panes.contains_key(tab) {
            unseen_in(panes[tab], agents, seen)
        } else {
            Seq::empty()
        },
        None => Seq::empty(),
    }
}

pub open spec fn mark_views(v: Seq<(String, i64)>) -> Seq<(Seq<char>, i64)> {
    v.map_values(|m: (String, i64)| (m.0@, m.1))
}

fn is_unseen(pa: &PaneAgent, seen: &Dict<String, i64>) -> (r: bool)
    ensures
        r == unseen(*pa, seen@),
{
    let at: i64 = match seen.get(&pa.claude_id) {
        Some(t) => *t,
        None => 0,
    };
    pa.attention_at_ms > 0 && pa.attention_at_ms > at
}

fn flag_tab(
    panes: &TabPanes,
    agents: &Dict<u32, PaneAgent>,
    active: bool,
    seen: &Dict<String, i64>,
) -> (r: Option<TabFlag>)
    ensures
        r == flag_of_tab(panes@, agents@, active, seen@),
{
    let ghost all = panes@;
    let mut busy = false;
    let mut i: usize = 0;
    while i < panes.list.len()
        invariant
            i <= panes.list.len(),
            all == panes@,
            all.len() == panes.list.len(),
            forall|j: int| 0 <= j < i ==> !asks(#[trigger] all[j], agents@, active, seen@),
            busy == exists|j: int| 0 <= j < i && works(#[trigger] all[j], agents@),
        decreases panes.list.len() - i,
    {
        let pane = &panes.list[i];
        assert(all[i as int] == pane@);
        if !pane.is_plugin {
            if let Some(pa) = agents.get(&pane.id) {
                if !active && is_unseen(pa, seen) {
                    assert(asks(all[i as int], agents@, active, seen@));
                    return Some(TabFlag::Attention);
                }
                if pa.status.is_busy() {
                    assert(works(all[i as int], agents@));
                    busy = true;
                }
            }
        }
        i += 1;
    }
    if busy {
        Some(TabFlag::Busy)
    } else {
        None
    }
}

fn collect_unseen(panes: &TabPanes, agents: &Dict<u32, PaneAgent>, seen: &Dict<String, i64>) -> (r:
    Vec<(String, i64)>)
    ensures
        mark_views(r@) == unseen_in(panes@, agents@, seen@),
{
    let ghost all = panes@;
    let mut out: Vec<(String, i64)> = Vec::new();
    let mut i: usize = 0;
    proof {
        assert(all.take(0) =~= Seq::<PaneView>::empty());
        assert(mark_views(out@) =~= Seq::<(Seq<char>, i64)>::empty());
    }
    while i < panes.list.len()
        invariant
            i <= panes.list.len(),
            all == panes@,
            all.len() == panes.list.len(),
            mark_views(out@) == unseen_in(all.take(i as int), agents@, seen@),
        decreases panes.list.len() - i,
    {
        let pane = &panes.list[i];
        proof {
            assert(all[i as int] == pane@);
            assert(all.take(i + 1).drop_last() =~= all.take(i as int));
        }
        if !pane.is_plugin {
            if let Some(pa) = agents.get(&pane.id) {
                if is_unseen(pa, seen) {
                    let ghost before = mark_views(out@);
                    out.push((pa.claude_id.clone(), pa.attention_at_ms));
                    assert(mark_views(out@) =~= before.push((pa.claude_id@, pa.attention_at_ms)));
                }
            }
        }
        i += 1;
    }
    assert(all.take(i as int) =~= all);
    out
}

/// Compute the tint of each tab, and collect what the user is looking at and has
/// not been marked as seen.
pub fn compute_tab_flags(
    pane_agents: &Dict<u32, PaneAgent>,
    pane_manifest: &PaneManifest,
    active_tab_idx: Option<usize>,
    effective_seen: &Dict<String, i64>,
) -> (r: (Dict<usize, TabFlag>, Vec<(String, i64)>))
    ensures
        r.0@ == tab_flags(pane_agents@, pane_manifest@, active_tab_idx, effective_seen@),
        mark_views(r.1@) == to_mark_seen(
            pane_agents@,
            pane_manifest@,
            active_tab_idx,
            effective_seen@,
        ),
{
    let ghost want = tab_flags(pane_agents@, pane_manifest@, active_tab_idx, effective_seen@);
    let mut out: Dict<usize, TabFlag> = Dict::new();
    let n = pane_manifest.panes.len();
    let ghost list = pane_manifest.panes.list();
    let mut i: usize = 0;
    while i < n
        invariant
            i <= n,
            n == list.len(),
            list == pane_manifest.panes.list(),
            pane_manifest.panes.is_listed(),
            want == tab_flags(pane_agents@, pane_manifest@, active_tab_idx, effective_seen@),
            forall|tab: usize| #[trigger]
                out@.contains_key(tab) ==> want.contains_key(tab) && out@[tab] == want[tab],
            forall|j: int|
                0 <= j < i && want.contains_key((#[trigger] list[j]).0) ==> out@.contains_key(
                    list[j].0,
                ),
        decreases n - i,
    {
        let tab = *pane_manifest.panes.key_at(i);
        let panes = pane_manifest.panes.value_at(i);
        let ghost was = out@;
        proof {
            assert(list[i as int].0@ == tab);
            assert(pane_manifest.panes@.contains_key(list[i as int].0@));
            assert(pane_manifest@[tab] == panes@);
        }
        let in_active = match active_tab_idx {
            Some(t) => t == tab,
            None => false,
        };
        if let Some(flag) = flag_tab(panes, pane_agents, in_active, effective_seen) {
            out.insert(tab, flag);
        }
        proof {
            assert forall|j: int|
                0 <= j < i + 1 && want.contains_key((#[trigger] list[j]).0) implies out@.contains_key(
            list[j].0) by {
                if j < i {
                    assert(was.contains_key(list[j].0));
                }
            }
        }
        i += 1;
    }
    proof {
        assert forall|tab: usize| out@.contains_key(tab) <==> want.contains_key(tab) by {
            if want.contains_key(tab) {
                assert(pane_manifest.panes@.contains_key(tab));
                let j = choose|j: int| 0 <= j < list.len() && #[trigger] list[j].0@ == tab;
                assert(out@.contains_key(list[j].0));
            }
        }
        assert(out@ =~= want);
    }
    let marks = match active_tab_idx {
        Some(tab) => match pane_manifest.of_tab(tab) {
            Some(panes) => collect_unseen(panes, pane_agents, effective_seen),
            None => Vec::new(),
        },
        None => Vec::new(),
    };
    assert(mark_views(marks@) =~= to_mark_seen(
        pane_agents@,
        pane_manifest@,
        active_tab_idx,
        effective_seen@,
    ));
    (out, marks)
}

/// A pane holds an agent exactly where an agent of this session is in it; it is
/// busy exactly where one of them is; and its attention is the latest of theirs,
/// kept under the agent that raised it.
pub proof fn projection_sums_up(agents: Seq<Agent>, session: Seq<char>, pane: u32)
    ensures
        projected(agents, session).contains_key(pane) <==> exists|i: int|
            0 <= i < agents.len() && in_pane(#[trigger] agents[i], session, pane),
        projected(agents, session).contains_key(pane) ==> {
            let p = projected(agents, session)[pane];
            &&& p.status is Busy <==> exists|i: int|
                0 <= i < agents.len() && in_pane(#[trigger] agents[i], session, pane)
                    && agents[i].status is Busy
            &&& forall|i: int|
                0 <= i < agents.len() && in_pane(#[trigger] agents[i], session, pane)
                    ==> agents[i].attention_at_ms <= p.attention_at_ms
            &&& exists|i: int|
                0 <= i < agents.len() && in_pane(#[trigger] agents[i], session, pane)
                    && agents[i].attention_at_ms == p.attention_at_ms && agents[i].session_id
                    == p.claude_id
        },
    decreases agents.len(),
{
    if agents.len() > 0 {
        let rest = agents.drop_last();
        let n = agents.len() - 1;
        let a = agents[n];
        projection_sums_up(rest, session, pane);
        assert forall|i: int| 0 <= i < rest.len() implies #[trigger] rest[i] == agents[i] by {}
        let before = projected(rest, session);
        let after = projected(agents, session);
        if in_pane(a, session, pane) {
            assert(after.contains_key(pane));
            if before.contains_key(pane) {
                let k = choose|i: int|
                    0 <= i < rest.len() && in_pane(#[trigger] rest[i], session, pane)
                        && rest[i].attention_at_ms == before[pane].attention_at_ms
                        && rest[i].session_id == before[pane].claude_id;
                assert(in_pane(agents[k], session, pane));
                if before[pane].status is Busy {
                    let b = choose|i: int|
                        0 <= i < rest.len() && in_pane(#[trigger] rest[i], session, pane)
                            && rest[i].status is Busy;
                    assert(in_pane(agents[b], session, pane) && agents[b].status is Busy);
                }
                assert forall|i: int|
                    0 <= i < agents.len() && in_pane(
                        #[trigger] agents[i],
                        session,
                        pane,
                    ) implies agents[i].attention_at_ms <= after[pane].attention_at_ms by {
                    if i < n {
                        assert(in_pane(rest[i], session, pane));
                    }
                }
                if exists|i: int|
                    0 <= i < agents.len() && in_pane(#[trigger] agents[i], session, pane)
                        && agents[i].status is Busy {
                    let b = choose|i: int|
                        0 <= i < agents.len() && in_pane(#[trigger] agents[i], session, pane)
                            && agents[i].status is Busy;
                    if b < n {
                        assert(in_pane(rest[b], session, pane) && rest[b].status is Busy);
                    }
                }
            } else {
                assert forall|i: int|
                    0 <= i < agents.len() && in_pane(#[trigger] agents[i], session, pane) implies i
                    == n by {
                    if i < n {
                        assert(in_pane(rest[i], session, pane));
                    }
                }
            }
        } else {
            assert(after.contains_key(pane) <==> before.contains_key(pane));
            if before.contains_key(pane) {
                assert(after[pane] == before[pane]);
                let k = choose|i: int|
                    0 <= i < rest.len() && in_pane(#[trigger] rest[i], session, pane)
                        && rest[i].attention_at_ms == before[pane].attention_at_ms
                        && rest[i].session_id == before[pane].claude_id;
                assert(in_pane(agents[k], session, pane));
                if before[pane].status is Busy {
                    let b = choose|i: int|
                        0 <= i < rest.len() && in_pane(#[trigger] rest[i], session, pane)
                            && rest[i].status is Busy;
                    assert(in_pane(agents[b], session, pane) && agents[b].status is Busy);
                }
                assert forall|i: int|
                    0 <= i < agents.len() && in_pane(
                        #[trigger] agents[i],
                        session,
                        pane,
                    ) implies agents[i].attention_at_ms <= after[pane].attention_at_ms by {
                    assert(in_pane(rest[i], session, pane));
                }
                if exists|i: int|
                    0 <= i < agents.len() && in_pane(#[trigger] agents[i], session, pane)
                        && agents[i].status is Busy {
                    let b = choose|i: int|
                        0 <= i < agents.len() && in_pane(#[trigger] agents[i], session, pane)
                            && agents[i].status is Busy;
                    assert(in_pane(rest[b], session, pane) && rest[b].status is Busy);
                }
            }
            if exists|i: int|
                0 <= i < agents.len() && in_pane(#[trigger] agents[i], session, pane) {
                let b = choose|i: int|
                    0 <= i < agents.len() && in_pane(#[trigger] agents[i], session, pane);
                assert(in_pane(rest[b], session, pane));
            }
        }
    }
}

/// Attention wins over busy, wherever in the tab the two agents are.
pub proof fn attention_wins(
    panes: Seq<PaneView>,
    agents: Map<u32, PaneAgent>,
    seen: Map<Seq<char>, i64>,
    i: int,
)
    requires
        0 <= i < panes.len(),
        holds(panes[i], agents),
        unseen(agents[panes[i].id], seen),
    ensures
        flag_of_tab(panes, agents, false, seen) == Some(TabFlag::Attention),
{
    assert(asks(panes[i], agents, false, seen));
}

/// The tab the user is looking at never asks for attention.
pub proof fn the_active_tab_never_asks(
    panes: Seq<PaneView>,
    agents: Map<u32, PaneAgent>,
    seen: Map<Seq<char>, i64>,
)
    ensures
        flag_of_tab(panes, agents, true, seen) != Some(TabFlag::Attention),
{
}

} // verus!
