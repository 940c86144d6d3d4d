//! What of the tab in use is to be marked as seen.
use super::{holds, to_mark_seen, unseen, unseen_in, PaneAgent};
use crate::host::PaneView;
use vstd::prelude::*;

verus! {

/// Whether a pane's agent has attention that was not seen.
pub open spec fn calls(
    pane: PaneView,
    agents: Map<u32, PaneAgent>,
    seen: Map<Seq<char>, i64>,
) -> bool {
    !pane.is_plugin && agents.contains_key(pane.id) && agents[pane.id].attention_at_ms > 0 && (
    seen.contains_key(agents[pane.id].claude_id@) ==> agents[pane.id].attention_at_ms
        > seen[agents[pane.id].claude_id@])
}

/// Exactly the agents in terminal panes of the tab in use whose attention was not seen
/// are to be marked, each with the time of that attention.
pub proof fn what_is_looked_at_is_marked(
    agents: Map<u32, PaneAgent>,
    panes: Map<usize, Seq<PaneView>>,
    tab: usize,
    seen: Map<Seq<char>, i64>,
    mark: (Seq<char>, i64),
)
    ensures
        to_mark_seen(agents, panes, Some(tab), seen).contains(mark) <==> panes.contains_key(tab)
            && exists|i: int|
            0 <= i < panes[tab].len() && calls(#[trigger] panes[tab][i], agents, seen)
                && agents[panes[tab][i].id].claude_id@ == mark.0
                && agents[panes[tab][i].id].attention_at_ms == mark.1,
        to_mark_seen(agents, panes, None, seen).len() == 0,
{
    if panes.contains_key(tab) {
        marks_of(panes[tab], agents, seen, mark);
    }
}

proof fn marks_of(
    panes: Seq<PaneView>,
    agents: Map<u32, PaneAgent>,
    seen: Map<Seq<char>, i64>,
    mark: (Seq<char>, i64),
)
    ensures
        unseen_in(panes, agents, seen).contains(mark) <==> exists|i: int|
            0 <= i < panes.len() && calls(#[trigger] panes[i], agents, seen)
                && agents[panes[i].id].claude_id@ == mark.0
                && agents[panes[i].id].attention_at_ms == mark.1,
    decreases panes.len(),
{
    if panes.len() > 0 {
        let rest = panes.drop_last();
        let last = panes.last();
        let before = unseen_in(rest, agents, seen);
        marks_of(rest, agents, seen, mark);
        assert(panes[panes.len() - 1] == last);
        assert(calls(last, agents, seen) <==> holds(last, agents) && unseen(agents[last.id], seen));
        if before.contains(mark) {
            let i = choose|i: int|
                0 <= i < rest.len() && calls(#[trigger] rest[i], agents, seen)
                    && agents[rest[i].id].claude_id@ == mark.0
                    && agents[rest[i].id].attention_at_ms == mark.1;
            assert(panes[i] == rest[i]);
        }
        if exists|i: int|
            0 <= i < panes.len() && calls(#[trigger] panes[i], agents, seen)
                && agents[panes[i].id].claude_id@ == mark.0
                && agents[panes[i].id].attention_at_ms == mark.1 {
            let i = choose|i: int|
                0 <= i < panes.len() && calls(#[trigger] panes[i], agents, seen)
                    && agents[panes[i].id].claude_id@ == mark.0
                    && agents[panes[i].id].attention_at_ms == mark.1;
            if i < rest.len() {
                assert(rest[i] == panes[i]);
            }
        }
        if calls(last, agents, seen) {
            let m = (agents[last.id].claude_id@, agents[last.id].attention_at_ms);
            let all = before.push(m);
            assert(all[before.len() as int] == m);
            if before.contains(mark) {
                let k = choose|k: int| 0 <= k < before.len() && before[k] == mark;
                assert(all[k] == mark);
            }
            if all.contains(mark) {
                let k = choose|k: int| 0 <= k < all.len() && all[k] == mark;
                if k < before.len() {
                    assert(before[k] == mark);
                }
            }
        }
    }
}

} // verus!
