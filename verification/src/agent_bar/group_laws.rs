//! What the grouping promises as a whole.
use super::groups;
use super::groups::SessionMeta;
use crate::readmodel::Agent;
use vstd::prelude::*;
use vstd::relations::*;
use vstd::seq_lib::*;

verus! {

/// The agents of a panel from top to bottom.
pub open spec fn display_order(groups: Seq<groups::GroupView>) -> Seq<Agent>
    decreases groups.len(),
{
    if groups.len() == 0 {
        Seq::empty()
    } else {
        display_order(groups.drop_last()) + groups.last().rows.map_values(
            |r: groups::RowView| r.agent,
        )
    }
}

/// What `group_keys` is: the owed keys, each once, in order.
pub proof fn keys_are_those_owed(agents: Seq<Agent>, sessions: Map<Seq<char>, SessionMeta>)
    requires
        sessions.dom().finite(),
    ensures
        groups::group_keys(agents, sessions).no_duplicates(),
        forall|k: Option<Seq<char>>| #[trigger]
            groups::group_keys(agents, sessions).contains(k) <==> groups::owed(
                agents,
                sessions,
            ).contains(k),
        sorted_by(
            groups::group_keys(agents, sessions),
            groups::group_order(agents, sessions),
        ),
{
    broadcast use vstd::seq_lib::group_to_multiset_ensures;

    let need = groups::owed(agents, sessions);
    let leq = groups::group_order(agents, sessions);
    let keys = groups::group_keys(agents, sessions);
    owed_is_finite(agents, sessions);
    groups::set_in_sequence(need);
    groups::group_order_is_total(agents, sessions);
    let s = need.to_seq();
    s.lemma_sort_by_ensures(leq);
    s.lemma_multiset_has_no_duplicates();
    assert forall|x: Option<Seq<char>>|
        keys.to_multiset().contains(x) implies keys.to_multiset().count(x) == 1 by {
        assert(s.to_multiset().contains(x));
    }
    keys.lemma_multiset_has_no_duplicates_conv();
    assert forall|k: Option<Seq<char>>| #[trigger] keys.contains(k) <==> need.contains(k) by {
        assert(s.contains(k) <==> s.to_set().contains(k));
        assert(keys.contains(k) <==> keys.to_multiset().count(k) > 0);
        assert(s.contains(k) <==> s.to_multiset().count(k) > 0);
    }
}

proof fn owed_is_finite(agents: Seq<Agent>, sessions: Map<Seq<char>, SessionMeta>)
    requires
        sessions.dom().finite(),
    ensures
        groups::owed(agents, sessions).finite(),
{
    let named = sessions.dom().map(|n: Seq<char>| Some(n));
    let meant = agents.map_values(|a: Agent| groups::key_of(a)).to_set();
    sessions.dom().lemma_map_finite(|n: Seq<char>| Some(n));
    seq_to_set_is_finite(agents.map_values(|a: Agent| groups::key_of(a)));
    let all = named.union(meant);
    assert forall|k: Option<Seq<char>>| groups::owed(agents, sessions).contains(k) implies all.contains(
        k,
    ) by {
        if k is Some && sessions.contains_key(k->0) {
            assert(sessions.dom().contains(k->0));
            assert(named.contains(Some(k->0)));
        } else {
            let i = choose|i: int|
                0 <= i < agents.len() && !groups::is_bg(#[trigger] agents[i]) && groups::key_of(
                    agents[i],
                ) == k;
            assert(agents.map_values(|a: Agent| groups::key_of(a))[i] == k);
        }
    }
    vstd::set_lib::lemma_len_subset(groups::owed(agents, sessions), all);
}

/// Every live zellij session gets a header, whether or not it has agents.
pub proof fn every_live_session_has_a_header(
    agents: Seq<Agent>,
    sessions: Map<Seq<char>, SessionMeta>,
    name: Seq<char>,
)
    requires
        sessions.dom().finite(),
        sessions.contains_key(name),
    ensures
        exists|i: int|
            0 <= i < groups::grouping(agents, sessions).len() && (#[trigger] groups::grouping(
                agents,
                sessions,
            )[i]).label == groups::LabelView::Session(name),
{
    keys_are_those_owed(agents, sessions);
    let keys = groups::group_keys(agents, sessions);
    assert(groups::owed(agents, sessions).contains(Some(name)));
    assert(keys.contains(Some(name)));
    let i = choose|i: int| 0 <= i < keys.len() && keys[i] == Some(name);
    assert(groups::grouping(agents, sessions)[i] == groups::group_of(agents, sessions, keys[i]));
}

/// Sessions stand oldest first, those without a session behind every session,
/// and the background agents behind those.
pub proof fn groups_are_in_order(
    agents: Seq<Agent>,
    sessions: Map<Seq<char>, SessionMeta>,
    i: int,
    j: int,
)
    requires
        sessions.dom().finite(),
        0 <= i < j < groups::grouping(agents, sessions).len(),
    ensures
        ({
            let a = groups::grouping(agents, sessions)[i];
            let b = groups::grouping(agents, sessions)[j];
            &&& a.label is Session && b.label is Session ==> a.created_ms <= b.created_ms
            &&& a.label is Sessionless ==> b.label is BackgroundAgents
            &&& a.label !is BackgroundAgents
            &&& a.label != b.label
        }),
{
    keys_are_those_owed(agents, sessions);
    let keys = groups::group_keys(agents, sessions);
    let all = groups::grouping(agents, sessions);
    assert(all[i] == groups::group_of(agents, sessions, keys[i]));
    if j < keys.len() {
        assert(all[j] == groups::group_of(agents, sessions, keys[j]));
        let leq = groups::group_order(agents, sessions);
        assert(leq(keys[i], keys[j]));
        assert(keys[i] != keys[j]);
    }
}

proof fn inserted_keeps_bag(s: Seq<Agent>, a: Agent)
    ensures
        groups::inserted(s, a).to_multiset() == s.to_multiset().insert(a),
    decreases s.len(),
{
    if s.len() == 0 || s.last().started_at_ms <= a.started_at_ms {
        to_multiset_build(s, a);
    } else {
        inserted_keeps_bag(s.drop_last(), a);
        to_multiset_build(groups::inserted(s.drop_last(), a), s.last());
        to_multiset_build(s.drop_last(), s.last());
        assert(s.drop_last().push(s.last()) =~= s);
        assert(s.drop_last().to_multiset().insert(a).insert(s.last())
            =~= s.drop_last().to_multiset().insert(s.last()).insert(a));
    }
}

spec fn started_in_order(s: Seq<Agent>) -> bool {
    forall|i: int, j: int|
        #![trigger s[i], s[j]]
        0 <= i <= j < s.len() ==> s[i].started_at_ms <= s[j].started_at_ms
}

proof fn inserted_keeps_order(s: Seq<Agent>, a: Agent)
    requires
        started_in_order(s),
    ensures
        started_in_order(groups::inserted(s, a)),
        groups::inserted(s, a).len() == s.len() + 1,
        forall|i: int|
            0 <= i < groups::inserted(s, a).len() ==> (#[trigger] groups::inserted(s, a)[i]) == a
                || s.contains(groups::inserted(s, a)[i]),
    decreases s.len(),
{
    let r = groups::inserted(s, a);
    if s.len() == 0 || s.last().started_at_ms <= a.started_at_ms {
        assert forall|i: int, j: int|
            #![trigger r[i], r[j]]
            0 <= i <= j < r.len() implies r[i].started_at_ms <= r[j].started_at_ms by {
            if j == s.len() && i < s.len() {
                assert(s[i].started_at_ms <= s[s.len() - 1].started_at_ms);
            }
        }
        assert forall|i: int| 0 <= i < r.len() implies (#[trigger] r[i]) == a || s.contains(
            r[i],
        ) by {
            if i < s.len() {
                assert(s[i] == r[i]);
            }
        }
    } else {
        let rest = s.drop_last();
        assert forall|i: int, j: int|
            #![trigger rest[i], rest[j]]
            0 <= i <= j < rest.len() implies rest[i].started_at_ms <= rest[j].started_at_ms by {
            assert(s[i].started_at_ms <= s[j].started_at_ms);
        }
        inserted_keeps_order(rest, a);
        let q = groups::inserted(rest, a);
        assert forall|i: int| 0 <= i < q.len() implies (#[trigger] q[i]).started_at_ms
            <= s.last().started_at_ms by {
            if q[i] != a {
                assert(rest.contains(q[i]));
                let k = choose|k: int| 0 <= k < rest.len() && rest[k] == q[i];
                assert(s[k].started_at_ms <= s[s.len() - 1].started_at_ms);
            }
        }
        assert forall|i: int| 0 <= i < r.len() implies (#[trigger] r[i]) == a || s.contains(
            r[i],
        ) by {
            if i < q.len() {
                assert(r[i] == q[i]);
                if q[i] != a {
                    assert(rest.contains(q[i]));
                    let k = choose|k: int| 0 <= k < rest.len() && rest[k] == q[i];
                    assert(s[k] == r[i]);
                }
            } else {
                assert(s[s.len() - 1] == r[i]);
            }
        }
    }
}

/// Ordering agents by their start loses none and adds none, and puts the earlier
/// one first.
pub proof fn by_start_orders(s: Seq<Agent>)
    ensures
        groups::by_start(s).to_multiset() == s.to_multiset(),
        forall|i: int, j: int|
            #![trigger groups::by_start(s)[i], groups::by_start(s)[j]]
            0 <= i <= j < groups::by_start(s).len() ==> groups::by_start(s)[i].started_at_ms
                <= groups::by_start(s)[j].started_at_ms,
    decreases s.len(),
{
    if s.len() > 0 {
        by_start_orders(s.drop_last());
        inserted_keeps_bag(groups::by_start(s.drop_last()), s.last());
        inserted_keeps_order(groups::by_start(s.drop_last()), s.last());
        to_multiset_build(s.drop_last(), s.last());
        assert(s.drop_last().push(s.last()) =~= s);
        assert(started_in_order(groups::by_start(s)));
    } else {
        assert(s =~= Seq::<Agent>::empty());
    }
}

/// Agents that started at the same time, by `t`.
pub open spec fn started_at(t: i64) -> spec_fn(Agent) -> bool {
    |a: Agent| a.started_at_ms == t
}

proof fn inserted_is_stable(s: Seq<Agent>, a: Agent, t: i64)
    requires
        started_in_order(s),
    ensures
        groups::inserted(s, a).filter(started_at(t)) == s.push(a).filter(started_at(t)),
    decreases s.len(),
{
    let p = started_at(t);
    if s.len() > 0 && s.last().started_at_ms > a.started_at_ms {
        let rest = s.drop_last();
        assert forall|i: int, j: int|
            #![trigger rest[i], rest[j]]
            0 <= i <= j < rest.len() implies rest[i].started_at_ms <= rest[j].started_at_ms by {
            assert(s[i].started_at_ms <= s[j].started_at_ms);
        }
        inserted_is_stable(rest, a, t);
        groups::inserted(rest, a).lemma_filter_push(s.last(), p);
        rest.lemma_filter_push(a, p);
        rest.lemma_filter_push(s.last(), p);
        s.lemma_filter_push(a, p);
        assert(rest.push(s.last()) =~= s);
    }
}

/// Of agents that started at the same time, the order is kept.
pub proof fn by_start_is_stable(s: Seq<Agent>, t: i64)
    ensures
        groups::by_start(s).filter(started_at(t)) == s.filter(started_at(t)),
    decreases s.len(),
{
    let p = started_at(t);
    if s.len() > 0 {
        by_start_is_stable(s.drop_last(), t);
        by_start_orders(s.drop_last());
        assert(started_in_order(groups::by_start(s.drop_last())));
        inserted_is_stable(groups::by_start(s.drop_last()), s.last(), t);
        groups::by_start(s.drop_last()).lemma_filter_push(s.last(), p);
        s.drop_last().lemma_filter_push(s.last(), p);
        assert(s.drop_last().push(s.last()) =~= s);
    }
}

proof fn filter_count(s: Seq<Agent>, p: spec_fn(Agent) -> bool, x: Agent)
    ensures
        s.filter(p).to_multiset().count(x) == (if p(x) {
            s.to_multiset().count(x)
        } else {
            0
        }),
    decreases s.len(),
{
    broadcast use vstd::seq_lib::group_to_multiset_ensures;

    reveal(Seq::filter);
    if s.len() > 0 {
        filter_count(s.drop_last(), p, x);
        s.drop_last().lemma_filter_push(s.last(), p);
        to_multiset_build(s.drop_last(), s.last());
        to_multiset_build(s.drop_last().filter(p), s.last());
        assert(s.drop_last().push(s.last()) =~= s);
    }
}

/// The groups of the first `n` keys.
spec fn first_groups(agents: Seq<Agent>, sessions: Map<Seq<char>, SessionMeta>, n: int) -> Seq<
    groups::GroupView,
> {
    groups::group_keys(agents, sessions).take(n).map_values(
        |key: Option<Seq<char>>| groups::group_of(agents, sessions, key),
    )
}

proof fn first_groups_count(
    agents: Seq<Agent>,
    sessions: Map<Seq<char>, SessionMeta>,
    n: int,
    x: Agent,
)
    requires
        sessions.dom().finite(),
        0 <= n <= groups::group_keys(agents, sessions).len(),
    ensures
        display_order(first_groups(agents, sessions, n)).to_multiset().count(x) == (if !groups::is_bg(
            x,
        ) && groups::group_keys(agents, sessions).take(n).contains(groups::key_of(x)) {
            agents.to_multiset().count(x)
        } else {
            0
        }),
    decreases n,
{
    broadcast use vstd::seq_lib::group_to_multiset_ensures;

    let keys = groups::group_keys(agents, sessions);
    let gs = first_groups(agents, sessions, n);
    if n == 0 {
        assert(gs.len() == 0);
    } else {
        keys_are_those_owed(agents, sessions);
        first_groups_count(agents, sessions, n - 1, x);
        let k = keys[n - 1];
        assert(gs.drop_last() =~= first_groups(agents, sessions, n - 1));
        assert(gs.last() == groups::group_of(agents, sessions, k));
        let shown = gs.last().rows.map_values(|r: groups::RowView| r.agent);
        let tops = groups::members(agents, k);
        assert(shown =~= tops);
        lemma_multiset_commutative(display_order(gs.drop_last()), shown);
        by_start_orders(agents.filter(groups::in_group(k)));
        filter_count(agents, groups::in_group(k), x);
        assert(keys.take(n) =~= keys.take(n - 1).push(k));
        let before = keys.take(n - 1);
        assert(!before.contains(k)) by {
            if before.contains(k) {
                let j = choose|j: int| 0 <= j < before.len() && before[j] == k;
                assert(keys[j] == keys[n - 1]);
            }
        }
        assert(keys.take(n).contains(groups::key_of(x)) <==> before.contains(groups::key_of(x))
            || k == groups::key_of(x)) by {
            if before.contains(groups::key_of(x)) {
                let j = choose|j: int| 0 <= j < before.len() && before[j] == groups::key_of(x);
                assert(keys.take(n)[j] == groups::key_of(x));
            }
            if k == groups::key_of(x) {
                assert(keys.take(n)[n - 1] == k);
            }
        }
    }
}

/// The panel shows every agent exactly once.
pub proof fn every_agent_is_shown_once(agents: Seq<Agent>, sessions: Map<Seq<char>, SessionMeta>)
    requires
        sessions.dom().finite(),
    ensures
        display_order(groups::grouping(agents, sessions)).to_multiset() == agents.to_multiset(),
{
    broadcast use vstd::seq_lib::group_to_multiset_ensures;

    let keys = groups::group_keys(agents, sessions);
    let all = groups::grouping(agents, sessions);
    let named = first_groups(agents, sessions, keys.len() as int);
    let bg = groups::background(agents);
    keys_are_those_owed(agents, sessions);
    assert(keys.take(keys.len() as int) =~= keys);
    by_start_orders(agents.filter(groups::in_background()));
    if bg.len() > 0 {
        assert(all.drop_last() =~= named);
        let shown = groups::background_group(agents).rows.map_values(
            |r: groups::RowView| r.agent,
        );
        assert(shown =~= bg);
        lemma_multiset_commutative(display_order(named), bg);
    } else {
        assert(all =~= named);
        assert(bg.to_multiset().len() == 0);
    }
    assert forall|x: Agent|
        display_order(all).to_multiset().count(x) == agents.to_multiset().count(x) by {
        first_groups_count(agents, sessions, keys.len() as int, x);
        filter_count(agents, groups::in_background(), x);
        if !groups::is_bg(x) && agents.contains(x) {
            let i = choose|i: int| 0 <= i < agents.len() && agents[i] == x;
            assert(!groups::is_bg(agents[i]));
            assert(groups::owed(agents, sessions).contains(groups::key_of(x)));
            assert(keys.contains(groups::key_of(x)));
        }
    }
    assert(display_order(all).to_multiset() =~= agents.to_multiset());
}

} // verus!
