//! What a leaving and an arriving client set in motion.
use super::{
    destroyed, destroyed_all, dropped, not_from, of_client, orphans,
    orphans_hold, swept, torn_down, worker_exits, Bridge, Effect, EffectView, Instance, InstanceView,
    PluginId, WorkerMessage,
};
use crate::screen::ClientId;
use crate::seqs;
use vstd::prelude::*;

verus! {

/// A client that leaves while others stay: exactly its instances are dropped, and exactly
/// their workers exit; key presses are given back where one of them intercepted any; and
/// nothing is merely stopped.
pub proof fn a_leaving_client_is_cleared_away(
    b: Bridge,
    c: ClientId,
    plugin_id: PluginId,
    client_id: ClientId,
    worker: Seq<char>,
)
    requires
        b.connected.len() > 0,
    ensures
        ({
            let e = torn_down(b, c).effects;
            &&& e.contains(EffectView::Drop { plugin_id, client_id }) <==> client_id == c && exists|
                i: int,
            |
                0 <= i < b.instances.len() && (#[trigger] b.instances[i]).client_id == c
                    && b.instances[i].plugin_id == plugin_id
            &&& e.contains(EffectView::ExitWorker { plugin_id, client_id, worker }) <==> client_id
                == c && exists|i: int|
                0 <= i < b.instances.len() && (#[trigger] b.instances[i]).client_id == c
                    && b.instances[i].plugin_id == plugin_id && b.instances[i].workers.contains(
                    worker,
                )
            &&& e.contains(EffectView::ClearKeyPressesIntercepts(client_id)) <==> client_id == c
                && exists|i: int|
                0 <= i < b.instances.len() && (#[trigger] b.instances[i]).client_id == c
                    && b.instances[i].intercepting_key_presses
            &&& !e.contains(EffectView::Quiesce { plugin_id, client_id })
        }),
{
    destroyed_effects(b, c, plugin_id, client_id, worker);
}

proof fn destroyed_effects(
    b: Bridge,
    c: ClientId,
    plugin_id: PluginId,
    client_id: ClientId,
    worker: Seq<char>,
)
    ensures
        ({
            let e = destroyed(b, c).effects;
            &&& e.contains(EffectView::Drop { plugin_id, client_id }) <==> client_id == c && exists|
                i: int,
            |
                0 <= i < b.instances.len() && (#[trigger] b.instances[i]).client_id == c
                    && b.instances[i].plugin_id == plugin_id
            &&& e.contains(EffectView::ExitWorker { plugin_id, client_id, worker }) <==> client_id
                == c && exists|i: int|
                0 <= i < b.instances.len() && (#[trigger] b.instances[i]).client_id == c
                    && b.instances[i].plugin_id == plugin_id && b.instances[i].workers.contains(
                    worker,
                )
            &&& e.contains(EffectView::ClearKeyPressesIntercepts(client_id)) <==> client_id == c
                && exists|i: int|
                0 <= i < b.instances.len() && (#[trigger] b.instances[i]).client_id == c
                    && b.instances[i].intercepting_key_presses
            &&& !e.contains(EffectView::Quiesce { plugin_id, client_id })
        }),
{
    let own = b.instances.filter(of_client(c));
    let first = super::intercepts_cleared(own, c);
    let rest = dropped(own);
    let e = first + rest;
    owned(b.instances, c);
    let drop = EffectView::Drop { plugin_id, client_id };
    let exit = EffectView::ExitWorker { plugin_id, client_id, worker };
    let give = EffectView::ClearKeyPressesIntercepts(client_id);
    let stop = EffectView::Quiesce { plugin_id, client_id };
    in_either(first, rest, drop);
    in_either(first, rest, exit);
    in_either(first, rest, give);
    in_either(first, rest, stop);
    dropped_holds(own, plugin_id, client_id, worker);
    if first.len() > 0 {
        assert(first[0] == EffectView::ClearKeyPressesIntercepts(c));
    }
    if client_id == c {
        transfer(b.instances, own, c, |i: InstanceView| i.plugin_id == plugin_id && i.client_id == c);
        transfer(
            b.instances,
            own,
            c,
            |i: InstanceView|
                i.plugin_id == plugin_id && i.client_id == c && i.workers.contains(worker),
        );
        let taps = |i: InstanceView| i.intercepting_key_presses;
        transfer(b.instances, own, c, taps);
        let of = |i: InstanceView| i.plugin_id == plugin_id && i.client_id == c;
        let with = |i: InstanceView|
            i.plugin_id == plugin_id && i.client_id == c && i.workers.contains(worker);
        if exists|i: int| 0 <= i < own.len() && of(#[trigger] own[i]) {
            let i = choose|i: int| 0 <= i < own.len() && of(#[trigger] own[i]);
            assert(own[i].plugin_id == plugin_id);
        }
        if exists|i: int| 0 <= i < own.len() && with(#[trigger] own[i]) {
            let i = choose|i: int| 0 <= i < own.len() && with(#[trigger] own[i]);
            assert(own[i].workers.contains(worker));
        }
        if rest.contains(drop) {
            let i = choose|i: int|
                0 <= i < own.len() && (#[trigger] own[i]).plugin_id == plugin_id && own[i].client_id
                    == client_id;
            assert(of(own[i]));
        }
        if rest.contains(exit) {
            let i = choose|i: int|
                0 <= i < own.len() && (#[trigger] own[i]).plugin_id == plugin_id && own[i].client_id
                    == client_id && own[i].workers.contains(worker);
            assert(with(own[i]));
        }
        if super::any_intercepting(own) {
            let i = choose|i: int| 0 <= i < own.len() && (#[trigger] own[i]).intercepting_key_presses;
            assert(taps(own[i]));
        }
        if exists|i: int| 0 <= i < own.len() && taps(#[trigger] own[i]) {
            let i = choose|i: int| 0 <= i < own.len() && taps(#[trigger] own[i]);
            assert(own[i].intercepting_key_presses);
        }
        if exists|i: int|
            0 <= i < b.instances.len() && (#[trigger] b.instances[i]).client_id == c
                && b.instances[i].plugin_id == plugin_id {
            let i = choose|i: int|
                0 <= i < b.instances.len() && (#[trigger] b.instances[i]).client_id == c
                    && b.instances[i].plugin_id == plugin_id;
            assert(of(b.instances[i]));
        }
        if exists|i: int|
            0 <= i < b.instances.len() && (#[trigger] b.instances[i]).client_id == c
                && b.instances[i].plugin_id == plugin_id && b.instances[i].workers.contains(worker) {
            let i = choose|i: int|
                0 <= i < b.instances.len() && (#[trigger] b.instances[i]).client_id == c
                    && b.instances[i].plugin_id == plugin_id && b.instances[i].workers.contains(
                    worker,
                );
            assert(with(b.instances[i]));
        }
        if exists|i: int|
            0 <= i < b.instances.len() && (#[trigger] b.instances[i]).client_id == c
                && b.instances[i].intercepting_key_presses {
            let i = choose|i: int|
                0 <= i < b.instances.len() && (#[trigger] b.instances[i]).client_id == c
                    && b.instances[i].intercepting_key_presses;
            assert(taps(b.instances[i]));
        }
    } else {
        assert forall|i: int| 0 <= i < own.len() implies (#[trigger] own[i]).client_id != client_id by {
            assert(own.contains(own[i]));
        }
    }
}

proof fn owned(v: Seq<InstanceView>, c: ClientId)
    ensures
        forall|i: InstanceView| #[trigger]
            v.filter(of_client(c)).contains(i) <==> v.contains(i) && i.client_id == c,
{
    seqs::filter_members(v, of_client(c));
}

proof fn transfer(
    all: Seq<InstanceView>,
    own: Seq<InstanceView>,
    c: ClientId,
    p: spec_fn(InstanceView) -> bool,
)
    requires
        own == all.filter(of_client(c)),
    ensures
        (exists|i: int| 0 <= i < own.len() && p(#[trigger] own[i])) <==> exists|i: int|
            0 <= i < all.len() && (#[trigger] all[i]).client_id == c && p(all[i]),
{
    owned(all, c);
    if exists|i: int| 0 <= i < own.len() && p(#[trigger] own[i]) {
        let i = choose|i: int| 0 <= i < own.len() && p(#[trigger] own[i]);
        assert(own.contains(own[i]));
        let j = choose|j: int| 0 <= j < all.len() && all[j] == own[i];
        assert(all[j].client_id == c);
    }
    if exists|i: int| 0 <= i < all.len() && (#[trigger] all[i]).client_id == c && p(all[i]) {
        let i = choose|i: int|
            0 <= i < all.len() && (#[trigger] all[i]).client_id == c && p(all[i]);
        assert(all.contains(all[i]));
        assert(own.contains(all[i]));
        let j = choose|j: int| 0 <= j < own.len() && own[j] == all[i];
        assert(p(own[j]));
    }
}

proof fn in_either<A>(a: Seq<A>, b: Seq<A>, x: A)
    ensures
        (a + b).contains(x) <==> a.contains(x) || b.contains(x),
{
    if a.contains(x) {
        let i = choose|i: int| 0 <= i < a.len() && a[i] == x;
        assert((a + b)[i] == x);
    }
    if b.contains(x) {
        let i = choose|i: int| 0 <= i < b.len() && b[i] == x;
        assert((a + b)[a.len() + i] == x);
    }
    if (a + b).contains(x) {
        let i = choose|i: int| 0 <= i < (a + b).len() && (a + b)[i] == x;
        if i < a.len() {
            assert(a[i] == x);
        } else {
            assert(b[i - a.len()] == x);
        }
    }
}

proof fn dropped_holds(
    v: Seq<InstanceView>,
    plugin_id: PluginId,
    client_id: ClientId,
    worker: Seq<char>,
)
    ensures
        dropped(v).contains(EffectView::Drop { plugin_id, client_id }) <==> exists|i: int|
            0 <= i < v.len() && (#[trigger] v[i]).plugin_id == plugin_id && v[i].client_id
                == client_id,
        dropped(v).contains(EffectView::ExitWorker { plugin_id, client_id, worker })
            <==> exists|i: int|
            0 <= i < v.len() && (#[trigger] v[i]).plugin_id == plugin_id && v[i].client_id
                == client_id && v[i].workers.contains(worker),
        !dropped(v).contains(EffectView::Quiesce { plugin_id, client_id }),
        !dropped(v).contains(EffectView::ClearKeyPressesIntercepts(client_id)),
    decreases v.len(),
{
    if v.len() > 0 {
        let rest = v.drop_last();
        let last = v.last();
        let n = v.len() - 1;
        dropped_holds(rest, plugin_id, client_id, worker);
        let exits = worker_exits(last);
        let own = seq![
            EffectView::Drop { plugin_id: last.plugin_id, client_id: last.client_id },
        ];
        assert(v[n] == last);
        assert(own[0] == EffectView::Drop { plugin_id: last.plugin_id, client_id: last.client_id });
        let drop = EffectView::Drop { plugin_id, client_id };
        let exit = EffectView::ExitWorker { plugin_id, client_id, worker };
        let give = EffectView::ClearKeyPressesIntercepts(client_id);
        let stop = EffectView::Quiesce { plugin_id, client_id };
        in_either(dropped(rest) + exits, own, drop);
        in_either(dropped(rest), exits, drop);
        in_either(dropped(rest) + exits, own, exit);
        in_either(dropped(rest), exits, exit);
        in_either(dropped(rest) + exits, own, give);
        in_either(dropped(rest), exits, give);
        in_either(dropped(rest) + exits, own, stop);
        in_either(dropped(rest), exits, stop);
        if last.workers.contains(worker) {
            let k = choose|k: int| 0 <= k < last.workers.len() && last.workers[k] == worker;
            assert(exits[k] == EffectView::ExitWorker {
                plugin_id: last.plugin_id,
                client_id: last.client_id,
                worker,
            });
        }
        if exits.contains(exit) {
            let k = choose|k: int| 0 <= k < exits.len() && exits[k] == exit;
            assert(last.workers[k] == worker);
        }
        if exists|i: int|
            0 <= i < rest.len() && (#[trigger] rest[i]).plugin_id == plugin_id && rest[i].client_id
                == client_id {
            let i = choose|i: int|
                0 <= i < rest.len() && (#[trigger] rest[i]).plugin_id == plugin_id
                    && rest[i].client_id == client_id;
            assert(v[i] == rest[i]);
        }
        if exists|i: int|
            0 <= i < v.len() && (#[trigger] v[i]).plugin_id == plugin_id && v[i].client_id
                == client_id {
            let i = choose|i: int|
                0 <= i < v.len() && (#[trigger] v[i]).plugin_id == plugin_id && v[i].client_id
                    == client_id;
            if i < n {
                assert(rest[i] == v[i]);
            }
        }
        if exists|i: int|
            0 <= i < rest.len() && (#[trigger] rest[i]).plugin_id == plugin_id && rest[i].client_id
                == client_id && rest[i].workers.contains(worker) {
            let i = choose|i: int|
                0 <= i < rest.len() && (#[trigger] rest[i]).plugin_id == plugin_id
                    && rest[i].client_id == client_id && rest[i].workers.contains(worker);
            assert(v[i] == rest[i]);
        }
        if exists|i: int|
            0 <= i < v.len() && (#[trigger] v[i]).plugin_id == plugin_id && v[i].client_id
                == client_id && v[i].workers.contains(worker) {
            let i = choose|i: int|
                0 <= i < v.len() && (#[trigger] v[i]).plugin_id == plugin_id && v[i].client_id
                    == client_id && v[i].workers.contains(worker);
            if i < n {
                assert(rest[i] == v[i]);
            }
        }
    }
}

/// An instance is dropped after its workers exit, one worker after the other, and after
/// the instances before it.
pub proof fn workers_exit_before_their_instance_goes(v: Seq<InstanceView>, i: InstanceView, k: int)
    ensures
        ({
            let before = dropped(v).len();
            let all = dropped(v.push(i));
            &&& all.len() == before + i.workers.len() + 1
            &&& all.take(before as int) == dropped(v)
            &&& 0 <= k < i.workers.len() ==> all[before + k] == EffectView::ExitWorker {
                plugin_id: i.plugin_id,
                client_id: i.client_id,
                worker: i.workers[k],
            }
            &&& all[all.len() - 1] == EffectView::Drop {
                plugin_id: i.plugin_id,
                client_id: i.client_id,
            }
        }),
{
    assert(v.push(i).drop_last() =~= v);
    assert(dropped(v.push(i)).take(dropped(v).len() as int) =~= dropped(v));
}

/// The last client to leave: exactly its instances are stopped where they are, and stay
/// what they were otherwise; others are not touched. Key presses are given back, and no
/// instance is dropped.
pub proof fn the_last_client_is_only_stopped(
    b: Bridge,
    c: ClientId,
    plugin_id: PluginId,
    client_id: ClientId,
    worker: Seq<char>,
    k: int,
)
    requires
        b.connected.len() == 0,
        0 <= k < b.instances.len(),
    ensures
        ({
            let e = torn_down(b, c).effects;
            let was = b.instances[k];
            let now = torn_down(b, c).bridge.instances[k];
            &&& was.client_id != c ==> now == was
            &&& was.client_id == c ==> now == (InstanceView { quiesced: true, ..was })
            &&& e.contains(EffectView::Quiesce { plugin_id, client_id }) <==> client_id == c
                && exists|i: int|
                0 <= i < b.instances.len() && (#[trigger] b.instances[i]).client_id == c
                    && b.instances[i].plugin_id == plugin_id
            &&& e.contains(EffectView::ClearKeyPressesIntercepts(client_id)) <==> client_id == c
                && exists|i: int|
                0 <= i < b.instances.len() && (#[trigger] b.instances[i]).client_id == c
                    && b.instances[i].intercepting_key_presses
            &&& !e.contains(EffectView::Drop { plugin_id, client_id })
            &&& !e.contains(EffectView::ExitWorker { plugin_id, client_id, worker })
        }),
{
    let own = b.instances.filter(of_client(c));
    let stops = super::quiet_effects(own);
    let gives = super::intercepts_cleared(own, c);
    owned(b.instances, c);
    let stop = EffectView::Quiesce { plugin_id, client_id };
    let give = EffectView::ClearKeyPressesIntercepts(client_id);
    in_either(stops, gives, stop);
    in_either(stops, gives, give);
    in_either(stops, gives, EffectView::Drop { plugin_id, client_id });
    in_either(stops, gives, EffectView::ExitWorker { plugin_id, client_id, worker });
    if gives.len() > 0 {
        assert(gives[0] == EffectView::ClearKeyPressesIntercepts(c));
    }
    assert forall|i: int| 0 <= i < own.len() implies (#[trigger] own[i]).client_id == c
        && b.instances.contains(own[i]) by {
        assert(own.contains(own[i]));
    }
    assert forall|i: int| 0 <= i < stops.len() implies #[trigger] stops[i] == (EffectView::Quiesce {
        plugin_id: own[i].plugin_id,
        client_id: c,
    }) by {
        assert(own[i].client_id == c);
    }
    if stops.contains(stop) {
        let i = choose|i: int| 0 <= i < stops.len() && stops[i] == stop;
        assert(own[i].plugin_id == plugin_id);
        let j = choose|j: int| 0 <= j < b.instances.len() && b.instances[j] == own[i];
        assert(b.instances[j].client_id == c);
    }
    if client_id == c && exists|i: int|
        0 <= i < b.instances.len() && (#[trigger] b.instances[i]).client_id == c
            && b.instances[i].plugin_id == plugin_id {
        let i = choose|i: int|
            0 <= i < b.instances.len() && (#[trigger] b.instances[i]).client_id == c
                && b.instances[i].plugin_id == plugin_id;
        assert(own.contains(b.instances[i]));
        let j = choose|j: int| 0 <= j < own.len() && own[j] == b.instances[i];
        assert(stops[j] == stop);
    }
    let taps = |i: InstanceView| i.intercepting_key_presses;
    transfer(b.instances, own, c, taps);
    if super::any_intercepting(own) {
        let i = choose|i: int| 0 <= i < own.len() && (#[trigger] own[i]).intercepting_key_presses;
        assert(taps(own[i]));
    }
    if exists|i: int| 0 <= i < own.len() && taps(#[trigger] own[i]) {
        let i = choose|i: int| 0 <= i < own.len() && taps(#[trigger] own[i]);
        assert(own[i].intercepting_key_presses);
    }
    if exists|i: int|
        0 <= i < b.instances.len() && (#[trigger] b.instances[i]).client_id == c
            && b.instances[i].intercepting_key_presses {
        let i = choose|i: int|
            0 <= i < b.instances.len() && (#[trigger] b.instances[i]).client_id == c
                && b.instances[i].intercepting_key_presses;
        assert(taps(b.instances[i]));
    }
}

/// What is kept for other clients stays: their key bindings, their base modes, and the
/// messages for their workers. What is remembered of how plugins were loaded goes, and
/// who is connected is not touched.
pub proof fn what_is_kept_for_others_stays(
    b: Bridge,
    c: ClientId,
    other: ClientId,
    plugin_id: PluginId,
    m: WorkerMessage,
)
    requires
        other != c,
        m.client_id != c,
    ensures
        ({
            let q = torn_down(b, c).bridge;
            &&& q.keybinds.contains_key(other) <==> b.keybinds.contains_key(other)
            &&& b.keybinds.contains_key(other) ==> q.keybinds[other] == b.keybinds[other]
            &&& q.base_modes.contains_key(other) <==> b.base_modes.contains_key(other)
            &&& b.base_modes.contains_key(other) ==> q.base_modes[other] == b.base_modes[other]
            &&& q.worker_messages.contains_key(plugin_id) <==> b.worker_messages.contains_key(
                plugin_id,
            )
            &&& b.worker_messages.contains_key(plugin_id) ==> (
            q.worker_messages[plugin_id].contains(m) <==> b.worker_messages[plugin_id].contains(m))
            &&& !q.cached_plugins.contains_key(plugin_id)
            &&& q.connected == b.connected
        }),
{
    if b.worker_messages.contains_key(plugin_id) {
        seqs::filter_members(b.worker_messages[plugin_id], not_from(c));
    }
}

/// When a client arrives, exactly the entries of clients that are neither attached nor
/// arriving are dropped, and those of the others stay.
pub proof fn an_arrival_sweeps_what_was_left(
    b: Bridge,
    incoming: ClientId,
    i: InstanceView,
    plugin_id: PluginId,
    client_id: ClientId,
)
    ensures
        swept(b, incoming).bridge.instances.contains(i) <==> b.instances.contains(i) && (
        i.client_id == incoming || b.connected.contains(i.client_id)),
        swept(b, incoming).effects.contains(EffectView::Drop { plugin_id, client_id }) <==> client_id
            != incoming && !b.connected.contains(client_id) && exists|k: int|
            0 <= k < b.instances.len() && (#[trigger] b.instances[k]).client_id == client_id
                && b.instances[k].plugin_id == plugin_id,
        swept(b, incoming).bridge.connected == b.connected,
{
    super::a_sweep_leaves_no_carcass(b, incoming, i);
    let clients = orphans(b.instances, b.connected, incoming);
    orphans_hold(b.instances, b.connected, incoming);
    super::destroyed_all_members(b, clients, i);
    all_dropped(b, clients, plugin_id, client_id);
    if clients.contains(client_id) {
        let k = choose|k: int|
            0 <= k < b.instances.len() && super::is_orphan(
                #[trigger] b.instances[k],
                b.connected,
                incoming,
            ) && b.instances[k].client_id == client_id;
        assert(b.instances[k].client_id == client_id);
    }
    if client_id != incoming && !b.connected.contains(client_id) && exists|k: int|
        0 <= k < b.instances.len() && (#[trigger] b.instances[k]).client_id == client_id
            && b.instances[k].plugin_id == plugin_id {
        let k = choose|k: int|
            0 <= k < b.instances.len() && (#[trigger] b.instances[k]).client_id == client_id
                && b.instances[k].plugin_id == plugin_id;
        assert(super::is_orphan(b.instances[k], b.connected, incoming));
        assert(clients.contains(client_id));
    }
}

proof fn all_dropped(b: Bridge, clients: Seq<ClientId>, plugin_id: PluginId, client_id: ClientId)
    ensures
        destroyed_all(b, clients).effects.contains(EffectView::Drop { plugin_id, client_id })
            <==> clients.contains(client_id) && exists|k: int|
            0 <= k < b.instances.len() && (#[trigger] b.instances[k]).client_id == client_id
                && b.instances[k].plugin_id == plugin_id,
    decreases clients.len(),
{
    let drop = EffectView::Drop { plugin_id, client_id };
    let has = exists|k: int|
        0 <= k < b.instances.len() && (#[trigger] b.instances[k]).client_id == client_id
            && b.instances[k].plugin_id == plugin_id;
    if clients.len() > 0 {
        let rest = clients.drop_last();
        let c = clients.last();
        let before = destroyed_all(b, rest);
        all_dropped(b, rest, plugin_id, client_id);
        destroyed_effects(before.bridge, c, plugin_id, client_id, Seq::empty());
        in_either(before.effects, destroyed(before.bridge, c).effects, drop);
        assert(clients.contains(client_id) <==> rest.contains(client_id) || client_id == c) by {
            if rest.contains(client_id) {
                let k = choose|k: int| 0 <= k < rest.len() && rest[k] == client_id;
                assert(clients[k] == client_id);
            }
            assert(clients[clients.len() - 1] == c);
            if clients.contains(client_id) {
                let k = choose|k: int| 0 <= k < clients.len() && clients[k] == client_id;
                if k < rest.len() {
                    assert(rest[k] == client_id);
                }
            }
        }
        let left = before.bridge.instances;
        if exists|k: int|
            0 <= k < left.len() && (#[trigger] left[k]).client_id == c && left[k].plugin_id
                == plugin_id {
            let k = choose|k: int|
                0 <= k < left.len() && (#[trigger] left[k]).client_id == c && left[k].plugin_id
                    == plugin_id;
            assert(left.contains(left[k]));
            super::destroyed_all_members(b, rest, left[k]);
            let j = choose|j: int| 0 <= j < b.instances.len() && b.instances[j] == left[k];
            assert(b.instances[j].client_id == c);
        }
        if has && client_id == c && !rest.contains(c) {
            let k = choose|k: int|
                0 <= k < b.instances.len() && (#[trigger] b.instances[k]).client_id == client_id
                    && b.instances[k].plugin_id == plugin_id;
            assert(b.instances.contains(b.instances[k]));
            super::destroyed_all_members(b, rest, b.instances[k]);
            let j = choose|j: int| 0 <= j < left.len() && left[j] == b.instances[k];
            assert(left[j].client_id == c);
        }
    }
}

/// An effect is what it is called, and an instance is what it is.
pub proof fn effects_are_what_they_are_called(e: Effect, i: Instance)
    ensures
        e matches Effect::ClearKeyPressesIntercepts(c) ==> e@
            == EffectView::ClearKeyPressesIntercepts(c),
        e matches Effect::Quiesce { plugin_id, client_id } ==> e@ == (EffectView::Quiesce {
            plugin_id,
            client_id,
        }),
        e matches Effect::ExitWorker { plugin_id, client_id, worker } ==> e@ == (
        EffectView::ExitWorker { plugin_id, client_id, worker: worker@ }),
        e matches Effect::Drop { plugin_id, client_id } ==> e@ == (EffectView::Drop {
            plugin_id,
            client_id,
        }),
        i@.plugin_id == i.plugin_id,
        i@.client_id == i.client_id,
        i@.intercepting_key_presses == i.intercepting_key_presses,
        i@.quiesced == i.quiesced,
{
}

} // verus!
