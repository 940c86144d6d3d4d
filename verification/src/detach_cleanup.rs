//! What becomes of a client's plugin instances when it leaves.
//!
//! The entries of the last client to leave are quiesced and kept: a client that
//! attaches later learns from them which plugins there are. They are swept when
//! it has.
use crate::dict::Dict;
use crate::host::InputMode;
use crate::screen::ClientId;
use crate::seqs;
use crate::text;
use vstd::prelude::*;

pub mod laws;

verus! {

pub type PluginId = u32;

/// One plugin instance of one client.
#[derive(Debug)]
pub struct Instance {
    pub plugin_id: PluginId,
    pub client_id: ClientId,
    pub intercepting_key_presses: bool,
    /// The names of its workers.
    pub workers: Vec<String>,
    /// Stopped, and only kept for what it says about the plugin.
    pub quiesced: bool,
}

#[verifier::ext_equal]
pub ghost struct InstanceView {
    pub plugin_id: PluginId,
    pub client_id: ClientId,
    pub intercepting_key_presses: bool,
    pub workers: Seq<Seq<char>>,
    pub quiesced: bool,
}

impl View for Instance {
    type V = InstanceView;

    open spec fn view(&self) -> InstanceView {
        InstanceView {
            plugin_id: self.plugin_id,
            client_id: self.client_id,
            intercepting_key_presses: self.intercepting_key_presses,
            workers: text::texts(self.workers@),
            quiesced: self.quiesced,
        }
    }
}

pub open spec fn instance_views(v: Seq<Instance>) -> Seq<InstanceView> {
    v.map_values(|i: Instance| i@)
}

/// A message kept for a worker that is not up yet.
#[derive(Debug)]
pub struct WorkerMessage {
    pub client_id: ClientId,
    pub worker: String,
    pub message: String,
    pub payload: String,
}

/// What the rest of the server is to do.
#[derive(Debug)]
pub enum Effect {
    /// Tell the screen that no plugin of the client intercepts key presses.
    ClearKeyPressesIntercepts(ClientId),
    /// Stop the instance where it is.
    Quiesce { plugin_id: PluginId, client_id: ClientId },
    ExitWorker { plugin_id: PluginId, client_id: ClientId, worker: String },
    /// Remove the instance's own data, and drop it on the thread it runs on.
    Drop { plugin_id: PluginId, client_id: ClientId },
}

pub ghost enum EffectView {
    ClearKeyPressesIntercepts(ClientId),
    Quiesce { plugin_id: PluginId, client_id: ClientId },
    ExitWorker { plugin_id: PluginId, client_id: ClientId, worker: Seq<char> },
    Drop { plugin_id: PluginId, client_id: ClientId },
}

impl View for Effect {
    type V = EffectView;

    open spec fn view(&self) -> EffectView {
        match self {
            Effect::ClearKeyPressesIntercepts(c) => EffectView::ClearKeyPressesIntercepts(*c),
            Effect::Quiesce { plugin_id, client_id } => EffectView::Quiesce {
                plugin_id: *plugin_id,
                client_id: *client_id,
            },
            Effect::ExitWorker { plugin_id, client_id, worker } => EffectView::ExitWorker {
                plugin_id: *plugin_id,
                client_id: *client_id,
                worker: worker@,
            },
            Effect::Drop { plugin_id, client_id } => EffectView::Drop {
                plugin_id: *plugin_id,
                client_id: *client_id,
            },
        }
    }
}

pub open spec fn effect_views(v: Seq<Effect>) -> Seq<EffectView> {
    v.map_values(|e: Effect| e@)
}

pub struct WasmBridge {
    pub connected_clients: Vec<ClientId>,
    pub plugin_map: Vec<Instance>,
    /// By client, its key bindings, encoded.
    pub keybinds: Dict<ClientId, Vec<u8>>,
    pub base_modes: Dict<ClientId, InputMode>,
    /// By plugin, the messages kept for its workers.
    pub cached_worker_messages: Dict<PluginId, Vec<WorkerMessage>>,
    /// By plugin, what is remembered of how it was loaded, encoded.
    pub cached_plugin_map: Dict<PluginId, Vec<u8>>,
}

/// The state of a bridge. Messages are told apart as they are.
#[verifier::ext_equal]
pub ghost struct Bridge {
    pub connected: Seq<ClientId>,
    pub instances: Seq<InstanceView>,
    pub keybinds: Map<ClientId, Vec<u8>>,
    pub base_modes: Map<ClientId, InputMode>,
    pub worker_messages: Map<PluginId, Seq<WorkerMessage>>,
    pub cached_plugins: Map<PluginId, Vec<u8>>,
}

pub open spec fn message_lists(m: Map<PluginId, Vec<WorkerMessage>>) -> Map<
    PluginId,
    Seq<WorkerMessage>,
> {
    m.map_values(|v: Vec<WorkerMessage>| v@)
}

impl View for WasmBridge {
    type V = Bridge;

    open spec fn view(&self) -> Bridge {
        Bridge {
            connected: self.connected_clients@,
            instances: instance_views(self.plugin_map@),
            keybinds: self.keybinds@,
            base_modes: self.base_modes@,
            worker_messages: message_lists(self.cached_worker_messages@),
            cached_plugins: self.cached_plugin_map@,
        }
    }
}

pub open spec fn of_client(c: ClientId) -> spec_fn(InstanceView) -> bool {
    |i: InstanceView| i.client_id == c
}

pub open spec fn of_others(c: ClientId) -> spec_fn(InstanceView) -> bool {
    |i: InstanceView| i.client_id != c
}

pub open spec fn not_from(c: ClientId) -> spec_fn(WorkerMessage) -> bool {
    |m: WorkerMessage| m.client_id != c
}

/// What is kept for one client is forgotten.
pub open spec fn cleared(b: Bridge, c: ClientId) -> Bridge {
    Bridge {
        keybinds: b.keybinds.remove(c),
        base_modes: b.base_modes.remove(c),
        worker_messages: b.worker_messages.map_values(
            |l: Seq<WorkerMessage>| l.filter(not_from(c)),
        ),
        cached_plugins: Map::empty(),
        ..b
    }
}

pub open spec fn any_intercepting(v: Seq<InstanceView>) -> bool {
    exists|i: int| 0 <= i < v.len() && (#[trigger] v[i]).intercepting_key_presses
}

/// Key presses are no longer intercepted for a client, where they were.
pub open spec fn intercepts_cleared(v: Seq<InstanceView>, c: ClientId) -> Seq<EffectView> {
    if any_intercepting(v) {
        seq![EffectView::ClearKeyPressesIntercepts(c)]
    } else {
        Seq::empty()
    }
}

pub open spec fn worker_exits(i: InstanceView) -> Seq<EffectView> {
    i.workers.map_values(
        |w: Seq<char>|
            EffectView::ExitWorker { plugin_id: i.plugin_id, client_id: i.client_id, worker: w },
    )
}

/// An instance goes: its workers exit, then it is dropped.
pub open spec fn dropped(v: Seq<InstanceView>) -> Seq<EffectView>
    decreases v.len(),
{
    if v.len() == 0 {
        Seq::empty()
    } else {
        dropped(v.drop_last()) + worker_exits(v.last()) + seq![
            EffectView::Drop { plugin_id: v.last().plugin_id, client_id: v.last().client_id },
        ]
    }
}

#[verifier::ext_equal]
pub ghost struct Cleaned {
    pub bridge: Bridge,
    pub effects: Seq<EffectView>,
}

/// A client's instances are gone, with all that was kept for it.
pub open spec fn destroyed(b: Bridge, c: ClientId) -> Cleaned {
    let removed = b.instances.filter(of_client(c));
    Cleaned {
        bridge: cleared(Bridge { instances: b.instances.filter(of_others(c)), ..b }, c),
        effects: intercepts_cleared(removed, c) + dropped(removed),
    }
}

/// An instance of the client, stopped in place; any other as it is.
pub open spec fn quieted(i: InstanceView, c: ClientId) -> InstanceView {
    if i.client_id == c {
        InstanceView { quiesced: true, ..i }
    } else {
        i
    }
}

pub open spec fn quiet_effects(v: Seq<InstanceView>) -> Seq<EffectView> {
    v.map_values(
        |i: InstanceView| EffectView::Quiesce { plugin_id: i.plugin_id, client_id: i.client_id },
    )
}

/// A client's instances are stopped where they are, and their entries kept.
pub open spec fn quiesced(b: Bridge, c: ClientId) -> Cleaned {
    let own = b.instances.filter(of_client(c));
    Cleaned {
        bridge: cleared(
            Bridge { instances: b.instances.map_values(|i: InstanceView| quieted(i, c)), ..b },
            c,
        ),
        effects: quiet_effects(own) + intercepts_cleared(own, c),
    }
}

/// A client has left. The last one leaves its entries behind.
pub open spec fn torn_down(b: Bridge, c: ClientId) -> Cleaned {
    if b.connected.len() == 0 {
        quiesced(b, c)
    } else {
        destroyed(b, c)
    }
}

/// Whether an entry belongs to a client that is neither attached nor arriving.
pub open spec fn is_orphan(i: InstanceView, connected: Seq<ClientId>, incoming: ClientId) -> bool {
    !connected.contains(i.client_id) && i.client_id != incoming
}

/// The clients that left entries behind, each once.
pub open spec fn orphans(
    v: Seq<InstanceView>,
    connected: Seq<ClientId>,
    incoming: ClientId,
) -> Seq<ClientId>
    decreases v.len(),
{
    if v.len() == 0 {
        Seq::empty()
    } else {
        let before = orphans(v.drop_last(), connected, incoming);
        let i = v.last();
        if is_orphan(i, connected, incoming) && !before.contains(i.client_id) {
            before.push(i.client_id)
        } else {
            before
        }
    }
}

pub open spec fn destroyed_all(b: Bridge, clients: Seq<ClientId>) -> Cleaned
    decreases clients.len(),
{
    if clients.len() == 0 {
        Cleaned { bridge: b, effects: Seq::empty() }
    } else {
        let before = destroyed_all(b, clients.drop_last());
        let last = destroyed(before.bridge, clients.last());
        Cleaned { bridge: last.bridge, effects: before.effects + last.effects }
    }
}

/// A client has arrived: what earlier ones left behind goes.
pub open spec fn swept(b: Bridge, incoming: ClientId) -> Cleaned {
    destroyed_all(b, orphans(b.instances, b.connected, incoming))
}

fn push_effect(effects: &mut Vec<Effect>, e: Effect)
    ensures
        effect_views(final(effects)@) == effect_views(old(effects)@).push(e@),
{
    effects.push(e);
    assert(effect_views(effects@) =~= effect_views(old(effects)@).push(e@));
}

fn intercepts(v: &Vec<Instance>) -> (r: bool)
    ensures
        r == any_intercepting(instance_views(v@)),
{
    let ghost all = instance_views(v@);
    let mut i: usize = 0;
    while i < v.len()
        invariant
            i <= v.len(),
            all == instance_views(v@),
            forall|j: int| 0 <= j < i ==> !(#[trigger] all[j]).intercepting_key_presses,
        decreases v.len() - i,
    {
        assert(all[i as int] == v@[i as int]@);
        if v[i].intercepting_key_presses {
            return true;
        }
        i += 1;
    }
    false
}

fn drop_instances(removed: &Vec<Instance>, effects: &mut Vec<Effect>)
    ensures
        effect_views(final(effects)@) == effect_views(old(effects)@) + dropped(
            instance_views(removed@),
        ),
{
    let ghost all = instance_views(removed@);
    let ghost before = effect_views(effects@);
    let mut i: usize = 0;
    proof {
        assert(all.take(0) =~= Seq::<InstanceView>::empty());
        assert(before =~= before + dropped(all.take(0)));
    }
    while i < removed.len()
        invariant
            i <= removed.len(),
            all == instance_views(removed@),
            effect_views(effects@) == before + dropped(all.take(i as int)),
        decreases removed.len() - i,
    {
        let inst = &removed[i];
        let ghost held = effect_views(effects@);
        let ghost exits = worker_exits(inst@);
        let mut j: usize = 0;
        assert(held =~= held + exits.take(0));
        while j < inst.workers.len()
            invariant
                j <= inst.workers.len(),
                exits == worker_exits(inst@),
                exits.len() == inst.workers.len(),
                effect_views(effects@) == held + exits.take(j as int),
            decreases inst.workers.len() - j,
        {
            proof {
                assert(exits[j as int] == EffectView::ExitWorker {
                    plugin_id: inst.plugin_id,
                    client_id: inst.client_id,
                    worker: inst.workers@[j as int]@,
                });
                assert(held + exits.take(j + 1) =~= (held + exits.take(j as int)).push(
                    exits[j as int],
                ));
            }
            push_effect(
                effects,
                Effect::ExitWorker {
                    plugin_id: inst.plugin_id,
                    client_id: inst.client_id,
                    worker: inst.workers[j].clone(),
                },
            );
            j += 1;
        }
        assert(exits.take(j as int) =~= exits);
        push_effect(
            effects,
            Effect::Drop { plugin_id: inst.plugin_id, client_id: inst.client_id },
        );
        proof {
            assert(all[i as int] == inst@);
            assert(all.take(i + 1).drop_last() =~= all.take(i as int));
            assert(effect_views(effects@) =~= before + dropped(all.take(i + 1)));
        }
        i += 1;
    }
    assert(all.take(i as int) =~= all);
}

impl WasmBridge {
    fn clear_per_client_bridge_state(&mut self, client_id: ClientId)
        ensures
            final(self)@ == cleared(old(self)@, client_id),
    {
        let ghost before = self@;
        self.keybinds.remove(&client_id);
        self.base_modes.remove(&client_id);
        let ghost messages = self.cached_worker_messages@;
        let n = self.cached_worker_messages.len();
        let ghost list = self.cached_worker_messages.list();
        let ghost want = before.worker_messages.map_values(
            |l: Seq<WorkerMessage>| l.filter(not_from(client_id)),
        );
        let mut kept: Dict<PluginId, Vec<WorkerMessage>> = Dict::new();
        let mut i: usize = 0;
        while i < n
            invariant
                i <= n,
                n == list.len(),
                list == self.cached_worker_messages.list(),
                messages == self.cached_worker_messages@,
                self.cached_worker_messages.is_listed(),
                self.connected_clients@ == before.connected,
                instance_views(self.plugin_map@) == before.instances,
                self.keybinds@ == before.keybinds.remove(client_id),
                self.base_modes@ == before.base_modes.remove(client_id),
                before.worker_messages == message_lists(messages),
                want == before.worker_messages.map_values(
                    |l: Seq<WorkerMessage>| l.filter(not_from(client_id)),
                ),
                forall|k: PluginId| #[trigger]
                    kept@.contains_key(k) ==> messages.contains_key(k) && kept@[k]@
                        == messages[k]@.filter(not_from(client_id)),
                forall|j: int| 0 <= j < i ==> kept@.contains_key((#[trigger] list[j]).0),
            decreases n - i,
        {
            let plugin = *self.cached_worker_messages.key_at(i);
            let ghost was = kept@;
            assert(list[i as int].0@ == plugin);
            assert(messages.contains_key(list[i as int].0@));
            let left = keep_from_others(self.cached_worker_messages.value_at(i), client_id);
            kept.insert(plugin, left);
            proof {
                assert forall|j: int| 0 <= j < i + 1 implies kept@.contains_key(
                    (#[trigger] list[j]).0,
                ) by {
                    if j < i {
                        assert(was.contains_key(list[j].0));
                    }
                }
            }
            i += 1;
        }
        proof {
            assert forall|k: PluginId| message_lists(kept@).contains_key(k) <==> want.contains_key(
                k,
            ) by {
                if want.contains_key(k) {
                    assert(messages.contains_key(k));
                    let j = choose|j: int| 0 <= j < list.len() && #[trigger] list[j].0@ == k;
                    assert(kept@.contains_key(list[j].0));
                }
            }
            assert(message_lists(kept@) =~= want);
        }
        self.cached_worker_messages = kept;
        self.cached_plugin_map = Dict::new();
        assert(self@ =~= cleared(before, client_id));
    }

    /// Remove a client's instances, and return them.
    fn take_instances(&mut self, client_id: ClientId) -> (r: Vec<Instance>)
        ensures
            instance_views(r@) == old(self)@.instances.filter(of_client(client_id)),
            final(self)@ == (Bridge {
                instances: old(self)@.instances.filter(of_others(client_id)),
                ..old(self)@
            }),
    {
        let ghost before = self@;
        let ghost all = before.instances;
        let mut entries: Vec<Instance> = Vec::new();
        std::mem::swap(&mut entries, &mut self.plugin_map);
        let ghost held_all = entries@;
        assert(all == instance_views(held_all));
        let mut kept: Vec<Instance> = Vec::new();
        let mut removed: Vec<Instance> = Vec::new();
        let n = entries.len();
        let mut i: usize = 0;
        proof {
            seqs::filter_none(all, of_client(client_id));
            seqs::filter_none(all, of_others(client_id));
            assert(instance_views(kept@) =~= Seq::<InstanceView>::empty());
            assert(instance_views(removed@) =~= Seq::<InstanceView>::empty());
            assert(held_all.skip(0) =~= held_all);
        }
        while i < n
            invariant
                i <= n,
                n == held_all.len(),
                all == instance_views(held_all),
                entries@ == held_all.skip(i as int),
                instance_views(removed@) == all.take(i as int).filter(of_client(client_id)),
                instance_views(kept@) == all.take(i as int).filter(of_others(client_id)),
            decreases n - i,
        {
            proof {
                seqs::filter_step(all, of_client(client_id), i as int);
                seqs::filter_step(all, of_others(client_id), i as int);
            }
            let inst = entries.remove(0);
            assert(inst == held_all[i as int]);
            assert(entries@ =~= held_all.skip(i + 1));
            assert(all[i as int] == inst@);
            if inst.client_id == client_id {
                let ghost held = instance_views(removed@);
                let ghost v = inst@;
                removed.push(inst);
                assert(instance_views(removed@) =~= held.push(v));
            } else {
                let ghost held = instance_views(kept@);
                let ghost v = inst@;
                kept.push(inst);
                assert(instance_views(kept@) =~= held.push(v));
            }
            i += 1;
        }
        assert(all.take(i as int) =~= all);
        self.plugin_map = kept;
        assert(self@ =~= (Bridge { instances: all.filter(of_others(client_id)), ..before }));
        removed
    }

    fn destroy_instances_for(&mut self, client_id: ClientId, effects: &mut Vec<Effect>)
        ensures
            final(self)@ == destroyed(old(self)@, client_id).bridge,
            effect_views(final(effects)@) == effect_views(old(effects)@) + destroyed(
                old(self)@,
                client_id,
            ).effects,
    {
        let removed = self.take_instances(client_id);
        if intercepts(&removed) {
            push_effect(effects, Effect::ClearKeyPressesIntercepts(client_id));
        }
        drop_instances(&removed, effects);
        self.clear_per_client_bridge_state(client_id);
        assert(effect_views(effects@) =~= effect_views(old(effects)@) + destroyed(
            old(self)@,
            client_id,
        ).effects);
    }

    /// Stop a client's instances where they are; whether any of them intercepted
    /// key presses.
    fn quiesce_client_instances(&mut self, client_id: ClientId, effects: &mut Vec<Effect>) -> (r:
        bool)
        ensures
            final(self)@ == (Bridge {
                instances: old(self)@.instances.map_values(
                    |i: InstanceView| quieted(i, client_id),
                ),
                ..old(self)@
            }),
            r == any_intercepting(old(self)@.instances.filter(of_client(client_id))),
            effect_views(final(effects)@) == effect_views(old(effects)@) + quiet_effects(
                old(self)@.instances.filter(of_client(client_id)),
            ),
    {
        let ghost b0 = self@;
        let ghost all = b0.instances;
        let ghost p = of_client(client_id);
        let ghost before = effect_views(effects@);
        let mut any = false;
        let mut i: usize = 0;
        proof {
            seqs::filter_none(all, p);
            assert(before =~= before + quiet_effects(all.take(0).filter(p)));
        }
        while i < self.plugin_map.len()
            invariant
                i <= self.plugin_map.len(),
                all == b0.instances,
                all.len() == self.plugin_map.len(),
                p == of_client(client_id),
                self.connected_clients@ == b0.connected,
                self.keybinds@ == b0.keybinds,
                self.base_modes@ == b0.base_modes,
                message_lists(self.cached_worker_messages@) == b0.worker_messages,
                self.cached_plugin_map@ == b0.cached_plugins,
                forall|j: int|
                    0 <= j < i ==> (#[trigger] self.plugin_map@[j])@ == quieted(all[j], client_id),
                forall|j: int|
                    i <= j < self.plugin_map.len() ==> (#[trigger] self.plugin_map@[j])@ == all[j],
                any == any_intercepting(all.take(i as int).filter(p)),
                effect_views(effects@) == before + quiet_effects(all.take(i as int).filter(p)),
            decreases self.plugin_map.len() - i,
        {
            proof {
                seqs::filter_step(all, p, i as int);
                assert(self.plugin_map@[i as int]@ == all[i as int]);
            }
            if self.plugin_map[i].client_id == client_id {
                let ghost own = all.take(i as int).filter(p);
                let ghost inst = all[i as int];
                if self.plugin_map[i].intercepting_key_presses {
                    any = true;
                    assert(own.push(inst)[own.len() as int].intercepting_key_presses);
                }
                proof {
                    assert(any == any_intercepting(own.push(inst))) by {
                        if any_intercepting(own) {
                            let k = choose|k: int|
                                0 <= k < own.len() && (#[trigger] own[k]).intercepting_key_presses;
                            assert(own.push(inst)[k].intercepting_key_presses);
                        }
                        if any_intercepting(own.push(inst)) {
                            let k = choose|k: int|
                                0 <= k < own.push(inst).len() && (
                                #[trigger] own.push(inst)[k]).intercepting_key_presses;
                            if k < own.len() {
                                assert(own[k].intercepting_key_presses);
                            }
                        }
                    }
                    assert(quiet_effects(own.push(inst)) =~= quiet_effects(own).push(
                        EffectView::Quiesce {
                            plugin_id: inst.plugin_id,
                            client_id: inst.client_id,
                        },
                    ));
                }
                let plugin_id = self.plugin_map[i].plugin_id;
                push_effect(effects, Effect::Quiesce { plugin_id, client_id });
                self.plugin_map[i].quiesced = true;
                assert(self.plugin_map@[i as int]@ =~= quieted(inst, client_id));
                assert(effect_views(effects@) =~= before + quiet_effects(own.push(inst)));
            }
            i += 1;
        }
        proof {
            assert(all.take(i as int) =~= all);
            assert(instance_views(self.plugin_map@) =~= all.map_values(
                |x: InstanceView| quieted(x, client_id),
            ));
            assert(self@ =~= (Bridge {
                instances: all.map_values(|x: InstanceView| quieted(x, client_id)),
                ..b0
            }));
        }
        any
    }

    /// A client has left. Where others remain its instances are destroyed; the
    /// last one's are quiesced and kept, so that the plugins are still known when
    /// a client attaches.
    pub fn tear_down_client_instances(&mut self, client_id: ClientId) -> (r: Vec<Effect>)
        ensures
            final(self)@ == torn_down(old(self)@, client_id).bridge,
            effect_views(r@) == torn_down(old(self)@, client_id).effects,
    {
        let mut effects: Vec<Effect> = Vec::new();
        assert(effect_views(effects@) =~= Seq::<EffectView>::empty());
        if self.connected_clients.len() == 0 {
            let any = self.quiesce_client_instances(client_id, &mut effects);
            if any {
                push_effect(&mut effects, Effect::ClearKeyPressesIntercepts(client_id));
            }
            self.clear_per_client_bridge_state(client_id);
            assert(effect_views(effects@) =~= torn_down(old(self)@, client_id).effects);
            return effects;
        }
        self.destroy_instances_for(client_id, &mut effects);
        assert(effect_views(effects@) =~= torn_down(old(self)@, client_id).effects);
        effects
    }

    fn orphaned_clients(&self, incoming: ClientId) -> (r: Vec<ClientId>)
        ensures
            r@ == orphans(self@.instances, self@.connected, incoming),
    {
        let ghost all = self@.instances;
        let mut out: Vec<ClientId> = Vec::new();
        let mut i: usize = 0;
        assert(all.take(0) =~= Seq::<InstanceView>::empty());
        while i < self.plugin_map.len()
            invariant
                i <= self.plugin_map.len(),
                all == instance_views(self.plugin_map@),
                out@ == orphans(all.take(i as int), self.connected_clients@, incoming),
            decreases self.plugin_map.len() - i,
        {
            let c = self.plugin_map[i].client_id;
            proof {
                assert(all.take(i + 1).drop_last() =~= all.take(i as int));
                assert(all[i as int] == self.plugin_map@[i as int]@);
            }
            if c != incoming && !holds_client(&self.connected_clients, c) && !holds_client(
                &out,
                c,
            ) {
                out.push(c);
            }
            i += 1;
        }
        assert(all.take(i as int) =~= all);
        out
    }

    /// A client has arrived and its plugins are on their way: drop what clients
    /// that are neither attached nor arriving left behind.
    pub fn sweep_orphan_carcasses(&mut self, incoming_client_id: ClientId) -> (r: Vec<Effect>)
        ensures
            final(self)@ == swept(old(self)@, incoming_client_id).bridge,
            effect_views(r@) == swept(old(self)@, incoming_client_id).effects,
    {
        let clients = self.orphaned_clients(incoming_client_id);
        let ghost b0 = self@;
        let mut effects: Vec<Effect> = Vec::new();
        let mut i: usize = 0;
        proof {
            assert(effect_views(effects@) =~= Seq::<EffectView>::empty());
            assert(clients@.take(0) =~= Seq::<ClientId>::empty());
        }
        while i < clients.len()
            invariant
                i <= clients.len(),
                self@ == destroyed_all(b0, clients@.take(i as int)).bridge,
                effect_views(effects@) == destroyed_all(b0, clients@.take(i as int)).effects,
            decreases clients.len() - i,
        {
            assert(clients@.take(i + 1).drop_last() =~= clients@.take(i as int));
            self.destroy_instances_for(clients[i], &mut effects);
            i += 1;
        }
        assert(clients@.take(i as int) =~= clients@);
        effects
    }
}

fn holds_client(v: &Vec<ClientId>, c: ClientId) -> (r: bool)
    ensures
        r == v@.contains(c),
{
    let mut i: usize = 0;
    while i < v.len()
        invariant
            i <= v.len(),
            forall|j: int| 0 <= j < i ==> v@[j] != c,
        decreases v.len() - i,
    {
        if v[i] == c {
            return true;
        }
        i += 1;
    }
    false
}

fn keep_from_others(v: &Vec<WorkerMessage>, c: ClientId) -> (r: Vec<WorkerMessage>)
    ensures
        r@ == v@.filter(not_from(c)),
{
    let ghost p = not_from(c);
    let mut out: Vec<WorkerMessage> = Vec::new();
    let mut i: usize = 0;
    proof {
        seqs::filter_none(v@, p);
    }
    while i < v.len()
        invariant
            i <= v.len(),
            p == not_from(c),
            out@ == v@.take(i as int).filter(p),
        decreases v.len() - i,
    {
        proof {
            seqs::filter_step(v@, p, i as int);
        }
        let m = &v[i];
        if m.client_id != c {
            out.push(
                WorkerMessage {
                    client_id: m.client_id,
                    worker: m.worker.clone(),
                    message: m.message.clone(),
                    payload: m.payload.clone(),
                },
            );
        }
        i += 1;
    }
    assert(v@.take(i as int) =~= v@);
    out
}

/// The last client's entries outlive it: every plugin is still known when a
/// client attaches again.
pub proof fn the_last_clients_plugins_stay_known(b: Bridge, c: ClientId)
    requires
        b.connected.len() == 0,
    ensures
        torn_down(b, c).bridge.instances.len() == b.instances.len(),
        forall|i: int|
            0 <= i < b.instances.len() ==> (#[trigger] torn_down(b, c).bridge.instances[i]).plugin_id
                == b.instances[i].plugin_id && torn_down(b, c).bridge.instances[i].client_id
                == b.instances[i].client_id,
        forall|i: int|
            0 <= i < b.instances.len() && b.instances[i].client_id == c ==> (#[trigger] torn_down(
                b,
                c,
            ).bridge.instances[i]).quiesced,
{
}

/// Where others remain, a client that leaves takes its own entries with it, and
/// no others.
pub proof fn a_leaving_client_takes_only_its_own(b: Bridge, c: ClientId, i: InstanceView)
    requires
        b.connected.len() > 0,
    ensures
        torn_down(b, c).bridge.instances.contains(i) <==> b.instances.contains(i) && i.client_id
            != c,
{
    seqs::filter_members(b.instances, of_others(c));
}

/// Nothing is kept for a client that has left.
pub proof fn nothing_is_kept_for_a_client_that_left(b: Bridge, c: ClientId)
    ensures
        !torn_down(b, c).bridge.keybinds.contains_key(c),
        !torn_down(b, c).bridge.base_modes.contains_key(c),
        forall|k: PluginId, m: WorkerMessage|
            #![trigger torn_down(b, c).bridge.worker_messages[k].contains(m)]
            torn_down(b, c).bridge.worker_messages.contains_key(k) && torn_down(
                b,
                c,
            ).bridge.worker_messages[k].contains(m) ==> m.client_id != c,
{
    assert forall|k: PluginId, m: WorkerMessage|
        #![trigger torn_down(b, c).bridge.worker_messages[k].contains(m)]
        torn_down(b, c).bridge.worker_messages.contains_key(k) && torn_down(
            b,
            c,
        ).bridge.worker_messages[k].contains(m) implies m.client_id != c by {
        seqs::filter_members(b.worker_messages[k], not_from(c));
    }
}

pub(crate) proof fn orphans_hold(v: Seq<InstanceView>, connected: Seq<ClientId>, incoming: ClientId)
    ensures
        forall|c: ClientId| #[trigger]
            orphans(v, connected, incoming).contains(c) <==> exists|i: int|
                0 <= i < v.len() && is_orphan(#[trigger] v[i], connected, incoming)
                    && v[i].client_id == c,
    decreases v.len(),
{
    if v.len() > 0 {
        let rest = v.drop_last();
        let n = v.len() - 1;
        orphans_hold(rest, connected, incoming);
        let before = orphans(rest, connected, incoming);
        let after = orphans(v, connected, incoming);
        assert forall|c: ClientId| #[trigger] after.contains(c) <==> exists|i: int|
            0 <= i < v.len() && is_orphan(#[trigger] v[i], connected, incoming) && v[i].client_id
                == c by {
            if after.contains(c) {
                let k = choose|k: int| 0 <= k < after.len() && after[k] == c;
                if k < before.len() {
                    assert(before[k] == c);
                    assert(before.contains(c));
                    let i = choose|i: int|
                        0 <= i < rest.len() && is_orphan(#[trigger] rest[i], connected, incoming)
                            && rest[i].client_id == c;
                    assert(is_orphan(v[i], connected, incoming));
                } else {
                    assert(is_orphan(v[n], connected, incoming));
                }
            }
            if exists|i: int|
                0 <= i < v.len() && is_orphan(#[trigger] v[i], connected, incoming)
                    && v[i].client_id == c {
                let i = choose|i: int|
                    0 <= i < v.len() && is_orphan(#[trigger] v[i], connected, incoming)
                        && v[i].client_id == c;
                if i < n {
                    assert(is_orphan(rest[i], connected, incoming));
                    assert(before.contains(c));
                    let k = choose|k: int| 0 <= k < before.len() && before[k] == c;
                    assert(after[k] == c);
                } else if before.contains(c) {
                    let k = choose|k: int| 0 <= k < before.len() && before[k] == c;
                    assert(after[k] == c);
                } else {
                    assert(after[after.len() - 1] == c);
                }
            }
        }
    }
}

pub(crate) proof fn destroyed_all_members(b: Bridge, clients: Seq<ClientId>, i: InstanceView)
    ensures
        destroyed_all(b, clients).bridge.instances.contains(i) <==> b.instances.contains(i)
            && !clients.contains(i.client_id),
        destroyed_all(b, clients).bridge.connected == b.connected,
    decreases clients.len(),
{
    if clients.len() > 0 {
        let rest = clients.drop_last();
        let last = clients.last();
        destroyed_all_members(b, rest, i);
        let before = destroyed_all(b, rest).bridge;
        seqs::filter_members(before.instances, of_others(last));
        assert(clients.contains(i.client_id) <==> rest.contains(i.client_id) || i.client_id == last) by {
            if rest.contains(i.client_id) {
                let k = choose|k: int| 0 <= k < rest.len() && rest[k] == i.client_id;
                assert(clients[k] == i.client_id);
            }
            if i.client_id == last {
                assert(clients[clients.len() - 1] == last);
            }
            if clients.contains(i.client_id) {
                let k = choose|k: int| 0 <= k < clients.len() && clients[k] == i.client_id;
                if k < rest.len() {
                    assert(rest[k] == i.client_id);
                }
            }
        }
    }
}

/// A sweep leaves exactly the entries of the clients that are attached or
/// arriving.
pub proof fn a_sweep_leaves_no_carcass(b: Bridge, incoming: ClientId, i: InstanceView)
    ensures
        swept(b, incoming).bridge.instances.contains(i) <==> b.instances.contains(i) && !is_orphan(
            i,
            b.connected,
            incoming,
        ),
{
    let clients = orphans(b.instances, b.connected, incoming);
    orphans_hold(b.instances, b.connected, incoming);
    destroyed_all_members(b, clients, i);
    if b.instances.contains(i) {
        let k = choose|k: int| 0 <= k < b.instances.len() && b.instances[k] == i;
        if is_orphan(i, b.connected, incoming) {
            assert(is_orphan(b.instances[k], b.connected, incoming));
            assert(clients.contains(i.client_id));
        } else if clients.contains(i.client_id) {
            let j = choose|j: int|
                0 <= j < b.instances.len() && is_orphan(
                    #[trigger] b.instances[j],
                    b.connected,
                    incoming,
                ) && b.instances[j].client_id == i.client_id;
            assert(is_orphan(b.instances[j], b.connected, incoming));
        }
    }
}

} // verus!
