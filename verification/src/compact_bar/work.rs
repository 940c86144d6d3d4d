//! The bar at work.
use super::rules;
use super::rules::{
    action_views, part_views, tab_data, texts_of, Action, ActionView, Bar, CellView, Coordinates,
    CopyDestination,
    Event, EventType, Face, LinePart, Next, Outcome, PartView, PermissionType,
    PipeMessage, State, TabCell, TabRenderData, TooltipMessage, AGENT_POLL_TENTHS,
    OWN_URL,
};
use crate::dict::{Dict, Same};
use crate::host;
use crate::host::{
    copy_bytes, copy_opt_text, opt_text, same_tabs, tab_views, InputMode, ModeInfo, ModeView,
    PaletteColor, PaneManifest, TabInfo, TabPanes, TabView,
};
use crate::readmodel::{locate_snapshot, ReadResult};
use crate::tab_flags::{compute_tab_flags, project_for_session};
use crate::text;
use crate::text::{joined, push_decimal, str_eq};
use vstd::prelude::*;
use vstd::string::*;

verus! {

fn push_action(actions: &mut Vec<Action>, action: Action)
    ensures
        action_views(final(actions)@) == action_views(old(actions)@).push(action@),
{
    actions.push(action);
    assert(action_views(actions@) =~= action_views(old(actions)@).push(action@));
}

fn no_actions() -> (r: Vec<Action>)
    ensures
        action_views(r@) == Seq::<ActionView>::empty(),
{
    let r: Vec<Action> = Vec::new();
    assert(action_views(r@) =~= Seq::<ActionView>::empty());
    r
}

fn done(rerender: bool) -> (r: Outcome)
    ensures
        r.rerender == rerender,
        action_views(r.actions@) == Seq::<ActionView>::empty(),
{
    Outcome { rerender, actions: no_actions() }
}

fn one(rerender: bool, action: Action) -> (r: Outcome)
    ensures
        r.rerender == rerender,
        action_views(r.actions@) == seq![action@],
{
    let mut actions = no_actions();
    push_action(&mut actions, action);
    assert(action_views(actions@) =~= seq![action@]);
    Outcome { rerender, actions }
}

/// What an outcome says, next to the state it left.
pub open spec fn outcome_is(s: State, o: Outcome, next: Next) -> bool {
    s@ == next.bar && o.rerender == next.rerender && action_views(o.actions@) == next.actions
}

/// The name of a mode, as the tooltip is titled.
pub fn mode_title(mode: InputMode) -> (r: String)
    ensures
        r@ == rules::mode_name(mode),
{
    let name = match mode {
        InputMode::Normal => "Normal",
        InputMode::Locked => "Locked",
        InputMode::Resize => "Resize",
        InputMode::Pane => "Pane",
        InputMode::Tab => "Tab",
        InputMode::Scroll => "Scroll",
        InputMode::EnterSearch => "EnterSearch",
        InputMode::Search => "Search",
        InputMode::RenameTab => "RenameTab",
        InputMode::RenamePane => "RenamePane",
        InputMode::Session => "Session",
        InputMode::Move => "Move",
        InputMode::Prompt => "Prompt",
        InputMode::Tmux => "Tmux",
        InputMode::CopyMode => "CopyMode",
    };
    name.to_owned()
}

/// Whether a tooltip would be in the way in a mode.
pub fn is_restricted_mode(mode: InputMode) -> (r: bool)
    ensures
        r == rules::restricted(mode),
{
    match mode {
        InputMode::Locked
        | InputMode::EnterSearch
        | InputMode::RenameTab
        | InputMode::RenamePane
        | InputMode::Prompt
        | InputMode::Tmux
        | InputMode::CopyMode => true,
        _ => false,
    }
}

/// What a message says beside its name.
fn create_args(persist: bool) -> (r: Dict<String, String>)
    ensures
        texts_of(r@) == rules::message_args(persist),
{
    let mut args: Dict<String, String> = Dict::new();
    if persist {
        let none = String::new();
        assert(none@ =~= Seq::<char>::empty());
        args.insert("persist".to_owned(), none);
    }
    assert(texts_of(args@) =~= rules::message_args(persist));
    args
}

/// The configuration that binds the key for the tooltip.
pub fn bind_toggle_key_config(toggle_key: &str, client_id: u16) -> (r: String)
    ensures
        r@ == rules::toggle_binding(toggle_key@, client_id),
{
    let mut out = joined(
        "\n        keybinds {\n            shared {\n                bind \"",
        toggle_key,
    );
    out.append(
        "\" {\n                  MessagePlugin \"compact-bar\" {\n                      name \"toggle_tooltip\"\n                      tooltip \"",
    );
    out.append(toggle_key);
    out.append("\"\n                      payload \"");
    push_decimal(&mut out, client_id as u64);
    out.append(
        "\"\n                  }\n                }\n            }\n        }\n    ",
    );
    out
}

fn copy_config(config: &Dict<String, String>) -> (r: Dict<String, String>)
    ensures
        texts_of(r@) == texts_of(config@),
{
    let mut out: Dict<String, String> = Dict::new();
    let n = config.len();
    let ghost list = config.list();
    let mut i: usize = 0;
    while i < n
        invariant
            i <= n,
            n == list.len(),
            list == config.list(),
            config.is_listed(),
            forall|k: Seq<char>| #[trigger]
                out@.contains_key(k) ==> config@.contains_key(k) && out@[k]@ == config@[k]@,
            forall|j: int| 0 <= j < i ==> out@.contains_key((#[trigger] list[j]).0@),
        decreases n - i,
    {
        let ghost was = out@;
        assert(config@.contains_key(list[i as int].0@));
        out.insert(config.key_at(i).clone(), config.value_at(i).clone());
        proof {
            assert forall|j: int| 0 <= j < i + 1 implies out@.contains_key(
                (#[trigger] list[j]).0@,
            ) by {
                if j < i {
                    assert(was.contains_key(list[j].0@));
                }
            }
        }
        i += 1;
    }
    proof {
        assert forall|k: Seq<char>| texts_of(out@).contains_key(k) <==> texts_of(
            config@,
        ).contains_key(k) by {
            if config@.contains_key(k) {
                let j = choose|j: int| 0 <= j < list.len() && #[trigger] list[j].0@ == k;
                assert(out@.contains_key(list[j].0@));
            }
        }
        assert(texts_of(out@) =~= texts_of(config@));
    }
    out
}

fn switch_in(config: &Dict<String, String>, key: &str, default: bool) -> (r: bool)
    ensures
        r == rules::switch_in(texts_of(config@), key@, default),
{
    match config.get(&key.to_owned()) {
        Some(v) => if str_eq(v.as_str(), "true") {
            true
        } else if str_eq(v.as_str(), "false") {
            false
        } else {
            default
        },
        None => default,
    }
}

proof fn place_stays(tabs: Seq<TabView>, i: int, j: int)
    requires
        0 <= i <= j <= tabs.len(),
        rules::active_place(tabs.take(i)) is Some,
    ensures
        rules::active_place(tabs.take(j)) == rules::active_place(tabs.take(i)),
    decreases j - i,
{
    if i < j {
        place_stays(tabs, i, j - 1);
        assert(tabs.take(j).drop_last() =~= tabs.take(j - 1));
    }
}

fn active_place(tabs: &Vec<TabInfo>) -> (r: Option<usize>)
    ensures
        match r {
            Some(i) => i < tabs.len() && rules::active_place(tab_views(tabs@)) == Some(i as int),
            None => rules::active_place(tab_views(tabs@)) is None,
        },
{
    let ghost all = tab_views(tabs@);
    let mut i: usize = 0;
    assert(all.take(0) =~= Seq::<TabView>::empty());
    while i < tabs.len()
        invariant
            i <= tabs.len(),
            all == tab_views(tabs@),
            rules::active_place(all.take(i as int)) is None,
        decreases tabs.len() - i,
    {
        proof {
            assert(all.take(i + 1).drop_last() =~= all.take(i as int));
            assert(all[i as int] == tabs@[i as int]@);
        }
        if tabs[i].active {
            proof {
                place_stays(all, i + 1, all.len() as int);
                assert(all.take(all.len() as int) =~= all);
            }
            return Some(i);
        }
        i += 1;
    }
    assert(all.take(i as int) =~= all);
    None
}

fn shows_tooltip(panes: &TabPanes) -> (r: bool)
    ensures
        r == exists|i: int| 0 <= i < panes@.len() && rules::is_tooltip_pane(#[trigger] panes@[i]),
{
    let ghost all = panes@;
    let mut i: usize = 0;
    while i < panes.list.len()
        invariant
            i <= panes.list.len(),
            all == panes@,
            all.len() == panes.list.len(),
            forall|j: int| 0 <= j < i ==> !rules::is_tooltip_pane(#[trigger] all[j]),
        decreases panes.list.len() - i,
    {
        let p = &panes.list[i];
        assert(all[i as int] == p@);
        let ours = match &p.plugin_url {
            Some(url) => str_eq(url.as_str(), "zellij:compact-bar"),
            None => false,
        };
        if ours && p.pane_x != p.pane_content_x {
            assert(rules::is_tooltip_pane(all[i as int]));
            return true;
        }
        i += 1;
    }
    false
}

fn has_plugin(panes: &TabPanes, plugin: Option<u32>) -> (r: bool)
    ensures
        r == rules::holds_plugin(panes@, plugin),
{
    let ghost all = panes@;
    let own = match plugin {
        Some(id) => id,
        None => return false,
    };
    let mut i: usize = 0;
    while i < panes.list.len()
        invariant
            i <= panes.list.len(),
            all == panes@,
            all.len() == panes.list.len(),
            plugin == Some(own),
            forall|j: int|
                0 <= j < i ==> !((#[trigger] all[j]).is_plugin && Some(all[j].id) == plugin),
        decreases panes.list.len() - i,
    {
        let p = &panes.list[i];
        assert(all[i as int] == p@);
        if p.is_plugin && p.id == own {
            return true;
        }
        i += 1;
    }
    false
}

/// Whether a tooltip is on some tab.
pub fn detect_tooltip_presence(manifest: &PaneManifest) -> (r: bool)
    ensures
        r == rules::tooltip_present(manifest@),
{
    let n = manifest.panes.len();
    let ghost list = manifest.panes.list();
    let mut i: usize = 0;
    while i < n
        invariant
            i <= n,
            n == list.len(),
            list == manifest.panes.list(),
            manifest.panes.is_listed(),
            forall|j: int, k: int|
                0 <= j < i && 0 <= k < list[j].1@.len() ==> !rules::is_tooltip_pane(
                    #[trigger] list[j].1@[k],
                ),
        decreases n - i,
    {
        let panes = manifest.panes.value_at(i);
        if shows_tooltip(panes) {
            proof {
                let tab = list[i as int].0;
                assert(manifest.panes@.contains_key(list[i as int].0@));
                assert(manifest@.contains_key(tab));
                assert(manifest@[tab] == panes@);
                let k = choose|k: int|
                    0 <= k < panes@.len() && rules::is_tooltip_pane(#[trigger] panes@[k]);
                assert(rules::is_tooltip_pane(manifest@[tab][k]));
            }
            return true;
        }
        i += 1;
    }
    proof {
        assert forall|tab: usize, k: int|
            manifest@.contains_key(tab) && 0 <= k < manifest@[tab].len() implies !rules::is_tooltip_pane(
        #[trigger] manifest@[tab][k]) by {
            assert(manifest.panes@.contains_key(tab));
            let j = choose|j: int| 0 <= j < list.len() && #[trigger] list[j].0@ == tab;
            assert(manifest.panes@[list[j].0@] == list[j].1);
            assert(manifest@[tab][k] == list[j].1@[k]);
        }
    }
    false
}

/// The tab that holds the plugin's own pane.
pub fn find_own_tab_index(manifest: &PaneManifest, plugin: Option<u32>) -> (r: Option<usize>)
    ensures
        rules::may_be_own_tab(manifest@, plugin, r),
{
    let n = manifest.panes.len();
    let ghost list = manifest.panes.list();
    let mut i: usize = 0;
    while i < n
        invariant
            i <= n,
            n == list.len(),
            list == manifest.panes.list(),
            manifest.panes.is_listed(),
            forall|j: int| 0 <= j < i ==> !rules::holds_plugin((#[trigger] list[j]).1@, plugin),
        decreases n - i,
    {
        let panes = manifest.panes.value_at(i);
        if has_plugin(panes, plugin) {
            let tab = *manifest.panes.key_at(i);
            proof {
                assert(manifest.panes@.contains_key(list[i as int].0@));
                assert(manifest@[tab] == panes@);
            }
            return Some(tab);
        }
        i += 1;
    }
    proof {
        assert forall|t: usize| #[trigger] manifest@.contains_key(t) implies !rules::holds_plugin(
            manifest@[t],
            plugin,
        ) by {
            assert(manifest.panes@.contains_key(t));
            let j = choose|j: int| 0 <= j < list.len() && #[trigger] list[j].0@ == t;
            assert(manifest.panes@[list[j].0@] == list[j].1);
        }
    }
    None
}

/// A bar that has not been told anything yet.
pub open spec fn fresh(state_dir: Seq<char>, mode: ModeView) -> Bar {
    Bar {
        state_dir,
        tabs: Seq::empty(),
        active: 0,
        mode,
        tab_line: Seq::empty(),
        rows: 0,
        cols: 0,
        copied: None,
        clipboard_failed: false,
        config: Map::empty(),
        plugin: None,
        toggle_key: None,
        is_tooltip: false,
        tooltip_is_active: false,
        persist: false,
        is_first_run: false,
        own_tab: None,
        client: 0,
        keybinds: Seq::empty(),
        snapshot_path: None,
        seen_dir: None,
        panes: Map::empty(),
        pane_agents: Map::empty(),
        flags: Map::empty(),
        seen: Map::empty(),
    }
}

impl State {
    pub fn new(state_dir: String, mode_info: ModeInfo) -> (r: State)
        ensures
            r@ == fresh(state_dir@, mode_info@),
    {
        let r = State {
            state_dir,
            tabs: Vec::new(),
            active_tab_idx: 0,
            mode_info,
            tab_line: Vec::new(),
            display_area_rows: 0,
            display_area_cols: 0,
            text_copy_destination: None,
            display_system_clipboard_failure: false,
            config: Dict::new(),
            own_plugin_id: None,
            toggle_tooltip_key: None,
            is_tooltip: false,
            tooltip_is_active: false,
            persist: false,
            is_first_run: false,
            own_tab_index: None,
            own_client_id: 0,
            cached_keybinds: Vec::new(),
            agent_snapshot_host_path: None,
            agent_seen_events_dir: None,
            pane_manifest: PaneManifest { panes: Dict::new() },
            pane_agents: Dict::new(),
            tab_flags: Dict::new(),
            seen_disk: Dict::new(),
        };
        assert(r@ =~= fresh(state_dir@, mode_info@));
        r
    }

    /// Where the tooltip goes, given the size of its contents in rows and columns.
    pub fn calculate_tooltip_coordinates(&self, size: (usize, usize)) -> (r: Coordinates)
        requires
            rules::frameable(size),
        ensures
            r == rules::tooltip_place(self@, size),
    {
        let width = size.1 + 4;
        let height = size.0 + 2;
        Coordinates {
            x: 2,
            y: if self.display_area_rows >= height + 2 {
                self.display_area_rows - (height + 2)
            } else {
                0
            },
            width,
            height,
            pinned: true,
            borderless: false,
        }
    }

    fn create_tooltip_message(&self, name: &str, size: (usize, usize), persist: bool) -> (r: Action)
        requires
            rules::frameable(size),
        ensures
            r@ == rules::tooltip_message(self@, name@, size, persist),
    {
        let mut config = copy_config(&self.config);
        let ghost before = texts_of(config@);
        let value = "true".to_owned();
        config.insert("is_tooltip".to_owned(), value);
        assert(texts_of(config@) =~= before.insert("is_tooltip"@, "true"@));
        Action::PipeMessage(
            TooltipMessage {
                name: name.to_owned(),
                url: OWN_URL.to_owned(),
                config,
                coordinates: self.calculate_tooltip_coordinates(size),
                title: mode_title(self.mode_info.mode),
                args: create_args(persist),
            },
        )
    }

    fn mode_actions(&self, old_mode: InputMode, size: (usize, usize)) -> (r: Vec<Action>)
        requires
            rules::frameable(size),
        ensures
            action_views(r@) == rules::mode_actions(self@, old_mode, size),
    {
        let new = self.mode_info.mode;
        let base = match self.mode_info.base_mode {
            Some(m) => m,
            None => InputMode::Normal,
        };
        let mut actions = no_actions();
        if self.is_tooltip {
            if !self.persist && (new == base || is_restricted_mode(new)) {
                push_action(&mut actions, Action::CloseSelf);
            } else if new != old_mode || self.persist {
                if let Some(plugin_id) = self.own_plugin_id {
                    push_action(
                        &mut actions,
                        Action::ChangeCoordinates {
                            plugin_id,
                            coordinates: self.calculate_tooltip_coordinates(size),
                        },
                    );
                    push_action(
                        &mut actions,
                        Action::RenamePane { plugin_id, title: mode_title(new) },
                    );
                }
            }
        } else if self.toggle_tooltip_key.is_some() && new != base && !is_restricted_mode(new) {
            let message = self.create_tooltip_message(
                "launch_tooltip_if_not_launched",
                size,
                false,
            );
            push_action(&mut actions, message);
        }
        assert(action_views(actions@) =~= rules::mode_actions(self@, old_mode, size));
        actions
    }

    fn handle_mode_update(&mut self, mode_info: ModeInfo, size: (usize, usize)) -> (r: Outcome)
        requires
            rules::frameable(size),
        ensures
            outcome_is(*final(self), r, rules::after_mode(old(self)@, mode_info@, size)),
    {
        let ghost before = self@;
        let ghost given = mode_info@;
        let mut mode_info = mode_info;
        if mode_info.keybinds.len() == 0 {
            mode_info.keybinds = copy_bytes(&self.cached_keybinds);
        } else {
            self.cached_keybinds = copy_bytes(&mode_info.keybinds);
        }
        let old_mode = self.mode_info.mode;
        let should_render = !self.mode_info.same(&mode_info);
        self.mode_info = mode_info;
        assert(self@ =~= rules::after_mode(before, given, size).bar);
        let actions = self.mode_actions(old_mode, size);
        Outcome { rerender: should_render, actions }
    }

    fn handle_tab_update(&mut self, tabs: Vec<TabInfo>) -> (r: Outcome)
        ensures
            outcome_is(*final(self), r, rules::after_tabs(old(self)@, tab_views(tabs@))),
    {
        let ghost before = self@;
        let ghost tv = tab_views(tabs@);
        let i = match active_place(&tabs) {
            Some(i) => i,
            None => return done(false),
        };
        assert(tv[i as int] == tabs@[i as int]@);
        self.display_area_rows = tabs[i].display_area_rows;
        self.display_area_cols = tabs[i].display_area_columns;
        let active = i + 1;
        let moved = self.active_tab_idx != active;
        let should_render = moved || !same_tabs(&self.tabs, &tabs);
        self.active_tab_idx = active;
        self.tabs = tabs;
        assert(self@ =~= rules::after_tabs(before, tv).bar);
        let mut actions = no_actions();
        if moved && self.is_tooltip {
            if let Some(plugin_id) = self.own_plugin_id {
                push_action(
                    &mut actions,
                    Action::BreakPaneToTab { plugin_id, tab_index: i, change_focus: false },
                );
            }
        }
        if moved && !self.is_tooltip {
            push_action(
                &mut actions,
                Action::RecomputeTabFlags(copy_opt_text(&self.agent_seen_events_dir)),
            );
        }
        assert(action_views(actions@) =~= rules::after_tabs(before, tv).actions);
        Outcome { rerender: should_render, actions }
    }

    fn handle_pane_update(&mut self, manifest: PaneManifest) -> (r: Outcome)
        ensures
            outcome_is(
                *final(self),
                r,
                rules::after_panes(old(self)@, manifest@, final(self)@.own_tab),
            ),
            old(self)@.toggle_key is Some ==> rules::may_be_own_tab(
                manifest@,
                old(self)@.plugin,
                final(self)@.own_tab,
            ),
    {
        let ghost before = self@;
        let mut should_render = false;
        if self.toggle_tooltip_key.is_some() {
            let previous = self.tooltip_is_active;
            self.tooltip_is_active = detect_tooltip_presence(&manifest);
            self.own_tab_index = find_own_tab_index(&manifest, self.own_plugin_id);
            should_render = previous != self.tooltip_is_active;
        }
        let ghost own = self.own_tab_index;
        let mut actions = no_actions();
        if !self.is_tooltip && !self.pane_manifest.same(&manifest) {
            self.pane_manifest = manifest;
            push_action(
                &mut actions,
                Action::RecomputeTabFlags(copy_opt_text(&self.agent_seen_events_dir)),
            );
        }
        proof {
            assert(self@ =~= rules::after_panes(before, manifest@, own).bar);
            assert(action_views(actions@) =~= rules::after_panes(before, manifest@, own).actions);
        }
        Outcome { rerender: should_render, actions }
    }

    fn handle_permission_grant(&mut self, env: &Dict<String, String>) -> (r: Outcome)
        ensures
            outcome_is(*final(self), r, rules::after_permission(old(self)@, env@)),
    {
        let ghost before = self@;
        if self.is_tooltip || self.agent_snapshot_host_path.is_some() {
            return done(false);
        }
        let mut actions = no_actions();
        push_action(&mut actions, Action::SetSelectable(false));
        if let Some(loc) = locate_snapshot(env, self.state_dir.as_str()) {
            push_action(&mut actions, Action::ChangeHostFolder(loc.host_root));
            push_action(&mut actions, Action::ReadSeenEvents(loc.seen_events_dir.clone()));
            self.agent_snapshot_host_path = Some(loc.wasi_path);
            self.agent_seen_events_dir = Some(loc.seen_events_dir);
        }
        push_action(&mut actions, Action::SetTimeout(AGENT_POLL_TENTHS));
        proof {
            assert(self@ =~= rules::after_permission(before, env@).bar);
            assert(action_views(actions@) =~= rules::after_permission(before, env@).actions);
        }
        Outcome { rerender: false, actions }
    }

    fn handle_agent_timer(&self) -> (r: Outcome)
        ensures
            outcome_is(*self, r, rules::after_timer(self@)),
    {
        let mut actions = no_actions();
        if let Some(path) = &self.agent_snapshot_host_path {
            push_action(&mut actions, Action::ReadSnapshot(path.clone()));
        }
        if let Some(dir) = &self.agent_seen_events_dir {
            push_action(&mut actions, Action::ReadSeenEvents(dir.clone()));
        }
        push_action(
            &mut actions,
            Action::RecomputeTabFlags(copy_opt_text(&self.agent_seen_events_dir)),
        );
        push_action(&mut actions, Action::SetTimeout(AGENT_POLL_TENTHS));
        assert(action_views(actions@) =~= rules::after_timer(self@).actions);
        Outcome { rerender: false, actions }
    }

    fn session_name(&self) -> (r: String)
        ensures
            r@ == rules::session_of(self@),
    {
        match &self.mode_info.session_name {
            Some(s) => s.clone(),
            None => {
                let none = String::new();
                assert(none@ =~= Seq::<char>::empty());
                none
            },
        }
    }

    /// Compute the tints anew; whether they changed.
    pub fn recompute_tab_flags(&mut self, seen: Option<Dict<String, i64>>) -> (r: bool)
        ensures
            ({
                let next = rules::after_recompute(old(self)@, rules::seen_map(seen));
                final(self)@ == next.bar && r == next.rerender && next.actions == Seq::<
                    ActionView,
                >::empty()
            }),
    {
        let ghost before = self@;
        let ghost given = rules::seen_map(seen);
        if let Some(m) = seen {
            self.seen_disk = m;
        }
        let active = if self.active_tab_idx > 0 {
            Some(self.active_tab_idx - 1)
        } else {
            None
        };
        let (flags, _) = compute_tab_flags(
            &self.pane_agents,
            &self.pane_manifest,
            active,
            &self.seen_disk,
        );
        let same = flags.same_as(&self.tab_flags);
        proof {
            if same {
                assert(flags@ =~= self.tab_flags@);
            }
        }
        self.tab_flags = flags;
        assert(self@ =~= rules::after_recompute(before, given).bar);
        !same
    }

    fn scroll_tab_up(&self) -> (r: Action)
        ensures
            r@ == ActionView::SwitchTabTo(rules::tab_number(rules::tab_up(self@))),
    {
        let next = if self.active_tab_idx < self.tabs.len() {
            self.active_tab_idx + 1
        } else {
            self.tabs.len()
        };
        Action::SwitchTabTo((next as u64 % 0x1_0000_0000) as u32)
    }

    fn scroll_tab_down(&self) -> (r: Action)
        ensures
            r@ == ActionView::SwitchTabTo(rules::tab_number(rules::tab_down(self@))),
    {
        let prev = if self.active_tab_idx >= 2 {
            self.active_tab_idx - 1
        } else {
            1
        };
        Action::SwitchTabTo((prev as u64 % 0x1_0000_0000) as u32)
    }

    /// Whether a click's tab is one the host can switch to.
    pub open spec fn click_fits(event: Event) -> bool {
        event matches Event::LeftClick(Some(tab)) ==> tab <= u32::MAX
    }

    fn handle_initial_keybinds(&mut self, keybinds: Vec<u8>) -> (r: Outcome)
        ensures
            outcome_is(*final(self), r, rules::after_keybinds(old(self)@, keybinds@)),
    {
        let ghost b = self@;
        if keybinds.len() > 0 {
            self.mode_info.keybinds = copy_bytes(&keybinds);
        }
        let ghost k = keybinds@;
        self.cached_keybinds = keybinds;
        assert(self@ =~= rules::after_keybinds(b, k).bar);
        done(true)
    }

    fn handle_tab_click(&self, hit: Option<usize>) -> (r: Outcome)
        requires
            hit matches Some(tab) ==> tab <= u32::MAX,
        ensures
            outcome_is(*self, r, rules::after_click(self@, hit)),
    {
        match hit {
            Some(tab) => if self.is_tooltip {
                done(false)
            } else {
                one(false, Action::SwitchTabTo(tab as u32))
            },
            None => done(false),
        }
    }

    fn handle_scroll(&self, up: bool) -> (r: Outcome)
        ensures
            outcome_is(*self, r, rules::after_scroll(self@, up)),
    {
        if self.is_tooltip {
            done(false)
        } else if up {
            one(false, self.scroll_tab_up())
        } else {
            one(false, self.scroll_tab_down())
        }
    }

    fn handle_clipboard_copy(&mut self, destination: CopyDestination) -> (r: Outcome)
        ensures
            outcome_is(*final(self), r, rules::after_copy(old(self)@, destination)),
    {
        let ghost b = self@;
        if self.is_tooltip {
            return done(false);
        }
        let changed = match self.text_copy_destination {
            Some(current) => current != destination,
            None => true,
        };
        self.text_copy_destination = Some(destination);
        assert(self@ =~= (Bar { copied: Some(destination), ..b }));
        done(changed)
    }

    fn handle_clipboard_failure(&mut self) -> (r: Outcome)
        ensures
            outcome_is(*final(self), r, rules::after_clipboard_failure(old(self)@)),
    {
        let ghost b = self@;
        if self.is_tooltip {
            return done(false);
        }
        self.display_system_clipboard_failure = true;
        assert(self@ =~= (Bar { clipboard_failed: true, ..b }));
        done(true)
    }

    fn handle_input_received(&mut self) -> (r: Outcome)
        ensures
            outcome_is(*final(self), r, rules::after_input(old(self)@)),
    {
        let ghost b = self@;
        if self.is_tooltip {
            return done(false);
        }
        let changed = self.text_copy_destination.is_some() || self.display_system_clipboard_failure;
        self.text_copy_destination = None;
        self.display_system_clipboard_failure = false;
        assert(self@ =~= (Bar { copied: None, clipboard_failed: false, ..b }));
        done(changed)
    }

    fn handle_snapshot(&mut self, read: ReadResult) -> (r: Outcome)
        ensures
            outcome_is(*final(self), r, rules::after_snapshot(old(self)@, read)),
    {
        let ghost b = self@;
        let session = self.session_name();
        self.pane_agents = project_for_session(&read, session.as_str());
        assert(self@ =~= rules::after_snapshot(b, read).bar);
        done(false)
    }

    fn handle_seen_events(&mut self, seen: Dict<String, i64>) -> (r: Outcome)
        ensures
            outcome_is(*final(self), r, rules::quiet(Bar { seen: seen@, ..old(self)@ }, false)),
    {
        let ghost b = self@;
        let ghost s = seen@;
        self.seen_disk = seen;
        assert(self@ =~= (Bar { seen: s, ..b }));
        done(false)
    }

    /// Take in an event. `size` is that of the tooltip's contents, in rows and
    /// columns, for the mode that holds after the event.
    pub fn update(&mut self, event: Event, size: (usize, usize)) -> (r: Outcome)
        requires
            rules::frameable(size),
            State::click_fits(event),
        ensures
            outcome_is(
                *final(self),
                r,
                rules::updated(old(self)@, event, size, final(self)@.own_tab),
            ),
            event matches Event::PaneUpdate(panes) ==> old(self)@.toggle_key is Some
                ==> rules::may_be_own_tab(panes@, old(self)@.plugin, final(self)@.own_tab),
    {
        let ghost b0 = self@;
        self.is_first_run = false;
        assert(self@ =~= (Bar { is_first_run: false, ..b0 }));
        match event {
            Event::InitialKeybinds(keybinds) => self.handle_initial_keybinds(keybinds),
            Event::ModeUpdate(mode_info) => self.handle_mode_update(mode_info, size),
            Event::TabUpdate(tabs) => self.handle_tab_update(tabs),
            Event::PaneUpdate(manifest) => self.handle_pane_update(manifest),
            Event::Timer => self.handle_agent_timer(),
            Event::PermissionRequestResult(env) => self.handle_permission_grant(&env),
            Event::LeftClick(hit) => self.handle_tab_click(hit),
            Event::ScrollUp => self.handle_scroll(true),
            Event::ScrollDown => self.handle_scroll(false),
            Event::CopyToClipboard(destination) => self.handle_clipboard_copy(destination),
            Event::SystemClipboardFailure => self.handle_clipboard_failure(),
            Event::InputReceived => self.handle_input_received(),
            Event::Snapshot(read) => self.handle_snapshot(read),
            Event::SeenEvents(seen) => self.handle_seen_events(seen),
            Event::Recompute(seen) => {
                let changed = self.recompute_tab_flags(seen);
                done(changed)
            },
            Event::Other => done(false),
        }
    }

    /// Take in a message over a pipe. `size` is that of the tooltip's contents for
    /// the current mode.
    pub fn pipe(&mut self, message: &PipeMessage, size: (usize, usize)) -> (r: Outcome)
        requires
            rules::frameable(size),
        ensures
            outcome_is(
                *final(self),
                r,
                rules::after_pipe(
                    old(self)@,
                    message.name@,
                    opt_text(message.payload),
                    message.is_private,
                    size,
                ),
            ),
    {
        let ghost before = self@;
        if self.is_tooltip && message.is_private {
            if !str_eq(message.name.as_str(), "toggle_persisted_tooltip") {
                return done(false);
            }
            if !self.is_first_run {
                return one(false, Action::CloseSelf);
            }
            self.persist = true;
            assert(self@ =~= (Bar { persist: true, ..before }));
            return done(false);
        }
        let here = if self.active_tab_idx > 0 {
            self.active_tab_idx - 1
        } else {
            0
        };
        let in_own_tab = match self.own_tab_index {
            Some(tab) => tab == here,
            None => false,
        };
        let mut own = String::new();
        push_decimal(&mut own, self.own_client_id as u64);
        assert(own@ =~= text::decimal(self.own_client_id as nat));
        let for_us = match &message.payload {
            Some(p) => *p == own,
            None => false,
        };
        if str_eq(message.name.as_str(), "toggle_tooltip") && message.is_private
            && self.toggle_tooltip_key.is_some() && in_own_tab && for_us {
            one(false, self.create_tooltip_message("toggle_persisted_tooltip", size, true))
        } else {
            done(false)
        }
    }

    /// Take in the configuration, and the ids the host gave.
    pub fn load(&mut self, configuration: Dict<String, String>, plugin_id: u32, client_id: u16) -> (r:
        Vec<Action>)
        ensures
            final(self)@ == rules::loaded(
                old(self)@,
                texts_of(configuration@),
                plugin_id,
                client_id,
            ).bar,
            action_views(r@) == rules::loaded(
                old(self)@,
                texts_of(configuration@),
                plugin_id,
                client_id,
            ).actions,
    {
        let ghost before = self@;
        let ghost config = texts_of(configuration@);
        self.own_plugin_id = Some(plugin_id);
        self.own_client_id = client_id;
        self.is_tooltip = switch_in(&configuration, "is_tooltip", false);
        if !self.is_tooltip {
            if let Some(key) = configuration.get(&"tooltip".to_owned()) {
                self.toggle_tooltip_key = Some(key.clone());
            }
        } else {
            self.is_first_run = true;
        }
        self.config = configuration;
        let mut actions = no_actions();
        push_action(&mut actions, Action::Subscribe(event_types(self.is_tooltip)));
        if !self.is_tooltip {
            if let Some(key) = &self.toggle_tooltip_key {
                push_action(
                    &mut actions,
                    Action::Reconfigure {
                        config: bind_toggle_key_config(key.as_str(), client_id),
                        write_to_disk: false,
                    },
                );
            }
            let mut permissions: Vec<PermissionType> = Vec::new();
            permissions.push(PermissionType::ReadApplicationState);
            permissions.push(PermissionType::FullHdAccess);
            permissions.push(PermissionType::ReadSessionEnvironmentVariables);
            assert(permissions@ =~= seq![
                PermissionType::ReadApplicationState,
                PermissionType::FullHdAccess,
                PermissionType::ReadSessionEnvironmentVariables,
            ]);
            push_action(&mut actions, Action::RequestPermissions(permissions));
        }
        proof {
            let want = rules::loaded(before, config, plugin_id, client_id);
            assert(self@ =~= want.bar);
            assert(action_views(actions@) =~= want.actions);
        }
        actions
    }

    fn get_tab_display_name(&self, tab: &TabInfo) -> (r: String)
        ensures
            r@ == rules::shown_name(self@, tab@),
    {
        if tab.active && self.mode_info.mode == InputMode::RenameTab && tab.name.as_str().is_empty() {
            "Enter name...".to_owned()
        } else {
            tab.name.clone()
        }
    }

    /// What the line of tabs is made of.
    pub fn prepare_tab_data(&self) -> (r: TabRenderData)
        ensures
            r@ == tab_data(self@, self@.tabs.len()),
    {
        let ghost b = self@;
        let ghost cv = |c: TabCell| c@;
        let mut cells: Vec<TabCell> = Vec::new();
        let mut active_tab_index: usize = 0;
        let mut active_swap_layout_name: Option<String> = None;
        let mut is_swap_layout_dirty = false;
        let mut is_alternate = false;
        let mut i: usize = 0;
        assert(cells@.map_values(cv) =~= Seq::<CellView>::empty());
        while i < self.tabs.len()
            invariant
                i <= self.tabs.len(),
                b == self@,
                cv == (|c: TabCell| c@),
                cells@.map_values(cv) == tab_data(b, i as nat).tabs,
                active_tab_index == tab_data(b, i as nat).active_tab_index,
                opt_text(active_swap_layout_name) == tab_data(b, i as nat).active_swap_layout_name,
                is_swap_layout_dirty == tab_data(b, i as nat).is_swap_layout_dirty,
                is_alternate == (i % 2 == 1),
            decreases self.tabs.len() - i,
        {
            let tab = &self.tabs[i];
            let ghost before = cells@.map_values(cv);
            assert(b.tabs[i as int] == tab@);
            let name = self.get_tab_display_name(tab);
            if tab.active {
                active_tab_index = tab.position;
                if self.mode_info.mode != InputMode::RenameTab {
                    is_swap_layout_dirty = tab.is_swap_layout_dirty;
                    active_swap_layout_name = copy_opt_text(&tab.active_swap_layout_name);
                }
            }
            let flag = match self.tab_flags.get(&tab.position) {
                Some(f) => Some(*f),
                None => None,
            };
            let cell = TabCell { index: i, name, is_alternate, flag };
            let ghost v = cell@;
            cells.push(cell);
            assert(cells@.map_values(cv) =~= before.push(v));
            is_alternate = !is_alternate;
            i += 1;
        }
        TabRenderData {
            tabs: cells,
            active_tab_index,
            active_swap_layout_name,
            is_swap_layout_dirty,
        }
    }

    /// What is to be drawn.
    pub fn render(&self) -> (r: Face)
        ensures
            rules::face_view(r) == rules::face(self@),
    {
        if self.is_tooltip {
            return Face::Tooltip;
        }
        if let Some(destination) = self.text_copy_destination {
            return Face::ClipboardHint(destination);
        }
        if self.display_system_clipboard_failure {
            return Face::ClipboardError;
        }
        if self.tabs.len() == 0 {
            return Face::Nothing;
        }
        Face::Tabs(self.prepare_tab_data())
    }

    /// Take in the styled line of tabs; what it is written as.
    pub fn show_tab_line(&mut self, parts: Vec<LinePart>) -> (r: String)
        ensures
            final(self)@ == (Bar { tab_line: part_views(parts@), ..old(self)@ }),
            r@ == rules::on_background(
                rules::line_text(part_views(parts@)),
                old(self)@.mode.style.text_unselected.background,
            ),
    {
        let ghost pv = part_views(parts@);
        let mut line = String::new();
        let mut i: usize = 0;
        proof {
            assert(pv.take(0) =~= Seq::<PartView>::empty());
            assert(line@ =~= Seq::<char>::empty());
        }
        while i < parts.len()
            invariant
                i <= parts.len(),
                pv == part_views(parts@),
                line@ == rules::line_text(pv.take(i as int)),
            decreases parts.len() - i,
        {
            proof {
                assert(pv.take(i + 1).drop_last() =~= pv.take(i as int));
                assert(pv[i as int] == parts@[i as int]@);
            }
            line.append(parts[i].part.as_str());
            i += 1;
        }
        assert(pv.take(i as int) =~= pv);
        let out = self.render_background_with_text(line.as_str());
        self.tab_line = parts;
        assert(self@ =~= (Bar { tab_line: pv, ..old(self)@ }));
        out
    }

    /// A text with the bar's background over the rest of the line.
    pub fn render_background_with_text(&self, line: &str) -> (r: String)
        ensures
            r@ == rules::on_background(line@, self@.mode.style.text_unselected.background),
    {
        let mut out = line.to_owned();
        match self.mode_info.style.text_unselected.background {
            PaletteColor::Rgb(r, g, b) => {
                out.append("\u{1b}[48;2;");
                push_decimal(&mut out, r as u64);
                out.append(";");
                push_decimal(&mut out, g as u64);
                out.append(";");
                push_decimal(&mut out, b as u64);
                out.append("m\u{1b}[0K");
            },
            PaletteColor::EightBit(c) => {
                out.append("\u{1b}[48;5;");
                push_decimal(&mut out, c as u64);
                out.append("m\u{1b}[0K");
            },
        }
        out
    }
}

fn event_types(is_tooltip: bool) -> (r: Vec<EventType>)
    ensures
        r@ == rules::subscriptions(is_tooltip),
{
    let mut v: Vec<EventType> = Vec::new();
    if is_tooltip {
        v.push(EventType::ModeUpdate);
        v.push(EventType::TabUpdate);
        v.push(EventType::InitialKeybinds);
    } else {
        v.push(EventType::TabUpdate);
        v.push(EventType::PaneUpdate);
        v.push(EventType::ModeUpdate);
        v.push(EventType::Mouse);
        v.push(EventType::CopyToClipboard);
        v.push(EventType::InputReceived);
        v.push(EventType::SystemClipboardFailure);
        v.push(EventType::InitialKeybinds);
        v.push(EventType::Timer);
        v.push(EventType::PermissionRequestResult);
    }
    assert(v@ =~= rules::subscriptions(is_tooltip));
    v
}

} // verus!
