use zellij_ext::compact_bar::rules::{
    Action, Coordinates, CopyDestination, Event, EventType, Face, LinePart, Outcome, PipeMessage,
    State,
};
use zellij_ext::compact_bar::work::{bind_toggle_key_config, is_restricted_mode, mode_title};
use zellij_ext::dict::Dict;
use zellij_ext::host::{
    InputMode, ModeInfo, PaletteColor, PaneInfo, PaneManifest, StyleDeclaration, Styling, TabInfo,
    TabPanes,
};
use zellij_ext::readmodel::{Agent, AgentStatus, ReadResult};
use zellij_ext::tab_flags::TabFlag;

const SIZE: (usize, usize) = (5, 20);

fn color(n: u8) -> StyleDeclaration {
    let c = PaletteColor::EightBit(n);
    StyleDeclaration {
        base: c,
        background: c,
        emphasis_0: c,
        emphasis_1: c,
        emphasis_2: c,
        emphasis_3: c,
    }
}

fn mode(mode: InputMode) -> ModeInfo {
    ModeInfo {
        mode,
        base_mode: None,
        session_name: Some("s".to_string()),
        style: Styling {
            text_unselected: color(7),
            text_selected: color(8),
            ribbon_selected: color(9),
            list_selected: color(10),
            frame_selected: color(11),
            exit_code_error: color(12),
        },
        keybinds: vec![],
        other: vec![],
    }
}

fn config(pairs: &[(&str, &str)]) -> Dict<String, String> {
    let mut d = Dict::new();
    for (k, v) in pairs {
        d.insert(k.to_string(), v.to_string());
    }
    d
}

fn bar(pairs: &[(&str, &str)]) -> State {
    let mut s = State::new("st".to_string(), mode(InputMode::Normal));
    s.load(config(pairs), 3, 4);
    s
}

fn tab(position: usize, active: bool, name: &str) -> TabInfo {
    TabInfo {
        position,
        name: name.to_string(),
        active,
        tab_id: position,
        display_area_rows: 30,
        display_area_columns: 100,
        is_swap_layout_dirty: active,
        active_swap_layout_name: Some(format!("layout{position}")),
        other: vec![],
    }
}

fn pane(id: u32, is_plugin: bool) -> PaneInfo {
    PaneInfo {
        id,
        is_plugin,
        is_focused: false,
        is_suppressed: false,
        is_selectable: true,
        title: String::new(),
        terminal_command: None,
        plugin_url: None,
        pane_x: 0,
        pane_content_x: 0,
        other: vec![],
    }
}

fn manifest(tabs: Vec<(usize, Vec<PaneInfo>)>) -> PaneManifest {
    let mut panes = Dict::new();
    for (position, list) in tabs {
        panes.insert(position, TabPanes { list });
    }
    PaneManifest { panes }
}

fn names(actions: &[Action]) -> Vec<String> {
    actions
        .iter()
        .map(|a| match a {
            Action::Subscribe(events) => format!("subscribe {}", events.len()),
            Action::RequestPermissions(p) => format!("permissions {}", p.len()),
            Action::Reconfigure { config: _, write_to_disk } => format!("reconfigure {write_to_disk}"),
            Action::SetSelectable(b) => format!("selectable {b}"),
            Action::ChangeHostFolder(p) => format!("mount {p}"),
            Action::ReadSnapshot(p) => format!("read {p}"),
            Action::ReadSeenEvents(p) => format!("seen {p}"),
            Action::RecomputeTabFlags(d) => format!("recompute {d:?}"),
            Action::SetTimeout(t) => format!("timeout {t}"),
            Action::SwitchTabTo(t) => format!("tab {t}"),
            Action::CloseSelf => "close".to_string(),
            Action::PipeMessage(m) => format!(
                "pipe {} {} {} {:?} {:?}",
                m.name,
                m.url,
                m.title,
                m.args.get(&"persist".to_string()),
                m.config.get(&"is_tooltip".to_string())
            ),
            Action::ChangeCoordinates { plugin_id, coordinates } => {
                format!("move {plugin_id} {} {}", coordinates.y, coordinates.width)
            },
            Action::RenamePane { plugin_id, title } => format!("title {plugin_id} {title}"),
            Action::BreakPaneToTab { plugin_id, tab_index, change_focus } => {
                format!("break {plugin_id} {tab_index} {change_focus}")
            },
        })
        .collect()
}

fn did(o: Outcome) -> (bool, Vec<String>) {
    (o.rerender, names(&o.actions))
}

#[test]
fn loading_depends_on_the_configuration() {
    let mut s = State::new("st".to_string(), mode(InputMode::Normal));
    assert_eq!(
        names(&s.load(config(&[("tooltip", "F1")]), 3, 4)),
        vec!["subscribe 10", "reconfigure false", "permissions 3"]
    );
    assert_eq!(s.toggle_tooltip_key, Some("F1".to_string()));
    assert!(!s.is_first_run);

    let mut s = State::new("st".to_string(), mode(InputMode::Normal));
    let actions = s.load(config(&[("is_tooltip", "true"), ("tooltip", "F1")]), 3, 4);
    assert_eq!(names(&actions), vec!["subscribe 3"]);
    assert!(matches!(&actions[0], Action::Subscribe(v) if v[0] == EventType::ModeUpdate));
    assert!(s.is_tooltip && s.is_first_run);
    assert_eq!(s.toggle_tooltip_key, None);

    let mut s = State::new("st".to_string(), mode(InputMode::Normal));
    assert_eq!(
        names(&s.load(config(&[("is_tooltip", "yes")]), 3, 4)),
        vec!["subscribe 10", "permissions 3"]
    );
}

#[test]
fn the_key_binding_names_key_and_client() {
    assert_eq!(
        bind_toggle_key_config("F1", 12),
        "\n        keybinds {\n            shared {\n                bind \"F1\" {\n                  MessagePlugin \"compact-bar\" {\n                      name \"toggle_tooltip\"\n                      tooltip \"F1\"\n                      payload \"12\"\n                  }\n                }\n            }\n        }\n    "
    );
}

#[test]
fn a_mode_other_than_the_base_launches_a_tooltip() {
    let mut s = bar(&[("tooltip", "F1")]);
    let (rerender, actions) = did(s.update(Event::ModeUpdate(mode(InputMode::Pane)), SIZE));
    assert!(rerender);
    assert_eq!(
        actions,
        vec!["pipe launch_tooltip_if_not_launched zellij:OWN_URL Pane None Some(\"true\")"]
    );
    let (rerender, actions) = did(s.update(Event::ModeUpdate(mode(InputMode::Pane)), SIZE));
    assert!(!rerender);
    assert_eq!(actions.len(), 1);
    let (_, actions) = did(s.update(Event::ModeUpdate(mode(InputMode::Locked)), SIZE));
    assert!(actions.is_empty());
    let (_, actions) = did(s.update(Event::ModeUpdate(mode(InputMode::Normal)), SIZE));
    assert!(actions.is_empty());
    assert!(is_restricted_mode(InputMode::CopyMode) && !is_restricted_mode(InputMode::Tab));
    assert_eq!(mode_title(InputMode::EnterSearch), "EnterSearch");
}

#[test]
fn a_tooltip_follows_its_mode_and_closes_with_it() {
    let mut s = bar(&[("is_tooltip", "true")]);
    s.update(Event::TabUpdate(vec![tab(0, true, "a")]), SIZE);
    let (_, actions) = did(s.update(Event::ModeUpdate(mode(InputMode::Tab)), SIZE));
    assert_eq!(actions, vec!["move 3 21 24", "title 3 Tab"]);
    let (_, actions) = did(s.update(Event::ModeUpdate(mode(InputMode::Normal)), SIZE));
    assert_eq!(actions, vec!["close"]);
    assert_eq!(
        s.calculate_tooltip_coordinates((28, 1)),
        Coordinates { x: 2, y: 0, width: 5, height: 30, pinned: true, borderless: false }
    );
}

#[test]
fn a_tooltip_told_to_stay_stays_until_told_again() {
    let toggle = PipeMessage {
        name: "toggle_persisted_tooltip".to_string(),
        payload: None,
        is_private: true,
    };
    let mut s = bar(&[("is_tooltip", "true")]);
    assert!(did(s.pipe(&toggle, SIZE)).1.is_empty());
    assert!(s.persist);
    let (_, actions) = did(s.update(Event::ModeUpdate(mode(InputMode::Normal)), SIZE));
    assert_eq!(actions, vec!["move 3 0 24", "title 3 Normal"]);
    assert_eq!(did(s.pipe(&toggle, SIZE)).1, vec!["close"]);
    assert_eq!(did(s.update(Event::TabUpdate(vec![tab(0, false, "a"), tab(1, true, "b")]), SIZE)).1, vec!["break 3 1 false"]);
}

#[test]
fn the_tooltip_key_is_answered_in_the_own_tab_for_the_own_client() {
    let message = |payload: &str| PipeMessage {
        name: "toggle_tooltip".to_string(),
        payload: Some(payload.to_string()),
        is_private: true,
    };
    let mut s = bar(&[("tooltip", "F1")]);
    s.update(Event::TabUpdate(vec![tab(0, false, "a"), tab(1, true, "b")]), SIZE);
    s.update(Event::PaneUpdate(manifest(vec![(1, vec![pane(3, true)])])), SIZE);
    assert_eq!(s.own_tab_index, Some(1));
    assert_eq!(
        did(s.pipe(&message("4"), SIZE)).1,
        vec!["pipe toggle_persisted_tooltip zellij:OWN_URL Normal Some(\"\") Some(\"true\")"]
    );
    assert!(did(s.pipe(&message("5"), SIZE)).1.is_empty());
    s.update(Event::TabUpdate(vec![tab(0, true, "a"), tab(1, false, "b")]), SIZE);
    assert!(did(s.pipe(&message("4"), SIZE)).1.is_empty());
}

#[test]
fn a_floating_bar_is_a_tooltip() {
    let mut s = bar(&[("tooltip", "F1")]);
    let mut floating = pane(8, true);
    floating.plugin_url = Some("zellij:compact-bar".to_string());
    assert!(!s.update(Event::PaneUpdate(manifest(vec![(0, vec![pane(3, true)])])), SIZE).rerender);
    floating.pane_content_x = 1;
    let o = s.update(Event::PaneUpdate(manifest(vec![(0, vec![pane(3, true), floating])])), SIZE);
    assert!(o.rerender && s.tooltip_is_active);
    let o = s.update(Event::PaneUpdate(manifest(vec![])), SIZE);
    assert!(o.rerender && !s.tooltip_is_active);
    assert_eq!(s.own_tab_index, None);
}

#[test]
fn tabs_without_an_active_one_are_of_no_use() {
    let mut s = bar(&[]);
    assert_eq!(did(s.update(Event::TabUpdate(vec![tab(0, false, "a")]), SIZE)), (false, vec![]));
    assert!(s.tabs.is_empty());
    let (rerender, actions) = did(s.update(Event::TabUpdate(vec![tab(0, true, "a")]), SIZE));
    assert!(rerender);
    assert_eq!(actions, vec!["recompute None"]);
    assert_eq!((s.display_area_rows, s.display_area_cols), (30, 100));
    assert_eq!(did(s.update(Event::TabUpdate(vec![tab(0, true, "a")]), SIZE)), (false, vec![]));
    assert_eq!(did(s.update(Event::TabUpdate(vec![tab(0, true, "b")]), SIZE)), (true, vec![]));
}

#[test]
fn the_wheel_and_clicks_switch_tabs() {
    let mut s = bar(&[]);
    s.update(Event::TabUpdate(vec![tab(0, true, "a"), tab(1, false, "b")]), SIZE);
    assert_eq!(did(s.update(Event::ScrollUp, SIZE)).1, vec!["tab 2"]);
    assert_eq!(did(s.update(Event::ScrollDown, SIZE)).1, vec!["tab 1"]);
    s.update(Event::TabUpdate(vec![tab(0, false, "a"), tab(1, true, "b")]), SIZE);
    assert_eq!(did(s.update(Event::ScrollUp, SIZE)).1, vec!["tab 2"]);
    assert_eq!(did(s.update(Event::LeftClick(Some(7)), SIZE)).1, vec!["tab 7"]);
    assert!(did(s.update(Event::LeftClick(None), SIZE)).1.is_empty());
}

#[test]
fn key_bindings_left_out_of_a_report_are_kept() {
    let mut s = bar(&[]);
    assert!(s.update(Event::InitialKeybinds(vec![1, 2]), SIZE).rerender);
    assert_eq!(s.mode_info.keybinds, vec![1, 2]);
    s.update(Event::ModeUpdate(mode(InputMode::Tab)), SIZE);
    assert_eq!(s.mode_info.keybinds, vec![1, 2]);
    let mut m = mode(InputMode::Tab);
    m.keybinds = vec![3];
    s.update(Event::ModeUpdate(m), SIZE);
    assert_eq!(s.cached_keybinds, vec![3]);
}

fn agent(id: &str, pane: u32, status: AgentStatus, at: i64) -> Agent {
    Agent {
        session_id: id.to_string(),
        name: String::new(),
        cwd: String::new(),
        status,
        waiting_for: None,
        kind: String::new(),
        parent_session_id: None,
        zellij_session: Some("s".to_string()),
        zellij_pane_id: Some(pane),
        started_at_ms: 0,
        attention_at_ms: at,
        active: true,
    }
}

#[test]
fn tabs_are_tinted_by_their_agents() {
    let mut s = bar(&[]);
    let (_, actions) = did(s.update(
        Event::PermissionRequestResult(config(&[("HOME", "/h")])),
        SIZE,
    ));
    assert_eq!(
        actions,
        vec!["selectable false", "mount /h", "seen /host/st/agent-seen-events", "timeout 15"]
    );
    assert!(did(s.update(Event::PermissionRequestResult(config(&[])), SIZE)).1.is_empty());
    assert_eq!(
        did(s.update(Event::Timer, SIZE)).1,
        vec![
            "read /host/st/agent-readmodel.json",
            "seen /host/st/agent-seen-events",
            "recompute Some(\"/host/st/agent-seen-events\")",
            "timeout 15",
        ]
    );
    s.update(Event::TabUpdate(vec![tab(0, true, "a"), tab(1, false, "")]), SIZE);
    s.update(
        Event::PaneUpdate(manifest(vec![(0, vec![pane(1, false)]), (1, vec![pane(2, false)])])),
        SIZE,
    );
    s.update(
        Event::Snapshot(ReadResult::Loaded(vec![
            agent("a", 1, AgentStatus::Busy, 9),
            agent("b", 2, AgentStatus::Idle, 9),
        ])),
        SIZE,
    );
    assert!(s.update(Event::Recompute(Some(Dict::new())), SIZE).rerender);
    assert!(!s.update(Event::Recompute(None), SIZE).rerender);
    assert_eq!(s.tab_flags.get(&0), Some(&TabFlag::Busy));
    assert_eq!(s.tab_flags.get(&1), Some(&TabFlag::Attention));
    let mut seen = Dict::new();
    seen.insert("b".to_string(), 9);
    assert!(!s.update(Event::SeenEvents(seen), SIZE).rerender);
    assert!(s.update(Event::Recompute(None), SIZE).rerender);
    assert_eq!(s.tab_flags.get(&1), None);
}

#[test]
fn the_line_of_tabs_and_the_clipboard() {
    let mut s = bar(&[]);
    assert!(matches!(s.render(), Face::Nothing));
    s.update(Event::TabUpdate(vec![tab(0, false, "a"), tab(1, true, "")]), SIZE);
    let data = s.prepare_tab_data();
    assert_eq!(data.active_tab_index, 1);
    assert_eq!(data.active_swap_layout_name, Some("layout1".to_string()));
    assert!(data.is_swap_layout_dirty);
    assert_eq!(data.tabs[1].name, "");
    assert!(!data.tabs[0].is_alternate && data.tabs[1].is_alternate);
    s.update(Event::ModeUpdate(mode(InputMode::RenameTab)), SIZE);
    let data = s.prepare_tab_data();
    assert_eq!(data.tabs[1].name, "Enter name...");
    assert_eq!(data.active_swap_layout_name, None);
    assert!(!data.is_swap_layout_dirty);

    assert!(s.update(Event::SystemClipboardFailure, SIZE).rerender);
    assert!(matches!(s.render(), Face::ClipboardError));
    assert!(s.update(Event::CopyToClipboard(CopyDestination::System), SIZE).rerender);
    assert!(!s.update(Event::CopyToClipboard(CopyDestination::System), SIZE).rerender);
    assert!(matches!(s.render(), Face::ClipboardHint(CopyDestination::System)));
    assert!(s.update(Event::InputReceived, SIZE).rerender);
    assert!(!s.update(Event::InputReceived, SIZE).rerender);
    assert!(matches!(s.render(), Face::Tabs(_)));

    let part = |t: &str| LinePart { part: t.to_string(), len: t.len(), tab_index: None };
    assert_eq!(
        s.show_tab_line(vec![part("ab"), part("c")]),
        "abc\u{1b}[48;5;7m\u{1b}[0K"
    );
    assert_eq!(s.tab_line.len(), 2);
    s.mode_info.style.text_unselected.background = PaletteColor::Rgb(1, 20, 255);
    assert_eq!(s.render_background_with_text("x"), "x\u{1b}[48;2;1;20;255m\u{1b}[0K");
}
