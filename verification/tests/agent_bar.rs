use unicode_width::UnicodeWidthStr;
use zellij_ext::agent_bar::events::{Action, Event, Outcome, SessionReport};
use zellij_ext::agent_bar::groups::{grouped, GroupLabel, SessionMeta};
use zellij_ext::agent_bar::paint::{
    attention_frame, diag_frame, frame_text, mark_row, render_agent_line, render_header,
    AgentColors, RowState, Span,
};
use zellij_ext::agent_bar::panel::{LoadState, RowTarget, State};
use zellij_ext::dict::Dict;
use zellij_ext::host::{
    InputMode, ModeInfo, PaletteColor, PaneInfo, PaneManifest, StyleDeclaration, Styling, TabInfo,
    TabPanes,
};
use zellij_ext::keys::{BareKey, KeyModifier, KeyWithModifier};
use zellij_ext::readmodel::{Agent, AgentStatus, ReadResult};

fn declaration(n: u8) -> StyleDeclaration {
    StyleDeclaration {
        base: PaletteColor::EightBit(n),
        background: PaletteColor::EightBit(n + 1),
        emphasis_0: PaletteColor::EightBit(n + 2),
        emphasis_1: PaletteColor::EightBit(n + 3),
        emphasis_2: PaletteColor::EightBit(n + 4),
        emphasis_3: PaletteColor::EightBit(n + 5),
    }
}

fn styling() -> Styling {
    Styling {
        text_unselected: declaration(0),
        text_selected: declaration(10),
        ribbon_selected: declaration(20),
        list_selected: declaration(30),
        frame_selected: declaration(40),
        exit_code_error: declaration(50),
    }
}

fn mode(session: &str) -> ModeInfo {
    ModeInfo {
        mode: InputMode::Normal,
        base_mode: None,
        session_name: Some(session.to_string()),
        style: styling(),
        keybinds: vec![],
        other: vec![],
    }
}

fn agent(id: &str, session: Option<&str>, pane: Option<u32>, started: i64) -> Agent {
    Agent {
        session_id: id.to_string(),
        name: id.to_string(),
        cwd: String::new(),
        status: AgentStatus::Idle,
        waiting_for: None,
        kind: String::new(),
        parent_session_id: None,
        zellij_session: session.map(|s| s.to_string()),
        zellij_pane_id: pane,
        started_at_ms: started,
        attention_at_ms: 0,
        active: true,
    }
}

fn key(k: BareKey) -> Event {
    Event::Key(KeyWithModifier { bare_key: k, key_modifiers: vec![] })
}

fn env() -> Dict<String, String> {
    let mut d = Dict::new();
    d.insert("HOME".to_string(), "/home/u".to_string());
    d
}

fn report(name: &str, clients: usize, age_ms: i64) -> SessionReport {
    SessionReport { name: name.to_string(), clients, age_ms }
}

fn panel(agents: Vec<Agent>, sessions: Vec<SessionReport>) -> State {
    let mut s = State::new("st".to_string(), mode("s"));
    s.update(Event::PermissionRequestResult(env()), 1000);
    s.update(Event::Snapshot(ReadResult::Loaded(agents)), 1000);
    s.update(Event::Sessions(Some(sessions)), 1000);
    s
}

fn draw(s: &mut State, rows: usize, cols: usize) -> Vec<String> {
    s.render(rows, cols, Dict::new())
        .unwrap()
        .iter()
        .map(|row| row.iter().map(|span| span.text.as_str()).collect::<String>())
        .collect()
}

fn name_span(row: &[Span]) -> &Span {
    &row[3]
}

fn names(actions: &[Action]) -> Vec<String> {
    actions
        .iter()
        .map(|a| match a {
            Action::Subscribe(events) => format!("subscribe {}", events.len()),
            Action::RequestPermissions(p) => format!("permissions {}", p.len()),
            Action::ChangeHostFolder(p) => format!("mount {p}"),
            Action::ReadSeenEvents(p) => format!("seen {p}"),
            Action::ReadSnapshot(p) => format!("read {p}"),
            Action::ListSessions => "list".to_string(),
            Action::SetTimeout(t) => format!("timeout {t}"),
            Action::SwitchSession(n) => format!("switch {n}"),
            Action::RunCommand { args, context } => format!("run {} {:?}", args.join(" "), context),
            Action::CopyToClipboard(t) => format!("copy {t}"),
            Action::FocusRight => "right".to_string(),
            Action::WriteEvent { dir, name, bytes } => {
                format!("write {dir} {name} {}", String::from_utf8(bytes.clone()).unwrap())
            },
        })
        .collect()
}

fn did(o: Outcome) -> (bool, Vec<String>) {
    (o.rerender, names(&o.actions))
}

#[test]
fn groups_stand_oldest_first_with_the_rest_below() {
    let mut sessions = Dict::new();
    sessions.insert("new".to_string(), SessionMeta { clients: 1, created_ms: 50 });
    sessions.insert("old".to_string(), SessionMeta { clients: 1, created_ms: 10 });
    sessions.insert("aged".to_string(), SessionMeta { clients: 1, created_ms: 10 });
    let mut bg = agent("bg", Some("old"), None, 1);
    bg.kind = "bg".to_string();
    let agents = vec![
        agent("x2", Some("old"), Some(1), 9),
        agent("lost", None, Some(1), 1),
        agent("x1", Some("old"), Some(1), 5),
        agent("x3", Some("old"), None, 9),
        bg,
        agent("g", Some("gone"), Some(2), 30),
    ];
    let groups = grouped(&agents, &sessions);
    let labels: Vec<&str> = groups.iter().map(|g| g.label.as_str()).collect();
    assert_eq!(labels, vec!["aged", "old", "gone", "new", "sessionless", "bg agents"]);
    let rows = |i: usize| {
        groups[i].rows.iter().map(|r| r.agent.session_id.as_str()).collect::<Vec<_>>()
    };
    assert_eq!(rows(0), Vec::<&str>::new());
    assert_eq!(rows(1), vec!["x1", "x2", "x3"]);
    assert_eq!(rows(4), vec!["lost"]);
    assert_eq!(rows(5), vec!["bg"]);
    assert!(groups[1].any_unrouted && !groups[3].any_unrouted && !groups[5].any_unrouted);
    assert_eq!(groups[2].created_ms, 30);
    assert_eq!(groups[1].rows[0].focus_sid, Some("x1".to_string()));
    assert_eq!(groups[5].rows[0].focus_sid, None);
    assert!(matches!(groups[4].label, GroupLabel::Sessionless));
}

#[test]
fn loading_subscribes_and_asks() {
    let mut s = State::new("st".to_string(), mode("s"));
    assert_eq!(names(&s.load(9)), vec!["subscribe 8", "permissions 5"]);
    assert_eq!(s.own_plugin_id, Some(9));
}

#[test]
fn the_permission_answer_starts_everything_once() {
    let mut s = State::new("st".to_string(), mode("s"));
    let (rerender, actions) = did(s.update(Event::PermissionRequestResult(env()), 0));
    assert!(rerender);
    assert_eq!(
        actions,
        vec![
            "mount /home/u",
            "seen /host/st/agent-seen-events",
            "read /host/st/agent-readmodel.json",
            "list",
            "timeout 15",
        ]
    );
    assert_eq!(did(s.update(Event::PermissionRequestResult(env()), 0)), (false, vec![]));

    let mut s = State::new("st".to_string(), mode("s"));
    let (_, actions) = did(s.update(Event::PermissionRequestResult(Dict::new()), 0));
    assert_eq!(actions, vec!["list", "timeout 15"]);
    assert!(matches!(s.load, LoadState::NoHomeInEnv));
}

#[test]
fn every_state_has_a_face_of_its_own() {
    let mut s = State::new("st".to_string(), mode("s"));
    assert_eq!(draw(&mut s, 1, 30), vec![" agent-bar needs permissions\u{2026} "]);
    s.update(Event::PermissionRequestResult(Dict::new()), 0);
    assert_eq!(draw(&mut s, 1, 60), vec!["$HOME / $USERPROFILE not in session env"]);

    let mut s = State::new("st".to_string(), mode("s"));
    s.update(Event::PermissionRequestResult(env()), 0);
    assert_eq!(draw(&mut s, 1, 60), vec!["reading /host/st/agent-readmodel.json"]);
    s.update(Event::Snapshot(ReadResult::Missing), 0);
    assert_eq!(draw(&mut s, 1, 60), vec!["missing: /host/st/agent-readmodel.json"]);
    s.update(Event::Snapshot(ReadResult::Unreadable("no".to_string())), 0);
    assert_eq!(draw(&mut s, 1, 60), vec!["unreadable /host/st/agent-readmodel.json: no"]);
    s.update(Event::Snapshot(ReadResult::ParseError("bad".to_string())), 0);
    assert_eq!(draw(&mut s, 1, 60), vec!["parse error: bad"]);
    s.update(Event::Snapshot(ReadResult::Loaded(vec![])), 0);
    assert_eq!(draw(&mut s, 1, 60), vec!["no agents"]);
    s.update(Event::Sessions(Some(vec![report("s", 1, 0)])), 0);
    assert_eq!(draw(&mut s, 2, 6), vec![" s    "]);
    assert!(s.render(0, 6, Dict::new()).is_none());
}

#[test]
fn a_session_keeps_its_creation_time() {
    let mut s = panel(vec![], vec![report("s", 1, 400)]);
    assert_eq!(s.sessions.get(&"s".to_string()).unwrap().created_ms, 600);
    assert!(!s.update(Event::Sessions(Some(vec![report("s", 1, 900)])), 2000).rerender);
    assert_eq!(s.sessions.get(&"s".to_string()).unwrap().created_ms, 600);
    assert!(s.update(Event::Sessions(Some(vec![report("s", 2, 900)])), 2000).rerender);
    assert!(s.update(Event::Sessions(None), 2000).rerender);
    assert!(s.sessions.is_empty());
}

#[test]
fn the_panel_lists_headers_and_rows_and_routes_clicks() {
    let mut s = panel(
        vec![agent("aaa", Some("s"), Some(1), 1), agent("bbb", Some("t"), None, 2)],
        vec![report("s", 1, 300), report("t", 1, 200), report("u", 0, 100)],
    );
    let rows = draw(&mut s, 10, 10);
    assert_eq!(
        rows,
        vec![
            " s        ",
            " > aaa    ",
            "          ",
            " t \u{2717} \u{29C9}    ",
            " \u{2717} bbb    ",
            "          ",
            " u        ",
        ]
    );
    let targets: Vec<(usize, String)> = s
        .row_ranges
        .iter()
        .map(|(r, t)| match t {
            RowTarget::Agent(a) => (*r, format!("agent {a}")),
            RowTarget::Session(n) => (*r, format!("session {n}")),
        })
        .collect();
    assert_eq!(
        targets,
        vec![
            (1, "agent aaa".to_string()),
            (3, "session t".to_string()),
            (4, "agent bbb".to_string()),
            (6, "session u".to_string()),
        ]
    );
    assert_eq!(did(s.update(Event::LeftClick(6), 0)), (true, vec!["switch u".to_string()]));
    assert_eq!(did(s.update(Event::LeftClick(0), 0)), (false, vec![]));
    assert_eq!(did(s.update(Event::LeftClick(-1), 0)), (false, vec![]));
    let (rerender, actions) = did(s.update(Event::LeftClick(4), 0));
    assert!(rerender);
    assert_eq!(
        actions,
        vec![
            "run mux focus-agent bbb [(\"click_label\", \"bbb\"), (\"session_id\", \"bbb\")]"
                .to_string()
        ]
    );
    assert_eq!(s.selected_idx, Some(1));
    assert_eq!(draw(&mut s, 10, 10)[4], " \u{280B} bbb    ");
}

#[test]
fn a_spinner_turns_until_its_command_is_done() {
    let mut s = panel(vec![agent("a", Some("s"), Some(1), 1)], vec![report("s", 1, 0)]);
    draw(&mut s, 5, 10);
    s.update(Event::LeftClick(1), 0);
    let (rerender, actions) = did(s.update(Event::Timer, 0));
    assert!(rerender);
    assert_eq!(actions.last().unwrap(), "timeout 1");
    assert_eq!(draw(&mut s, 5, 10)[1], " \u{2819} a      ");
    let mut ctx = Dict::new();
    ctx.insert("session_id".to_string(), "a".to_string());
    assert!(s.update(Event::RunCommandResult(ctx), 0).rerender);
    assert!(!s.update(Event::RunCommandResult(Dict::new()), 0).rerender);
    let (rerender, actions) = did(s.update(Event::Timer, 0));
    assert!(!rerender);
    assert_eq!(actions, vec!["timeout 15"]);
}

#[test]
fn a_lost_result_cannot_spin_forever() {
    let mut s = panel(vec![agent("a", Some("s"), Some(1), 1)], vec![report("s", 1, 0)]);
    draw(&mut s, 5, 10);
    s.update(Event::LeftClick(1), 0);
    let mut polls = 0;
    for _ in 0..101 {
        let (_, actions) = did(s.update(Event::Timer, 0));
        polls += actions.iter().filter(|a| a.starts_with("read")).count();
    }
    assert!(s.in_flight.is_empty());
    assert!(polls >= 6);
}

#[test]
fn polling_reads_all_there_is() {
    let mut s = panel(vec![], vec![]);
    let (_, actions) = did(s.update(Event::Timer, 0));
    assert_eq!(
        actions,
        vec![
            "read /host/st/agent-readmodel.json",
            "seen /host/st/agent-seen-events",
            "list",
            "timeout 15",
        ]
    );
    assert!(!s.update(Event::Snapshot(ReadResult::Loaded(vec![])), 0).rerender);
    assert!(s.update(Event::Snapshot(ReadResult::Missing), 0).rerender);
    assert!(!s.update(Event::Snapshot(ReadResult::Missing), 0).rerender);
    let mut seen = Dict::new();
    seen.insert("a".to_string(), 4);
    assert!(s.update(Event::SeenEvents(seen), 0).rerender);
}

#[test]
fn the_cursor_moves_and_is_kept_in_range() {
    let agents = vec![
        agent("a", Some("s"), Some(1), 1),
        agent("b", Some("s"), Some(2), 2),
        agent("c", Some("s"), Some(3), 3),
    ];
    let mut s = panel(agents, vec![report("s", 1, 0)]);
    assert!(s.update(key(BareKey::Down), 0).rerender);
    assert_eq!(s.selected_idx, Some(0));
    s.update(key(BareKey::Char('j')), 0);
    assert_eq!(s.selected_idx, Some(1));
    s.update(key(BareKey::End), 0);
    assert_eq!(s.selected_idx, Some(2));
    s.update(key(BareKey::Down), 0);
    assert_eq!(s.selected_idx, Some(2));
    s.update(key(BareKey::Home), 0);
    s.update(key(BareKey::Up), 0);
    assert_eq!(s.selected_idx, Some(0));
    let held = Event::Key(KeyWithModifier {
        bare_key: BareKey::Down,
        key_modifiers: vec![KeyModifier::Ctrl],
    });
    assert!(!s.update(held, 0).rerender);
    s.update(key(BareKey::Char('G')), 0);
    s.update(Event::Snapshot(ReadResult::Loaded(vec![agent("a", Some("s"), Some(1), 1)])), 0);
    draw(&mut s, 5, 10);
    assert_eq!(s.selected_idx, Some(0));
    assert_eq!(did(s.update(key(BareKey::Char('y')), 0)), (true, vec!["copy a".to_string()]));
    assert_eq!(
        did(s.update(key(BareKey::Char('v')), 0)),
        (true, vec!["copy mux focus-agent a".to_string()])
    );
    assert_eq!(did(s.update(key(BareKey::Esc), 0)), (true, vec!["right".to_string()]));
    assert_eq!(did(s.update(key(BareKey::Tab), 0)), (false, vec![]));
}

#[test]
fn acknowledging_clears_the_alert_and_leaves_a_mark() {
    let mut a = agent("a\"b", Some("s"), Some(1), 1);
    a.attention_at_ms = 77;
    let mut s = panel(vec![a], vec![report("s", 1, 0)]);
    let colors = AgentColors::from_palette(&styling());
    let before = s.render(5, 10, Dict::new()).unwrap();
    assert_eq!(name_span(&before[1]).bg, colors.yellow);
    s.update(key(BareKey::Down), 0);
    let (_, actions) = did(s.update(key(BareKey::Enter), 0));
    assert_eq!(
        actions[0],
        "write /host/st/agent-seen-events a\"b {\"seen_at_ms\":77,\"session_id\":\"a\\\"b\"}"
    );
    s.selected_idx = None;
    let after = s.render(5, 10, Dict::new()).unwrap();
    assert_eq!(name_span(&after[1]).bg, colors.bar_bg);
}

#[test]
fn only_an_agent_that_is_gone_can_be_dismissed() {
    let mut dead = agent("dead", Some("s"), Some(2), 2);
    dead.active = false;
    let mut s = panel(vec![agent("live", Some("s"), Some(1), 1), dead], vec![report("s", 1, 0)]);
    s.update(key(BareKey::Home), 0);
    assert_eq!(did(s.update(key(BareKey::Char('x')), 5)), (false, vec![]));
    s.update(key(BareKey::End), 0);
    draw(&mut s, 9, 12);
    assert_eq!(did(s.update(key(BareKey::Enter), 5)), (true, vec![]));
    assert_eq!(
        did(s.update(key(BareKey::Char('g')), 5)).1,
        vec!["run mux focus-agent dead [(\"click_label\", \"dead\"), (\"session_id\", \"dead\")]"]
    );
    assert_eq!(
        did(s.update(key(BareKey::Char('x')), 5)),
        (
            true,
            vec![
                "write /host/st/agent-dismissed-events dead {\"dismissed_at_ms\":5,\"session_id\":\"dead\"}"
                    .to_string()
            ]
        )
    );
    assert_eq!(s.display_order().len(), 1);
    assert_eq!(draw(&mut s, 9, 12).len(), 2);
    s.update(
        Event::Snapshot(ReadResult::Loaded(vec![agent("dead", Some("s"), Some(2), 2)])),
        0,
    );
    assert_eq!(draw(&mut s, 9, 12)[1], " \u{280B} dead     ");
    assert!(s.dismissed_overlay.is_empty());
}

fn pane(id: u32, is_plugin: bool, is_focused: bool) -> PaneInfo {
    PaneInfo {
        id,
        is_plugin,
        is_focused,
        is_suppressed: false,
        is_selectable: true,
        title: String::new(),
        terminal_command: None,
        plugin_url: None,
        pane_x: 0,
        pane_content_x: 0,
        other: vec![],
    }
}

fn panes(list: Vec<PaneInfo>) -> PaneManifest {
    let mut d = Dict::new();
    d.insert(0, TabPanes { list });
    PaneManifest { panes: d }
}

fn tab(position: usize, active: bool) -> TabInfo {
    TabInfo {
        position,
        name: String::new(),
        active,
        tab_id: position,
        display_area_rows: 0,
        display_area_columns: 0,
        is_swap_layout_dirty: false,
        active_swap_layout_name: None,
        other: vec![],
    }
}

#[test]
fn focus_brings_the_cursor_to_the_agent_in_the_last_pane() {
    let mut s = panel(
        vec![agent("a", Some("s"), Some(1), 1), agent("b", Some("s"), Some(2), 2)],
        vec![report("s", 1, 0)],
    );
    s.own_plugin_id = Some(9);
    assert!(s.update(Event::TabUpdate(vec![tab(0, true)]), 0).rerender);
    assert!(!s.update(Event::TabUpdate(vec![tab(0, true)]), 0).rerender);
    assert!(s.update(Event::PaneUpdate(panes(vec![pane(2, false, true)])), 0).rerender);
    assert!(!s.update(Event::PaneUpdate(panes(vec![pane(2, false, true)])), 0).rerender);
    assert_eq!(s.last_external_focused_pane, Some(2));
    assert!(s.update(Event::PaneUpdate(panes(vec![pane(9, true, true)])), 0).rerender);
    assert_eq!(s.selected_idx, Some(1));
    assert!(s.am_focused() && s.follow_selection);
    s.update(Event::PaneUpdate(panes(vec![pane(3, false, true)])), 0);
    assert_eq!(s.selected_idx, None);
    assert_eq!(s.focused_external_pane_id(), Some(3));
}

#[test]
fn green_is_for_this_session_only() {
    let colors = AgentColors::from_palette(&styling());
    let mut s = panel(
        vec![agent("a", Some("s"), Some(1), 1), agent("b", Some("t"), Some(1), 2)],
        vec![report("s", 1, 10), report("t", 0, 5)],
    );
    s.update(Event::TabUpdate(vec![tab(0, true)]), 0);
    s.update(Event::PaneUpdate(panes(vec![pane(1, false, true)])), 0);
    let frame = s.render(9, 10, Dict::new()).unwrap();
    assert_eq!(name_span(&frame[1]).bg, colors.green);
    assert_eq!(name_span(&frame[4]).bg, colors.bar_bg);
    assert_eq!(frame[0][1].bg, colors.green);
}

#[test]
fn the_wheel_scrolls_and_never_moves_the_cursor() {
    let agents = (0..6).map(|i| agent(&format!("a{i}"), Some("s"), Some(i), i as i64)).collect();
    let mut s = panel(agents, vec![report("s", 1, 0)]);
    s.update(key(BareKey::Home), 0);
    draw(&mut s, 3, 10);
    assert!(!s.update(Event::ScrollUp(0), 0).rerender);
    assert!(s.update(Event::ScrollDown(0), 0).rerender);
    let rows = draw(&mut s, 3, 10);
    assert_eq!(rows[0], " > a0    \u{2191}");
    assert_eq!(rows[2], " > a2    \u{2193}");
    assert_eq!(s.selected_idx, Some(0));
    s.update(Event::ScrollDown(usize::MAX), 0);
    let rows = draw(&mut s, 3, 10);
    assert_eq!(rows[2], " > a5     ");
    s.update(key(BareKey::Home), 0);
    assert_eq!(draw(&mut s, 3, 10)[1], " > a0     ");
}

#[test]
fn headers_are_cut_to_fit() {
    let colors = AgentColors::from_palette(&styling());
    let text = |spans: Vec<Span>| spans.iter().map(|s| s.text.as_str()).collect::<String>();
    assert_eq!(text(render_header("session", false, false, false, &colors, 6)), " sess\u{2026}");
    assert_eq!(text(render_header("ab", true, true, false, &colors, 7)), " ab \u{2717} \u{29C9}");
    assert_eq!(text(render_header("ab", true, true, false, &colors, 6)), " ab \u{2717} ");
    assert_eq!(text(render_header("ab", true, true, false, &colors, 0)), " \u{2026}");
    let own = render_header("ab", false, true, true, &colors, 9);
    assert_eq!((own[0].fg, own[0].bg), (colors.on_color, colors.green));
    let other = render_header("ab", false, true, false, &colors, 9);
    assert_eq!((other[0].fg, other[0].bg), (colors.magenta, colors.header_bg));
}

fn row_state() -> RowState {
    RowState {
        needs_attention: false,
        unrouted: false,
        is_in_view: false,
        active: true,
        is_first_wrap_line: true,
        is_child: false,
        is_last_child: false,
        is_bg: false,
        selected: false,
        spinner: None,
    }
}

#[test]
fn rows_are_painted_by_priority() {
    let c = AgentColors::from_palette(&styling());
    let paint = |status: AgentStatus, s: RowState| render_agent_line("n", &status, &s, &c, 8);

    let row = paint(AgentStatus::Busy, row_state());
    assert_eq!((row[3].fg, row[3].bg, row[3].bold), (c.magenta, c.bar_bg, false));

    let row = paint(AgentStatus::Waiting, RowState { is_in_view: true, ..row_state() });
    assert_eq!((row[1].bg, row[3].bg, row[3].fg), (c.green, c.yellow, c.on_color));

    let row = paint(
        AgentStatus::Unknown("x".to_string()),
        RowState { selected: true, ..row_state() },
    );
    assert_eq!((row[0].bg, row[1].bg, row[3].bg), (c.selected_bg, c.error, c.selected_bg));
    assert_eq!((row[1].fg, row[3].fg), (c.selected_fg, c.selected_fg));

    let row = paint(
        AgentStatus::Waiting,
        RowState { active: false, needs_attention: true, is_in_view: true, ..row_state() },
    );
    assert_eq!((row[1].bg, row[3].bg, row[3].dim), (c.bar_bg, c.bar_bg, true));
    assert_eq!(row[1].text, "\u{2020}");

    let row = paint(AgentStatus::Idle, RowState { unrouted: true, ..row_state() });
    assert_eq!((row[1].text.as_str(), row[1].fg), ("\u{2717}", c.error));
    let row = paint(AgentStatus::Idle, RowState { is_bg: true, unrouted: true, ..row_state() });
    assert_eq!((row[1].text.as_str(), row[1].fg), ("\u{2219}", c.text));

    let row = paint(AgentStatus::Idle, RowState { is_child: true, ..row_state() });
    assert_eq!((row[1].text.as_str(), row[2].text.as_str()), ("\u{251c}", "\u{2500}"));
    let row = paint(
        AgentStatus::Idle,
        RowState { is_child: true, is_last_child: true, ..row_state() },
    );
    assert_eq!(row[1].text, "\u{2514}");
    let row = paint(AgentStatus::Idle, RowState { is_first_wrap_line: false, ..row_state() });
    assert_eq!(row[1].text, " ");
    assert_eq!(row[4].text, "    ");
}

#[test]
fn messages_take_as_many_rows_as_they_need() {
    let c = AgentColors::from_palette(&styling());
    let frame = diag_frame("one two three", c.error, c.bar_bg, 2, 6);
    assert_eq!(frame.len(), 2);
    assert_eq!(frame[0][0].text, "one ");
    assert_eq!(frame[1][0].text, "two \u{2026}");
    let frame = attention_frame("hello", &c, 2, 9);
    assert_eq!(frame[0][0].text, " hello ");
    assert!(frame[0][0].bold);
}

#[test]
fn a_frame_is_written_row_by_row() {
    assert_eq!(
        frame_text(&vec!["a".to_string()], 2),
        "\u{1b}[Ha\u{1b}[0K\r\n\u{1b}[0K"
    );
    assert_eq!(frame_text(&vec!["a".to_string(), "b".to_string()], 0), "\u{1b}[H");
}

#[test]
fn names_wrap_and_fall_back_to_the_id() {
    let mut long = agent("0123456789", Some("s"), Some(1), 1);
    long.name = "  alpha-beta-gamma  ".to_string();
    let mut unnamed = agent("0123456789", Some("s"), Some(2), 2);
    unnamed.name = " \t".to_string();
    let mut s = panel(vec![long, unnamed], vec![report("s", 1, 0)]);
    assert_eq!(
        draw(&mut s, 9, 10),
        vec![" s        ", " > alpha- ", "   beta-  ", "   gamma  ", " > 0123456", "   7      "]
    );
}

#[test]
fn every_row_is_as_wide_as_the_screen() {
    glyphs_are_one_column_wide();
    let agents: Vec<Agent> = (0..9)
        .map(|i| {
            let mut a = agent(&format!("a{i}"), Some("s"), Some(i), i as i64);
            a.name = if i % 2 == 0 { "wide \u{5E45}\u{5E45}\u{5E45}".to_string() } else { "x".repeat(30) };
            a
        })
        .collect();
    for cols in 3..14 {
        let mut s = panel(agents.clone(), vec![report("s", 2, 0), report("a longer name", 1, 5)]);
        for rows in 1..6 {
            draw(&mut s, rows, cols);
            s.update(Event::ScrollDown(2), 0);
            for row in draw(&mut s, rows, cols) {
                assert_eq!(UnicodeWidthStr::width(row.as_str()), cols);
            }
        }
    }
}

fn glyphs_are_one_column_wide() {
    for c in " >\u{2020}\u{2026}\u{2191}\u{2193}\u{2219}\u{2500}\u{2514}\u{251c}\u{2717}\u{29C9}".chars() {
        assert_eq!(UnicodeWidthStr::width(c.to_string().as_str()), 1);
    }
    for c in "\u{280B}\u{2819}\u{2839}\u{2838}\u{283C}\u{2834}\u{2826}\u{2827}\u{2807}\u{280F}".chars() {
        assert_eq!(UnicodeWidthStr::width(c.to_string().as_str()), 1);
    }
}

#[test]
fn a_mark_stands_in_the_last_column() {
    let colors = AgentColors::from_palette(&styling());
    let row = vec![
        Span { fg: colors.text, bg: colors.bar_bg, bold: false, dim: false, text: "ab".to_string() },
        Span {
            fg: colors.text,
            bg: colors.bar_bg,
            bold: true,
            dim: false,
            text: "c\u{5E45}".to_string(),
        },
        Span { fg: colors.text, bg: colors.bar_bg, bold: false, dim: false, text: "d".to_string() },
    ];
    let texts = |cols: usize| -> Vec<String> {
        mark_row(&row, cols, &colors, '\u{2191}').iter().map(|s| s.text.clone()).collect()
    };
    assert_eq!(texts(6), vec!["ab", "c\u{5E45}", "", "\u{2191}"]);
    assert_eq!(texts(5), vec!["ab", "c", " \u{2191}"]);
    assert_eq!(texts(2), vec!["a", "\u{2191}"]);
    assert_eq!(texts(0), vec!["", "\u{2191}"]);
    let mark = &mark_row(&row, 6, &colors, '\u{2191}')[3];
    assert_eq!(mark.fg, colors.accent);
    assert_eq!(mark.bg, colors.bar_bg);
}

#[test]
fn a_dismissal_is_kept_for_the_agents_given() {
    let mut s = panel(vec![], vec![]);
    s.dismissed_overlay.insert("gone".to_string(), ());
    s.dismissed_overlay.insert("back".to_string(), ());
    s.dismissed_overlay.insert("dropped".to_string(), ());
    let mut gone = agent("gone", None, None, 0);
    gone.active = false;
    s.prune_dismissed_overlay(&vec![gone, agent("back", None, None, 0)]);
    assert_eq!(s.dismissed_overlay.len(), 1);
    assert!(s.dismissed_overlay.contains(&"gone".to_string()));
}
