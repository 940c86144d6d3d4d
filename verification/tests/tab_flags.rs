use zellij_ext::dict::Dict;
use zellij_ext::host::{PaneInfo, PaneManifest, TabPanes};
use zellij_ext::readmodel::{Agent, AgentStatus, ReadResult};
use zellij_ext::tab_flags::{compute_tab_flags, project_for_session, PaneAgent, TabFlag};

fn agent(id: &str, session: Option<&str>, pane: Option<u32>, status: AgentStatus, at: i64) -> Agent {
    Agent {
        session_id: id.to_string(),
        name: String::new(),
        cwd: String::new(),
        status,
        waiting_for: None,
        kind: String::new(),
        parent_session_id: None,
        zellij_session: session.map(|s| s.to_string()),
        zellij_pane_id: pane,
        started_at_ms: 0,
        attention_at_ms: at,
        active: true,
    }
}

fn pane(id: u32, is_plugin: bool) -> PaneInfo {
    PaneInfo {
        id,
        is_plugin,
        is_focused: false,
        is_suppressed: false,
        is_selectable: true,
        title: String::new(),
        terminal_command: None,
        plugin_url: None,
        pane_x: 0,
        pane_content_x: 0,
        other: vec![],
    }
}

fn manifest(tabs: Vec<(usize, Vec<PaneInfo>)>) -> PaneManifest {
    let mut panes = Dict::new();
    for (position, list) in tabs {
        panes.insert(position, TabPanes { list });
    }
    PaneManifest { panes }
}

#[test]
fn agents_of_one_pane_are_summed_up() {
    let read = ReadResult::Loaded(vec![
        agent("a", Some("s"), Some(1), AgentStatus::Idle, 5),
        agent("b", Some("s"), Some(1), AgentStatus::Busy, 3),
        agent("c", Some("s"), Some(1), AgentStatus::Idle, 9),
        agent("d", Some("t"), Some(2), AgentStatus::Busy, 1),
        agent("e", Some("s"), None, AgentStatus::Busy, 1),
        agent("f", None, Some(3), AgentStatus::Busy, 1),
    ]);
    let out = project_for_session(&read, "s");
    assert_eq!(out.len(), 1);
    assert_eq!(
        out.get(&1),
        Some(&PaneAgent {
            claude_id: "c".to_string(),
            status: AgentStatus::Busy,
            attention_at_ms: 9,
        })
    );
    assert!(project_for_session(&ReadResult::Missing, "s").is_empty());
    assert!(project_for_session(&ReadResult::Unreadable("x".to_string()), "s").is_empty());
    assert!(project_for_session(&ReadResult::ParseError("x".to_string()), "s").is_empty());
}

#[test]
fn attention_wins_and_the_active_tab_is_marked_seen_instead() {
    let read = ReadResult::Loaded(vec![
        agent("a", Some("s"), Some(1), AgentStatus::Busy, 0),
        agent("b", Some("s"), Some(2), AgentStatus::Idle, 10),
        agent("c", Some("s"), Some(3), AgentStatus::Idle, 10),
        agent("d", Some("s"), Some(4), AgentStatus::Idle, 0),
    ]);
    let agents = project_for_session(&read, "s");
    let panes = manifest(vec![
        (0, vec![pane(1, false), pane(2, false)]),
        (1, vec![pane(3, false), pane(2, true)]),
        (2, vec![pane(4, false)]),
    ]);
    let mut seen: Dict<String, i64> = Dict::new();
    let (flags, marks) = compute_tab_flags(&agents, &panes, Some(1), &seen);
    assert_eq!(flags.get(&0), Some(&TabFlag::Attention));
    assert_eq!(flags.get(&1), None);
    assert_eq!(flags.get(&2), None);
    assert_eq!(marks, vec![("c".to_string(), 10)]);

    seen.insert("b".to_string(), 10);
    let (flags, marks) = compute_tab_flags(&agents, &panes, None, &seen);
    assert_eq!(flags.get(&0), Some(&TabFlag::Busy));
    assert_eq!(flags.get(&1), Some(&TabFlag::Attention));
    assert!(marks.is_empty());
}
