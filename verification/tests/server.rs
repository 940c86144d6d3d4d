use zellij_ext::detach_cleanup::{Effect, Instance, WasmBridge, WorkerMessage};
use zellij_ext::dict::Dict;
use zellij_ext::host::InputMode;
use zellij_ext::screen::{
    ActivePane, AltScreenScroll, NoActivePane, PaneId, Prompt, PromptStep, Screen, Tab,
};

fn tab(position: usize) -> Tab {
    Tab { position, active_panes: Dict::new(), outbox: vec![] }
}

fn active(alternate: bool, wheel: Option<&str>) -> ActivePane {
    ActivePane {
        pane_id: PaneId::Terminal(6),
        is_alternate_mode_active: alternate,
        wheel_up: wheel.map(|w| format!("{w}up")),
        wheel_down: wheel.map(|w| format!("{w}down")),
    }
}

#[test]
fn the_first_tab_is_the_leftmost_whatever_its_id() {
    let mut screen = Screen { tabs: vec![(3, tab(2)), (5, tab(1)), (9, tab(1))] };
    screen.first_tab_mut().unwrap().position = 7;
    let positions: Vec<usize> = screen.tabs.iter().map(|(_, t)| t.position).collect();
    assert_eq!(positions, vec![2, 7, 1]);
    assert_eq!(screen.first_tab_mut().unwrap().position, 1);
    assert!(Screen { tabs: vec![] }.first_tab_mut().is_none());
}

#[test]
fn a_scroll_is_handed_to_the_application_in_the_alternate_screen() {
    let mut t = tab(0);
    assert!(!t.forward_scroll_in_alternate_screen(AltScreenScroll::LineUp, 1));
    t.active_panes.insert(1, active(false, Some("w")));
    assert!(!t.forward_scroll_in_alternate_screen(AltScreenScroll::LineUp, 1));
    assert!(t.outbox.is_empty());
    t.active_panes.insert(1, active(true, Some("w")));
    t.active_panes.insert(2, active(true, None));
    assert!(t.forward_scroll_in_alternate_screen(AltScreenScroll::LineUp, 1));
    assert!(t.forward_scroll_in_alternate_screen(AltScreenScroll::LineDown, 1));
    assert!(t.forward_scroll_in_alternate_screen(AltScreenScroll::LineUp, 2));
    assert!(t.forward_scroll_in_alternate_screen(AltScreenScroll::LineDown, 2));
    assert!(t.forward_scroll_in_alternate_screen(AltScreenScroll::PageUp, 1));
    assert!(t.forward_scroll_in_alternate_screen(AltScreenScroll::PageDown, 2));
    let sent: Vec<&[u8]> = t.outbox.iter().map(|w| w.bytes.as_slice()).collect();
    assert_eq!(
        sent,
        vec![
            &b"wup"[..],
            &b"wdown"[..],
            &b"\x1b[A"[..],
            &b"\x1b[B"[..],
            &b"\x1b[5~"[..],
            &b"\x1b[6~"[..],
        ]
    );
    assert_eq!(t.outbox[5].pane_id, PaneId::Terminal(6));
    assert_eq!(t.outbox[5].client_id, Some(2));
}

#[test]
fn a_prompt_is_a_paste_and_an_enter() {
    let mut t = tab(0);
    t.active_panes.insert(1, active(false, None));
    let first: PromptStep<&str, String> =
        t.prompt_to_active_terminal(b"hi".to_vec(), 1, Some("done")).unwrap();
    let then = match first {
        PromptStep::Paste { pane_id, bytes, then } => {
            assert_eq!(pane_id, PaneId::Terminal(6));
            assert_eq!(bytes, b"hi");
            then
        },
        _ => panic!("a prompt starts with a paste"),
    };
    let then = match then.after(Ok::<(), String>(())) {
        PromptStep::Write { pane_id, bytes, completion, then } => {
            assert_eq!(pane_id, PaneId::Terminal(6));
            assert_eq!(bytes, vec![13]);
            assert_eq!(completion, Some("done"));
            then
        },
        _ => panic!("enter follows a paste"),
    };
    assert!(matches!(then.after(Ok::<(), String>(())), PromptStep::Done));
}

#[test]
fn a_failed_paste_sends_no_enter() {
    let t = tab(0);
    let first: PromptStep<(), String> =
        t.prompt_to_pane_id(b"hi".to_vec(), PaneId::Plugin(2), None);
    let then = match first {
        PromptStep::Paste { then, .. } => then,
        _ => panic!("a prompt starts with a paste"),
    };
    assert!(matches!(
        then.after(Err("gone".to_string())),
        PromptStep::Failed(e) if e == "gone"
    ));
    let entering: Prompt<()> = Prompt::Entering;
    assert!(matches!(entering.after(Err("late".to_string())), PromptStep::Failed(_)));
}

#[test]
fn a_client_without_a_pane_cannot_be_prompted() {
    let t = tab(0);
    let r: Result<PromptStep<(), ()>, NoActivePane> =
        t.prompt_to_active_terminal(vec![], 12, None);
    let e = match r {
        Err(e) => e,
        Ok(_) => panic!("there is no pane"),
    };
    assert_eq!(e.context(), "failed to prompt active terminal for client 12");
    assert_eq!(e.cause(), "no active pane for client 12");
}

fn instance(plugin_id: u32, client_id: u16, intercepting: bool, workers: &[&str]) -> Instance {
    Instance {
        plugin_id,
        client_id,
        intercepting_key_presses: intercepting,
        workers: workers.iter().map(|w| w.to_string()).collect(),
        quiesced: false,
    }
}

fn message(client_id: u16) -> WorkerMessage {
    WorkerMessage {
        client_id,
        worker: "w".to_string(),
        message: "m".to_string(),
        payload: "p".to_string(),
    }
}

fn bridge(connected: Vec<u16>, plugin_map: Vec<Instance>) -> WasmBridge {
    let mut b = WasmBridge {
        connected_clients: connected,
        plugin_map,
        keybinds: Dict::new(),
        base_modes: Dict::new(),
        cached_worker_messages: Dict::new(),
        cached_plugin_map: Dict::new(),
    };
    for c in [1, 2, 3] {
        b.keybinds.insert(c, vec![c as u8]);
        b.base_modes.insert(c, InputMode::Normal);
    }
    b.cached_worker_messages.insert(7, vec![message(1), message(2), message(1)]);
    b.cached_plugin_map.insert(7, vec![1]);
    b
}

fn names(effects: &[Effect]) -> Vec<String> {
    effects
        .iter()
        .map(|e| match e {
            Effect::ClearKeyPressesIntercepts(c) => format!("clear {c}"),
            Effect::Quiesce { plugin_id, client_id } => format!("quiesce {plugin_id} {client_id}"),
            Effect::ExitWorker { plugin_id, client_id, worker } => {
                format!("exit {plugin_id} {client_id} {worker}")
            },
            Effect::Drop { plugin_id, client_id } => format!("drop {plugin_id} {client_id}"),
        })
        .collect()
}

#[test]
fn a_leaving_client_takes_its_instances_with_it() {
    let mut b = bridge(
        vec![2],
        vec![
            instance(10, 1, false, &["a", "b"]),
            instance(10, 2, true, &[]),
            instance(11, 1, true, &[]),
        ],
    );
    let effects = b.tear_down_client_instances(1);
    assert_eq!(
        names(&effects),
        vec!["clear 1", "exit 10 1 a", "exit 10 1 b", "drop 10 1", "drop 11 1"]
    );
    assert_eq!(b.plugin_map.len(), 1);
    assert_eq!(b.plugin_map[0].client_id, 2);
    assert!(!b.keybinds.contains(&1) && b.keybinds.contains(&2));
    assert!(!b.base_modes.contains(&1));
    let left = b.cached_worker_messages.get(&7).unwrap();
    assert_eq!(left.len(), 1);
    assert_eq!(left[0].client_id, 2);
    assert!(b.cached_plugin_map.is_empty());
}

#[test]
fn the_last_clients_instances_are_quiesced_and_kept() {
    let mut b = bridge(vec![], vec![instance(10, 1, false, &["a"]), instance(11, 1, true, &[])]);
    let effects = b.tear_down_client_instances(1);
    assert_eq!(names(&effects), vec!["quiesce 10 1", "quiesce 11 1", "clear 1"]);
    assert_eq!(b.plugin_map.len(), 2);
    assert!(b.plugin_map.iter().all(|i| i.quiesced));
    assert!(!b.keybinds.contains(&1));
}

#[test]
fn an_arriving_client_sweeps_what_others_left() {
    let mut b = bridge(
        vec![2],
        vec![
            instance(10, 1, false, &[]),
            instance(10, 2, false, &[]),
            instance(10, 3, false, &[]),
            instance(10, 4, false, &[]),
            instance(11, 1, false, &[]),
        ],
    );
    let effects = b.sweep_orphan_carcasses(3);
    assert_eq!(names(&effects), vec!["drop 10 1", "drop 11 1", "drop 10 4"]);
    let left: Vec<u16> = b.plugin_map.iter().map(|i| i.client_id).collect();
    assert_eq!(left, vec![2, 3]);
    assert!(b.sweep_orphan_carcasses(3).is_empty());
}
