use zellij_ext::ctl::{no_session_message, target_session};
use zellij_ext::host_theme::{theme_mode, HostTerminalThemeMode, WatchStep, Watcher};
use zellij_ext::pipe_security::user_pipe_descriptor;
use zellij_ext::session_pipes::live_session_ids;
use zellij_ext::std_handles::{repoint_std_handles_at_own_console, Step, Warning};
use zellij_ext::vt_input::format_bytes;
use zellij_ext::wait_client::{
    start, subscription, Matcher, Refused, ServerMsg, WaitCli, FAILED, MATCHED, TIMED_OUT,
};

fn cli(regex: Option<&str>, literal: Option<&str>) -> WaitCli {
    WaitCli {
        regex: regex.map(|s| s.to_string()),
        match_text: literal.map(|s| s.to_string()),
        pane_id: "terminal_x".to_string(),
        timeout: None,
        print_match: false,
    }
}

fn render(viewport: &[&str], scrollback: Option<&[&str]>) -> ServerMsg {
    let own = |v: &[&str]| v.iter().map(|s| s.to_string()).collect::<Vec<_>>();
    ServerMsg::PaneRenderUpdate { viewport: own(viewport), scrollback: scrollback.map(own) }
}

#[test]
fn a_regex_goes_before_a_literal() {
    let m = Matcher::new(&cli(Some("a+b"), Some("x"))).unwrap();
    assert_eq!(m.description(), "/a+b/");
    assert!(m.matches("caab"));
    assert!(!m.matches("a+b"));
    let m = Matcher::new(&cli(None, Some("a+b"))).unwrap();
    assert_eq!(m.description(), "'a+b'");
    assert!(m.matches("xa+by"));
    assert!(!m.matches("caab"));
    assert!(Matcher::new(&cli(None, Some(""))).unwrap().matches(""));
}

#[test]
fn a_wait_needs_something_to_wait_for() {
    assert_eq!(Matcher::new(&cli(None, None)).unwrap_err(), "Pass either --regex or --match");
    let e = Matcher::new(&cli(Some("("), None)).unwrap_err();
    assert!(e.starts_with("Invalid --regex '(': regex parse error:"));
    let e = start(&cli(None, None), &Some("bad".to_string())).unwrap_err();
    assert_eq!(e.stderr, vec!["Pass either --regex or --match"]);
    assert_eq!(e.status, FAILED);
    let e = start(&cli(None, Some("x")), &Some("bad".to_string())).unwrap_err();
    assert_eq!(e.stderr, vec!["Invalid pane ID 'terminal_x': bad"]);
    assert!(start(&cli(None, Some("x")), &None).is_ok());
}

#[test]
fn what_became_of_the_regex_decides() {
    let refused = Refused { pattern: "(".to_string(), why: "no".to_string() };
    let e = Matcher::pick(Some(Err(refused)), &Some("x".to_string())).unwrap_err();
    assert_eq!(e, "Invalid --regex '(': no");
    let m = Matcher::pick(None, &Some("x".to_string())).unwrap();
    assert!(m.judge("axb", false));
    assert!(!m.judge("ab", true));
    let m = Matcher::new(&cli(Some("x"), None)).unwrap();
    assert!(m.judge("ab", true));
    assert!(!m.judge("axb", false));
}

#[test]
fn a_match_may_span_lines_and_prints_the_lines_that_match_alone() {
    let m = Matcher::new(&cli(Some("b\nc|d"), None)).unwrap();
    assert!(m.on_message(&render(&["a", "b"], None), "s", "1", true).is_none());
    let end = m.on_message(&render(&["c", "xd"], Some(&["a", "b"])), "s", "1", true).unwrap();
    assert_eq!(end.status, MATCHED);
    assert!(end.tell_server);
    assert_eq!(end.stdout, vec!["xd"]);
    let end = m.on_message(&render(&["d"], None), "s", "1", false).unwrap();
    assert!(end.stdout.is_empty());
    let m = Matcher::new(&cli(None, Some("b\nc"))).unwrap();
    let end = m.on_message(&render(&["b", "c"], None), "s", "1", true).unwrap();
    assert!(end.stdout.is_empty());
}

#[test]
fn a_wait_subscribes_to_its_pane_alone() {
    let s = subscription("terminal_1");
    assert_eq!(s.pane_ids, vec!["terminal_1"]);
    assert_eq!(s.scrollback, Some(0));
    assert!(!s.ansi);
}

#[test]
fn a_wait_fails_when_the_pane_or_the_session_goes() {
    let m = Matcher::new(&cli(None, Some("x"))).unwrap();
    let end = m.on_message(&ServerMsg::SubscribedPaneClosed, "s", "terminal_1", false).unwrap();
    assert_eq!(end.stderr, vec!["Pane terminal_1 closed before 'x' matched"]);
    assert_eq!(end.status, FAILED);
    let end = m.on_message(&ServerMsg::Exit, "s", "terminal_1", false).unwrap();
    assert_eq!(end.stderr, vec!["Session 's' ended before 'x' matched"]);
    let lines = vec!["one".to_string(), "two".to_string()];
    let end = m.on_message(&ServerMsg::LogError { lines }, "s", "1", false).unwrap();
    assert_eq!(end.stderr, vec!["one", "two"]);
    assert!(!end.tell_server);
    assert!(m.on_message(&ServerMsg::Other, "s", "1", false).is_none());
    let end = m.on_timeout(1500);
    assert_eq!(end.stderr, vec!["Timed out after 1500ms waiting for 'x'"]);
    assert_eq!(end.status, TIMED_OUT);
}

#[test]
fn a_session_is_live_while_its_own_pipe_is_there() {
    let names: Vec<String> = [
        "C:\\sock\\u1",
        "C:\\sock\\u1-reply",
        "C:\\sock\\deep\\u2",
        "C:\\other\\u3",
        "C:\\sock\\u4",
        "C:\\sock\\u4",
    ]
    .iter()
    .map(|s| s.to_string())
    .collect();
    for dir in ["C:\\sock", "C:\\sock\\"] {
        let ids = live_session_ids(dir, &Some(names.clone())).unwrap();
        assert_eq!(ids.len(), 2);
        assert!(ids.contains(&"u1".to_string()) && ids.contains(&"u4".to_string()));
    }
    assert!(live_session_ids("C:\\sock", &None).is_none());
    assert!(live_session_ids("C:\\sock", &Some(vec![])).unwrap().is_empty());
}

#[test]
fn a_pipe_lets_its_user_in() {
    let wide = user_pipe_descriptor("S-1-5-21").unwrap();
    assert_eq!(
        String::from_utf16(&wide).unwrap(),
        "D:(A;;FA;;;SY)(A;;FA;;;BA)(A;;FA;;;S-1-5-21)"
    );
    let wide = user_pipe_descriptor("\u{1F600}").unwrap();
    assert_eq!(wide[35..37], [0xD83D, 0xDE00]);
    let e = user_pipe_descriptor("\u{1F600}\0x").unwrap_err();
    assert_eq!(e.nul_position, 37);
    assert_eq!(e.message(), "invalid nul value found at position 37");
}

#[test]
fn a_theme_is_reported_when_it_changes() {
    assert_eq!(theme_mode(0), HostTerminalThemeMode::Dark);
    assert_eq!(theme_mode(2), HostTerminalThemeMode::Light);
    let mut w = Watcher::new();
    assert_eq!(w.observe(Some(1)), WatchStep::Report(HostTerminalThemeMode::Light));
    assert_eq!(w.observe(Some(2)), WatchStep::Wait);
    assert_eq!(w.observe(Some(0)), WatchStep::Report(HostTerminalThemeMode::Dark));
    assert_eq!(w.observe(None), WatchStep::Stop);
}

#[test]
fn a_console_is_used_created_or_given_up_on() {
    let opening = |step: Step<u8>| match step {
        Step::Open(r) => r,
        _ => panic!("not opening"),
    };
    let r = opening(repoint_std_handles_at_own_console());
    assert!(matches!(
        r.after_open(Some(1), Some(2)),
        Step::Use { input: 1, output: 2 }
    ));

    let r = opening(repoint_std_handles_at_own_console());
    let allocating = match r.after_open(Some(1), None) {
        Step::CloseAndAllocate(held, a) => {
            assert_eq!(held, vec![1]);
            a
        },
        _ => panic!("half a console is not enough"),
    };
    match opening(allocating.after_allocate(true)).after_open(None, Some(4)) {
        Step::GiveUp(held, w) => {
            assert_eq!(held, vec![4]);
            assert_eq!(w.text(), "allocated a console but could not open CONIN$/CONOUT$");
        },
        _ => panic!("a console is created once"),
    }

    let r = opening(repoint_std_handles_at_own_console());
    let allocating = match r.after_open::<u8>(None, None) {
        Step::CloseAndAllocate(held, a) => {
            assert!(held.is_empty());
            a
        },
        _ => panic!("no console"),
    };
    assert!(matches!(
        allocating.after_allocate::<u8>(false),
        Step::GiveUp(_, Warning::NoConsole)
    ));
    assert!(Warning::NoConsole.text().starts_with("no console for the server process; ConPTY"));
}

#[test]
fn bytes_are_shown_as_characters_or_escapes() {
    assert_eq!(format_bytes(b"\x1b[A~\x7f"), "\\x1b [ A ~ \\x7f");
    assert_eq!(format_bytes(b" \xff"), "  \\xff");
    assert_eq!(format_bytes(b""), "");
}

#[test]
fn a_session_that_was_asked_for_is_not_made_up_for() {
    let s = |t: &str| Some(t.to_string());
    assert_eq!(target_session(s("a"), s("b")), s("a"));
    assert_eq!(target_session(None, s("b")), s("b"));
    assert_eq!(target_session(s(""), s("b")), None);
    assert_eq!(target_session(None, s("")), None);
    assert_eq!(target_session(None, None), None);
    assert_eq!(
        no_session_message(),
        "zellijctl: no session (pass --session or set ZELLIJ_SESSION_NAME)"
    );
}
