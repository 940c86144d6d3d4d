use zellij_ext::auto_tab_name::{
    anchor_pane, derive_name, extract_name, first_token, is_boring, is_default_tab_name,
    looks_like_path, strip_exe, AutoState, State,
};
use zellij_ext::dict::Dict;
use zellij_ext::host::{PaneInfo, PaneManifest, TabInfo, TabPanes};

fn pane(id: u32, command: Option<&str>, title: &str) -> PaneInfo {
    PaneInfo {
        id,
        is_plugin: false,
        is_focused: false,
        is_suppressed: false,
        is_selectable: true,
        title: title.to_string(),
        terminal_command: command.map(|c| c.to_string()),
        plugin_url: None,
        pane_x: 0,
        pane_content_x: 0,
        other: vec![],
    }
}

fn tab(position: usize, tab_id: usize, name: &str) -> TabInfo {
    TabInfo {
        position,
        name: name.to_string(),
        active: position == 0,
        tab_id,
        display_area_rows: 24,
        display_area_columns: 80,
        is_swap_layout_dirty: false,
        active_swap_layout_name: None,
        other: vec![],
    }
}

fn manifest(tabs: Vec<(usize, Vec<PaneInfo>)>) -> PaneManifest {
    let mut panes = Dict::new();
    for (position, list) in tabs {
        panes.insert(position, TabPanes { list });
    }
    PaneManifest { panes }
}

#[test]
fn boring_shells() {
    assert!(is_boring("pwsh"));
    assert!(is_boring("powershell"));
    assert!(is_boring("PowerShell.exe"));
    assert!(is_boring("bash"));
    assert!(is_boring("zsh"));
}

#[test]
fn boring_paths() {
    assert!(is_boring("/usr/bin/foo"));
    assert!(is_boring("~/projects"));
    assert!(is_boring("C:\\Users"));
    assert!(is_boring("F:/GitRepos"));
}

#[test]
fn interesting_apps() {
    assert!(!is_boring("nvim"));
    assert!(!is_boring("helix"));
    assert!(!is_boring("lazygit"));
    assert!(!is_boring("ssh"));
}

#[test]
fn boring_placeholders() {
    assert!(is_boring("Pane"));
    assert!(is_boring("Pane #1"));
    assert!(is_boring("Tab #3"));
    assert!(is_boring("42"));
}

#[test]
fn extract_first_token() {
    assert_eq!(extract_name("nvim file.rs"), Some("nvim".into()));
    assert_eq!(extract_name("  helix --task foo"), Some("helix".into()));
    assert_eq!(extract_name(""), None);
    assert_eq!(extract_name("/usr/bin/foo"), None);
}

#[test]
fn default_name_recognition() {
    assert!(is_default_tab_name("Tab #1"));
    assert!(is_default_tab_name("Tab #42"));
    assert!(!is_default_tab_name("Tab #"));
    assert!(!is_default_tab_name("Tab #abc"));
    assert!(!is_default_tab_name("nvim"));
}

#[test]
fn words_paths_and_extensions() {
    assert_eq!(first_token("  two words"), "two");
    assert_eq!(first_token("   "), "");
    assert_eq!(first_token("a\u{3000}b"), "a");
    assert_eq!(strip_exe("git.exe"), "git");
    assert_eq!(strip_exe("git.EXE"), "git.EXE");
    assert_eq!(strip_exe(".exe"), "");
    assert!(looks_like_path("C:/"));
    assert!(!looks_like_path("C:"));
    assert!(!looks_like_path("é:\\x"));
    assert!(is_boring(""));
    assert!(is_boring("CMD.exe"));
    assert!(!is_boring("cmd.EXE"));
}

#[test]
fn the_lowest_terminal_pane_is_the_anchor() {
    let mut plugin = pane(1, None, "plugin");
    plugin.is_plugin = true;
    let mut hidden = pane(2, None, "hidden");
    hidden.is_suppressed = true;
    let mut locked = pane(3, None, "locked");
    locked.is_selectable = false;
    let panes = vec![pane(9, None, "a"), plugin, hidden, locked, pane(5, None, "b")];
    assert_eq!(anchor_pane(&panes), Some(4));
    assert_eq!(anchor_pane(&vec![]), None);
}

#[test]
fn a_command_goes_before_a_title() {
    assert_eq!(derive_name(&pane(1, Some("htop -d 5"), "title")), Some("htop".to_string()));
    assert_eq!(derive_name(&pane(1, Some("bash"), "vim notes")), Some("vim".to_string()));
    assert_eq!(derive_name(&pane(1, None, "~/x")), None);
}

#[test]
fn a_placeholder_tab_is_named_once() {
    let mut state = State::new();
    assert!(state.on_pane_update(manifest(vec![(0, vec![pane(1, Some("htop"), "")])])).is_empty());
    let renames = state.on_tab_update(&vec![tab(0, 7, "Tab #1")]);
    assert_eq!(renames, vec![(7, "htop".to_string())]);
    assert!(state.on_tab_update(&vec![tab(0, 7, "htop")]).is_empty());
    let renames = state.on_pane_update(manifest(vec![(0, vec![pane(1, Some("vim"), "")])]));
    assert_eq!(renames, vec![(7, "vim".to_string())]);
}

#[test]
fn a_name_of_the_users_is_left_alone_until_it_is_reset() {
    let mut state = State::new();
    state.on_pane_update(manifest(vec![(0, vec![pane(1, Some("htop"), "")])]));
    assert!(state.on_tab_update(&vec![tab(0, 7, "mine")]).is_empty());
    assert!(matches!(state.auto_state.get(&7), Some(AutoState::Manual)));
    let renames = state.on_tab_update(&vec![tab(0, 7, "Tab #2")]);
    assert_eq!(renames, vec![(7, "htop".to_string())]);
    assert!(state.on_tab_update(&vec![tab(0, 7, "other")]).is_empty());
    assert!(matches!(state.auto_state.get(&7), Some(AutoState::Manual)));
}

#[test]
fn a_tab_that_is_gone_is_forgotten() {
    let mut state = State::new();
    state.on_tab_update(&vec![tab(0, 7, "Tab #1"), tab(1, 8, "Tab #2")]);
    state.on_tab_update(&vec![tab(0, 8, "Tab #2")]);
    assert!(state.auto_state.get(&7).is_none());
    assert!(state.auto_state.get(&8).is_some());
    assert_eq!(state.position_to_tab_id.get(&0), Some(&8));
    assert!(state.position_to_tab_id.get(&1).is_none());
}
