use zellij_ext::pane_nav::{
    adds_a_visit, advance, apply, prune, record, refresh_session, remove_node, step, NavState,
    TabSnapshot, MAX_NODES,
};

const S: &str = "sess";

fn tabs(ids: &[usize]) -> Vec<TabSnapshot> {
    ids.iter()
        .enumerate()
        .map(|(position, id)| (*id, position, format!("tab{id}")))
        .collect()
}

fn go(state: &mut NavState, tab_id: usize, live: &[TabSnapshot]) {
    apply(state, S, tab_id, live, 0);
}

fn cursor_tab(state: &NavState) -> usize {
    state.node(state.cursor).unwrap().tab_id
}

#[test]
fn linear_visits_form_a_chain() {
    let live = tabs(&[1, 2, 3]);
    let mut state = NavState::default();
    [1, 2, 3].iter().for_each(|t| go(&mut state, *t, &live));

    assert_eq!(state.nodes.len(), 3);
    assert_eq!(state.nodes[0].parent, None);
    assert_eq!(state.nodes[1].parent, Some(state.nodes[0].id));
    assert_eq!(state.nodes[2].parent, Some(state.nodes[1].id));
}

#[test]
fn backing_out_and_going_elsewhere_branches_without_losing_the_old_limb() {
    let live = tabs(&[1, 2, 3, 4]);
    let mut state = NavState::default();
    [1, 2, 3].iter().for_each(|t| go(&mut state, *t, &live));

    advance(&mut state, false).unwrap();
    advance(&mut state, false).unwrap();
    assert_eq!(cursor_tab(&state), 1);

    go(&mut state, 4, &live);

    assert_eq!(state.nodes.len(), 4);
    assert!(state.nodes.iter().any(|n| n.tab_id == 3));
    let root = state.nodes.iter().find(|n| n.tab_id == 1).unwrap().id;
    let mut children: Vec<usize> = state.children_of(root).iter().map(|n| n.tab_id).collect();
    children.sort();
    assert_eq!(children, vec![2, 4]);
}

#[test]
fn ping_pong_between_two_tabs_adds_no_nodes() {
    let live = tabs(&[1, 2]);
    let mut state = NavState::default();
    [1, 2, 1, 2, 1].iter().for_each(|t| go(&mut state, *t, &live));

    assert_eq!(state.nodes.len(), 2);
    assert_eq!(cursor_tab(&state), 1);
}

#[test]
fn forward_follows_the_branch_last_taken() {
    let live = tabs(&[1, 2, 3, 4]);
    let mut state = NavState::default();
    [1, 2, 3].iter().for_each(|t| go(&mut state, *t, &live));
    advance(&mut state, false).unwrap();
    advance(&mut state, false).unwrap();
    go(&mut state, 4, &live);

    advance(&mut state, false).unwrap();
    assert_eq!(cursor_tab(&state), 1);
    advance(&mut state, true).unwrap();
    assert_eq!(cursor_tab(&state), 4);
}

#[test]
fn closing_a_tab_splices_its_children_onto_the_grandparent() {
    let live = tabs(&[1, 2, 3]);
    let mut state = NavState::default();
    [1, 2, 3].iter().for_each(|t| go(&mut state, *t, &live));

    go(&mut state, 3, &tabs(&[1, 3]));

    assert_eq!(state.nodes.len(), 2);
    let root = state.nodes.iter().find(|n| n.tab_id == 1).unwrap().id;
    let orphan = state.nodes.iter().find(|n| n.tab_id == 3).unwrap();
    assert_eq!(orphan.parent, Some(root));
}

#[test]
fn only_a_real_move_reports_a_change_worth_writing() {
    let live = tabs(&[1, 2]);
    let mut state = NavState::default();

    assert!(apply(&mut state, S, 1, &live, 0), "first visit creates the root");
    assert!(!apply(&mut state, S, 1, &live, 0), "echo of the cursor changes nothing");
    assert!(apply(&mut state, S, 2, &live, 0), "a genuine move changes the tree");
}

#[test]
fn stepping_back_from_the_root_is_a_no_op() {
    let live = tabs(&[1]);
    let mut state = NavState::default();
    go(&mut state, 1, &live);

    assert!(advance(&mut state, false).is_none());
    assert_eq!(cursor_tab(&state), 1);
}

#[test]
fn a_renamed_and_moved_tab_is_refreshed_in_place() {
    let mut state = NavState::default();
    go(&mut state, 1, &tabs(&[1, 2]));
    let moved: Vec<TabSnapshot> = vec![(2, 0, "tab2".to_string()), (1, 1, "new".to_string())];
    assert!(refresh_session(&mut state, S, &moved));
    assert_eq!(state.nodes[0].tab_position, 1);
    assert_eq!(state.nodes[0].tab_name, "new");
    assert!(!refresh_session(&mut state, S, &moved));
}

#[test]
fn other_sessions_are_not_touched_by_a_refresh() {
    let mut state = NavState::default();
    apply(&mut state, "other", 7, &[(7, 0, "x".to_string())], 1);
    go(&mut state, 1, &tabs(&[1]));
    go(&mut state, 2, &tabs(&[2]));
    assert!(state.nodes.iter().any(|n| n.session == "other"));
    assert!(!state.nodes.iter().any(|n| n.session == S && n.tab_id == 1));
}

#[test]
fn removing_the_cursor_moves_it_to_its_parent() {
    let live = tabs(&[1, 2]);
    let mut state = NavState::default();
    [1, 2].iter().for_each(|t| go(&mut state, *t, &live));
    let gone = state.cursor;
    let parent = state.node(gone).unwrap().parent.unwrap();
    remove_node(&mut state, gone);
    assert_eq!(state.cursor, parent);
    assert_eq!(state.nodes.len(), 1);
}

#[test]
fn old_leaves_off_the_path_are_pruned_and_the_path_is_kept() {
    let ids: Vec<usize> = (0..MAX_NODES + 10).collect();
    let live = tabs(&ids);
    let mut state = NavState::default();
    go(&mut state, 0, &live);
    for id in 1..ids.len() {
        go(&mut state, id, &live);
        advance(&mut state, false).unwrap();
    }
    assert_eq!(state.nodes.len(), MAX_NODES);
    assert!(state.nodes.iter().any(|n| n.tab_id == 0));
    assert!(!state.nodes.iter().any(|n| n.tab_id == 1));
    prune(&mut state);
    assert_eq!(state.nodes.len(), MAX_NODES);
}

#[test]
fn a_visit_records_where_and_when() {
    let recorded = record(None, S, 5, &[(5, 3, "five".to_string())], 42).unwrap();
    assert_eq!(recorded.nodes.len(), 1);
    assert_eq!(recorded.nodes[0].session, S);
    assert_eq!(recorded.nodes[0].tab_position, 3);
    assert_eq!(recorded.nodes[0].tab_name, "five");
    assert_eq!(recorded.nodes[0].at, 42);
    assert!(record(Some(recorded), S, 5, &[(5, 3, "five".to_string())], 43).is_none());
}

#[test]
fn a_step_says_where_to_go() {
    let live = tabs(&[1, 2]);
    let mut state = NavState::default();
    [1, 2].iter().for_each(|t| go(&mut state, *t, &live));
    let (state, landed) = step(Some(state), false).unwrap();
    assert_eq!(landed, (S.to_string(), 1, 0));
    let (_, landed) = step(Some(state), true).unwrap();
    assert_eq!(landed, (S.to_string(), 2, 1));
    assert!(step(None, true).is_none());
}

#[test]
fn closing_a_tab_on_the_way_keeps_back_and_forward() {
    let live = tabs(&[1, 2, 3, 4]);
    let mut state = NavState::default();
    [1, 2, 3].iter().for_each(|t| go(&mut state, *t, &live));
    advance(&mut state, false).unwrap();
    advance(&mut state, false).unwrap();
    go(&mut state, 4, &live);
    advance(&mut state, false).unwrap();
    go(&mut state, 2, &live);
    go(&mut state, 3, &live);

    go(&mut state, 3, &tabs(&[1, 3, 4]));
    assert_eq!(advance(&mut state, false), Some((S.to_string(), 1, 0)));
    assert_eq!(advance(&mut state, true), Some((S.to_string(), 3, 1)));
}

#[test]
fn a_removed_node_is_forgotten_and_a_closed_one_hands_on() {
    let live = tabs(&[1, 2, 3]);
    let mut state = NavState::default();
    [1, 2, 3].iter().for_each(|t| go(&mut state, *t, &live));
    remove_node(&mut state, 1);
    assert_eq!(state.nodes[0].last_child, None);

    let mut state = NavState::default();
    [1, 2, 3].iter().for_each(|t| go(&mut state, *t, &live));
    assert!(refresh_session(&mut state, S, &tabs(&[1, 3])));
    assert_eq!(state.nodes[0].last_child, Some(2));
    assert!(refresh_session(&mut state, S, &tabs(&[1])));
    assert_eq!(state.nodes[0].last_child, None);
}

#[test]
fn the_same_report_twice_is_an_echo() {
    let live = tabs(&[1, 2, 3]);
    let mut state = NavState::default();
    [1, 2, 3].iter().for_each(|t| go(&mut state, *t, &live));
    let fewer = tabs(&[1, 3]);
    assert!(apply(&mut state, S, 1, &fewer, 5));
    let (nodes, cursor, next_id) = (state.nodes.len(), state.cursor, state.next_id);
    assert!(!apply(&mut state, S, 1, &fewer, 6));
    assert_eq!((state.nodes.len(), state.cursor, state.next_id), (nodes, cursor, next_id));
}

#[test]
fn only_a_new_visit_uses_up_an_id() {
    let live = tabs(&[1, 2, 3]);
    let visited = |ids: &[usize]| {
        let mut state = NavState::default();
        ids.iter().for_each(|t| go(&mut state, *t, &live));
        Some(state)
    };
    assert!(adds_a_visit(None, S, 1, &live));
    assert!(!adds_a_visit(None, S, 9, &live));
    assert!(!adds_a_visit(visited(&[1, 2]), S, 2, &live));
    assert!(!adds_a_visit(visited(&[1, 2]), S, 1, &live));
    assert!(adds_a_visit(visited(&[1, 2]), S, 3, &live));
}
