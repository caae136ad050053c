use sway_tab::state::State;
use sway_tab::tree::{get_all_windows, walk, Node, NodeType};

fn leaf(id: i64, node_type: NodeType, focused: bool) -> Node {
    Node { id, node_type, focused, nodes: Vec::new(), floating_nodes: Vec::new() }
}

fn parent(id: i64, node_type: NodeType, nodes: Vec<Node>, floating_nodes: Vec<Node>) -> Node {
    Node { id, node_type, focused: false, nodes, floating_nodes }
}

fn desktop() -> Node {
    let split = parent(
        20,
        NodeType::Con,
        vec![leaf(21, NodeType::Con, true), leaf(22, NodeType::Con, false)],
        Vec::new(),
    );
    let workspace = parent(
        10,
        NodeType::Workspace,
        vec![split, leaf(23, NodeType::Con, false)],
        vec![leaf(24, NodeType::FloatingCon, false)],
    );
    parent(1, NodeType::Root, vec![parent(2, NodeType::Output, vec![workspace], Vec::new())], Vec::new())
}

#[test]
fn windows_are_leaves_with_the_focused_one_last() {
    assert_eq!(get_all_windows(&desktop()), vec![22, 23, 24, 21]);
}

#[test]
fn walk_appends_in_tree_order() {
    let mut ids = vec![99];
    assert_eq!(walk(&desktop(), &mut ids), Some(21));
    assert_eq!(ids, vec![99, 21, 22, 23, 24]);
}

#[test]
fn empty_workspaces_and_docks_are_no_windows() {
    let tree = parent(
        1,
        NodeType::Root,
        vec![leaf(2, NodeType::Workspace, true), leaf(3, NodeType::Dockarea, false)],
        Vec::new(),
    );
    assert_eq!(get_all_windows(&tree), Vec::<i64>::new());
}

#[test]
fn without_focus_the_tree_order_stays() {
    let tree = parent(
        1,
        NodeType::Root,
        vec![leaf(3, NodeType::Con, false), leaf(2, NodeType::Con, false)],
        Vec::new(),
    );
    assert_eq!(get_all_windows(&tree), vec![3, 2]);
}

#[test]
fn of_two_focused_windows_the_later_one_counts() {
    let tree = parent(
        1,
        NodeType::Root,
        vec![leaf(2, NodeType::Con, true), leaf(3, NodeType::Con, false)],
        vec![leaf(4, NodeType::FloatingCon, true), leaf(5, NodeType::FloatingCon, false)],
    );
    assert_eq!(get_all_windows(&tree), vec![2, 3, 5, 4]);
}

#[test]
fn a_lone_window_is_a_leaf() {
    let window = leaf(7, NodeType::FloatingCon, true);
    assert!(window.is_leaf());
    assert!(!desktop().is_leaf());
    assert_eq!(get_all_windows(&window), vec![7]);
}

#[test]
fn seeding_from_the_tree_starts_with_the_focused_window() {
    let mut state = State::default();
    state.seed(&get_all_windows(&desktop()));
    assert_eq!(state.history, vec![21, 24, 23, 22]);
}
