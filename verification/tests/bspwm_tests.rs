use bspstack::bspwm::{
    BspcAction, CardinalDirection, ResizeDirection, desktop_query, first_node, get_desktop_name,
    get_node_exists, get_node_name, node_balance, node_focus, node_query, resize_deltas,
};
use bspstack::stack::StackState;
use bspstack::tree::{SplitDirection, TreeSnapshot};

fn leaf(id: u64) -> TreeSnapshot {
    TreeSnapshot { id, split: SplitDirection::Vertical, children: None }
}

fn split(id: u64, split: SplitDirection, first: TreeSnapshot, second: TreeSnapshot) -> TreeSnapshot {
    TreeSnapshot { id, split, children: Some((Box::new(first), Box::new(second))) }
}

#[test]
fn bspc_test() {
    // One focused window: the query answer lists exactly one node.
    {
        let query_result = node_query("0x04A\n");

        assert!(query_result.is_some());

        println!("{:?}", query_result.clone().unwrap());
        assert!(query_result.unwrap().len() == 1);
    }
}

#[test]
fn node_query_parses_listing() {
    assert_eq!(node_query("0x1A\n0x2b\n"), Some(vec![0x1A, 0x2B]));
    assert_eq!(node_query(""), Some(vec![]));
    assert_eq!(node_query("0x00400002\n"), Some(vec![0x00400002]));
}

#[test]
fn node_query_rejects_garbage() {
    // No hexadecimal marker anywhere: the answer is no node listing.
    assert_eq!(node_query("garbage"), None);
    // The marker occurs, but a line is malformed.
    assert_eq!(node_query("0x1A\nnope\n"), None);
    // A bare marker with no digits is malformed too.
    assert_eq!(node_query("0x\n"), None);
}

#[test]
fn node_query_rejects_overflow() {
    // Seventeen significant digits cannot fit a 64-bit id...
    assert_eq!(node_query("0x11112222333344445\n"), None);
    // ...but leading zeroes are harmless.
    assert_eq!(node_query("0x0000000000000000001\n"), Some(vec![1]));
    assert_eq!(node_query("0xFFFFFFFFFFFFFFFF\n"), Some(vec![u64::MAX]));
}

#[test]
fn desktop_query_reports_failure_text() {
    let err = desktop_query("monitor").unwrap_err();
    assert!(err.contains("monitor"));
    assert_eq!(desktop_query("0x2\n"), Ok(vec![2]));
}

#[test]
fn node_names_are_uppercase_hex() {
    assert_eq!(get_node_name(0x1A2B), "0x1A2B");
    assert_eq!(get_node_name(0), "0x0");
    assert_eq!(get_node_name(15), "0xF");
    assert_eq!(get_node_name(16), "0x10");
    assert_eq!(get_node_name(u64::MAX), "0xFFFFFFFFFFFFFFFF");
    assert_eq!(get_desktop_name(0x5), "0x5");
}

#[test]
fn first_node_takes_last() {
    assert_eq!(first_node(Some(vec![1, 2, 3])), Some(3));
    assert_eq!(first_node(Some(vec![])), None);
}

#[test]
fn node_exists_scans_listing() {
    let all = vec![0x10, 0x11, 0x12];
    assert!(get_node_exists(&all, 0x11));
    assert!(!get_node_exists(&all, 0x13));
    assert!(!get_node_exists(&vec![], 0x13));
}

#[test]
fn direction_words_round_trip() {
    assert_eq!(CardinalDirection::from_str("north"), Some(CardinalDirection::North));
    assert_eq!(CardinalDirection::from_str("south"), Some(CardinalDirection::South));
    assert_eq!(CardinalDirection::from_str("west"), Some(CardinalDirection::West));
    assert_eq!(CardinalDirection::from_str("east"), Some(CardinalDirection::East));
    assert_eq!(CardinalDirection::from_str("up"), None);
    assert_eq!(CardinalDirection::North.as_str(), "north");
    assert_eq!(CardinalDirection::from_str(CardinalDirection::East.as_str()), Some(
        CardinalDirection::East,
    ));
}

#[test]
fn resize_deltas_follow_edges() {
    assert_eq!(resize_deltas(&ResizeDirection::Top, 10), ("top", 0, -10));
    assert_eq!(resize_deltas(&ResizeDirection::Bottom, 10), ("bottom", 0, 10));
    assert_eq!(resize_deltas(&ResizeDirection::Left, 7), ("left", 0, -7));
    assert_eq!(resize_deltas(&ResizeDirection::Right, 7), ("right", 0, 7));
}

#[test]
fn focus_plan_weights_off_path_subtrees() {
    // Root 1 splits into leaf 2 and the subtree 3 over leaves 4 and 5.
    let t = split(
        1,
        SplitDirection::Vertical,
        leaf(2),
        split(3, SplitDirection::Horizontal, leaf(4), leaf(5)),
    );
    let stack = StackState::new(&t);
    let actions = stack.focus_node_by_id(&t, 4);
    assert_eq!(
        actions,
        vec![
            // At the root the walk goes second: the off-path leaf 2 keeps
            // five percent, so the first child's share is five percent.
            BspcAction::ChangeRatio { node: 1, percent: 5 },
            BspcAction::Balance { node: 2 },
            // At node 3 the walk goes first: the off-path leaf 5 keeps
            // five percent, so the first child's share is the rest.
            BspcAction::ChangeRatio { node: 3, percent: 95 },
            BspcAction::Balance { node: 5 },
            BspcAction::Focus { node: 4 },
        ]
    );
}

#[test]
fn focus_plan_absent_node_does_nothing() {
    let t = split(1, SplitDirection::Vertical, leaf(2), leaf(3));
    let stack = StackState::new(&t);
    let actions = stack.focus_node_by_id(&t, 99);
    assert_eq!(actions, Vec::<BspcAction>::new());
}

#[test]
fn focus_twice_gives_same_plan() {
    // The plan depends on the snapshot alone: with no tree change in
    // between, focusing twice issues exactly the same writes.
    let t = split(
        1,
        SplitDirection::Horizontal,
        split(6, SplitDirection::Vertical, leaf(7), leaf(8)),
        leaf(9),
    );
    let stack = StackState::new(&t);
    let once = stack.focus_node_by_id(&t, 7);
    let again = stack.focus_node_by_id(&t, 7);
    assert_eq!(once, again);
}

#[test]
fn action_constructors() {
    assert_eq!(node_balance(0x42), BspcAction::Balance { node: 0x42 });
    assert_eq!(node_focus(0x42), BspcAction::Focus { node: 0x42 });
}
