use bspstack::tree::{
    Children, SplitDirection, TreeSnapshot, count_node_descendant_leaves, find_path_to_node,
    find_target_stack, get_node_children, get_node_descendant_leaves, get_node_descendants,
    get_node_id, get_node_split_direction, is_node_descendant,
};

fn leaf(id: u64) -> TreeSnapshot {
    TreeSnapshot { id, split: SplitDirection::Vertical, children: None }
}

fn split(id: u64, split: SplitDirection, first: TreeSnapshot, second: TreeSnapshot) -> TreeSnapshot {
    TreeSnapshot { id, split, children: Some((Box::new(first), Box::new(second))) }
}

/// The tree used by the traversal test: eleven nodes, six leaves.
fn sample_tree() -> TreeSnapshot {
    split(
        4194621,
        SplitDirection::Vertical,
        leaf(29475921),
        split(
            4194628,
            SplitDirection::Horizontal,
            leaf(29538275),
            split(
                4194636,
                SplitDirection::Vertical,
                leaf(29526298),
                split(
                    4194640,
                    SplitDirection::Horizontal,
                    leaf(4194638),
                    split(29541313, SplitDirection::Vertical, leaf(29541339), leaf(29541363)),
                ),
            ),
        ),
    )
}

#[test]
fn tree_traversal_test() {
    let data = sample_tree();

    assert!(get_node_children(&data).is_some());
    assert!(get_node_id(get_node_children(&data).unwrap().0) == 29475921);
    assert!(get_node_id(get_node_children(&data).unwrap().1) == 4194628);

    let stack_test = find_target_stack(&data, &SplitDirection::Vertical);

    let desired_ids = vec![29475921, 4194628];
    assert_eq!(stack_test, desired_ids);

    assert_eq!(
        find_path_to_node(&data, 29526298),
        Some(vec![Children::First, Children::Second, Children::Second])
    );
    assert_eq!(find_path_to_node(&data, 0), None);

    assert_eq!(count_node_descendant_leaves(&data), 6);

    assert_eq!(
        get_node_descendants(&data),
        vec![
            4194621, 29475921, 4194628, 29538275, 4194636, 29526298, 4194640, 4194638, 29541313,
            29541339, 29541363,
        ]
    );

    assert_eq!(is_node_descendant(&data, 29475921), true);
    assert_eq!(is_node_descendant(&leaf(29475921), 4194621), false);
}

#[test]
fn leaves_in_left_to_right_order() {
    let data = sample_tree();
    assert_eq!(
        get_node_descendant_leaves(&data),
        vec![29475921, 29538275, 29526298, 4194638, 29541339, 29541363]
    );
}

#[test]
fn single_leaf_tree() {
    let single = leaf(7);
    assert_eq!(count_node_descendant_leaves(&single), 1);
    assert_eq!(get_node_descendant_leaves(&single), vec![7]);
    assert_eq!(get_node_descendants(&single), vec![7]);
    assert_eq!(find_path_to_node(&single, 7), Some(vec![]));
    assert_eq!(find_path_to_node(&single, 8), None);
    assert_eq!(get_node_split_direction(&single), SplitDirection::Vertical);
}

#[test]
fn node_is_its_own_descendant() {
    let data = sample_tree();
    assert!(is_node_descendant(&data, 4194621));
    assert!(is_node_descendant(&leaf(42), 42));
}

#[test]
fn path_to_internal_node_is_empty_at_root() {
    let data = sample_tree();
    assert_eq!(find_path_to_node(&data, 4194621), Some(vec![]));
    // Path to the node 4194628, second child of the root.
    assert_eq!(find_path_to_node(&data, 4194628), Some(vec![Children::Second]));
}

#[test]
fn three_leaf_scenario_path() {
    // The root splits into leaf A and the subtree {B, C}; C sits second
    // in that subtree, so the path (innermost first) is Second, Second.
    let a = leaf(0xA);
    let b = leaf(0xB);
    let c = leaf(0xC);
    let sub = split(0xBC, SplitDirection::Horizontal, b, c);
    let root = split(0x1, SplitDirection::Vertical, a, sub);
    assert_eq!(
        find_path_to_node(&root, 0xC),
        Some(vec![Children::Second, Children::Second])
    );
    assert_eq!(
        find_path_to_node(&root, 0xB),
        Some(vec![Children::First, Children::Second])
    );
}

#[test]
fn target_stack_stops_at_cross_split() {
    let data = sample_tree();
    // Descending horizontally from the second child gathers its own
    // frontier: the leaf first, then the vertically split subtree.
    let second = get_node_children(&data).unwrap().1;
    let frontier = find_target_stack(second, &SplitDirection::Horizontal);
    assert_eq!(frontier, vec![29538275, 4194636]);
}
