use bspstack::bspwm::BspcAction;
use bspstack::messages::CommandResponse;
use bspstack::registry::{
    create_stack, do_update_stacks, focus_all_stacks, is_node_in_stacks,
    remove_stack_containing_node,
};
use bspstack::stack::StackState;
use bspstack::tree::{SplitDirection, TreeSnapshot};

fn leaf(id: u64) -> TreeSnapshot {
    TreeSnapshot { id, split: SplitDirection::Vertical, children: None }
}

fn split(id: u64, split: SplitDirection, first: TreeSnapshot, second: TreeSnapshot) -> TreeSnapshot {
    TreeSnapshot { id, split, children: Some((Box::new(first), Box::new(second))) }
}

#[test]
fn remove_from_empty_registry() {
    // Scenario: the registry is empty, so no stack holds the focused
    // node, and the registry stays untouched.
    let mut stacks: Vec<StackState> = vec![];
    let snapshots: Vec<TreeSnapshot> = vec![];
    let (response, actions) = remove_stack_containing_node(&mut stacks, &snapshots, 0x99);
    assert_eq!(response, CommandResponse::NoStackExists);
    assert_eq!(actions, Vec::<BspcAction>::new());
    assert!(stacks.is_empty());
}

#[test]
fn create_stack_on_lone_leaf() {
    // Scenario: the focused node 0x100 is a leaf with no siblings; a new
    // stack is rooted there, and the focused node counts as in a stack.
    let mut stacks: Vec<StackState> = vec![];
    let focused_snapshot = leaf(0x100);
    let (response, _actions) = create_stack(&mut stacks, &focused_snapshot);
    assert_eq!(response, CommandResponse::Done);
    assert_eq!(stacks.len(), 1);
    assert_eq!(stacks[0].root, 0x100);

    let snapshots = vec![leaf(0x100)];
    assert!(is_node_in_stacks(&stacks, &snapshots, 0x100));
    assert!(!is_node_in_stacks(&stacks, &snapshots, 0x101));
}

#[test]
fn remove_picks_innermost_stack() {
    // Scenario: stack2's root 0x11 lies inside stack1's subtree; with
    // node 0x12 focused, both stacks match, and the nested stack2 goes.
    let tree1 = split(
        0x10,
        SplitDirection::Vertical,
        split(0x11, SplitDirection::Horizontal, leaf(0x12), leaf(0x14)),
        leaf(0x15),
    );
    let tree2 = split(0x11, SplitDirection::Horizontal, leaf(0x12), leaf(0x14));
    let mut stacks = vec![StackState { root: 0x10 }, StackState { root: 0x11 }];
    let snapshots = vec![tree1, tree2];

    let (response, actions) = remove_stack_containing_node(&mut stacks, &snapshots, 0x12);
    assert_eq!(response, CommandResponse::Done);
    assert_eq!(stacks, vec![StackState { root: 0x10 }]);
    assert_eq!(actions, vec![BspcAction::Balance { node: 0x11 }]);
}

#[test]
fn remove_ignores_unrelated_stacks() {
    let tree1 = leaf(0x10);
    let tree2 = split(0x20, SplitDirection::Vertical, leaf(0x21), leaf(0x22));
    let mut stacks = vec![StackState { root: 0x10 }, StackState { root: 0x20 }];
    let snapshots = vec![tree1, tree2];

    // Only the second stack holds 0x21.
    let (response, actions) = remove_stack_containing_node(&mut stacks, &snapshots, 0x21);
    assert_eq!(response, CommandResponse::Done);
    assert_eq!(stacks, vec![StackState { root: 0x10 }]);
    assert_eq!(actions, vec![BspcAction::Balance { node: 0x20 }]);

    // Nothing holds 0x99.
    let snapshots = vec![leaf(0x10)];
    let (response, actions) = remove_stack_containing_node(&mut stacks, &snapshots, 0x99);
    assert_eq!(response, CommandResponse::NoStackExists);
    assert!(actions.is_empty());
    assert_eq!(stacks.len(), 1);
}

#[test]
fn update_drops_stale_stack() {
    // Scenario: one stack's root no longer exists among all nodes; it is
    // dropped, the registry shrinks by exactly one, and the answer is
    // Done.
    let mut stacks = vec![StackState { root: 0x10 }, StackState { root: 0x20 }];
    let all_nodes = vec![0x10, 0x30, 0x31];
    let response = do_update_stacks(&mut stacks, &all_nodes);
    assert_eq!(response, CommandResponse::Done);
    assert_eq!(stacks, vec![StackState { root: 0x10 }]);
}

#[test]
fn update_keeps_living_stacks() {
    let mut stacks = vec![StackState { root: 0x10 }, StackState { root: 0x20 }];
    let all_nodes = vec![0x10, 0x20];
    do_update_stacks(&mut stacks, &all_nodes);
    assert_eq!(stacks.len(), 2);

    let mut stacks = vec![StackState { root: 0x10 }];
    do_update_stacks(&mut stacks, &vec![]);
    assert!(stacks.is_empty());
}

#[test]
fn focus_all_concatenates_stack_plans() {
    let tree1 = split(0x10, SplitDirection::Vertical, leaf(0x11), leaf(0x12));
    let tree2 = leaf(0x30);
    let stacks = vec![StackState { root: 0x10 }, StackState { root: 0x30 }];
    let snapshots = vec![tree1, tree2];

    // Node 0x11 sits only in the first stack: its plan shrinks the
    // off-path leaf 0x12 to five percent and focuses 0x11; the second
    // stack contributes nothing.
    let actions = focus_all_stacks(&stacks, &snapshots, 0x11);
    assert_eq!(
        actions,
        vec![
            BspcAction::ChangeRatio { node: 0x10, percent: 95 },
            BspcAction::Balance { node: 0x12 },
            BspcAction::Focus { node: 0x11 },
        ]
    );
}

#[test]
fn contains_and_cleanup() {
    let tree = split(0x10, SplitDirection::Horizontal, leaf(0x11), leaf(0x12));
    let stack = StackState { root: 0x10 };
    assert!(stack.contains_node(&tree, 0x12));
    assert!(!stack.contains_node(&tree, 0x13));
    assert_eq!(stack.cleanup(), BspcAction::Balance { node: 0x10 });
}

#[test]
fn focus_leaf_by_index_bounds() {
    let tree = split(0x10, SplitDirection::Horizontal, leaf(0x11), leaf(0x12));
    let stack = StackState { root: 0x10 };
    let (id, actions) = stack.focus_leaf_by_index(&tree, 0);
    assert_eq!(id, Some(0x11));
    assert!(!actions.is_empty());
    let (id, actions) = stack.focus_leaf_by_index(&tree, 1);
    assert_eq!(id, Some(0x12));
    assert!(!actions.is_empty());
    let (id, actions) = stack.focus_leaf_by_index(&tree, 2);
    assert_eq!(id, None);
    assert!(actions.is_empty());
}
