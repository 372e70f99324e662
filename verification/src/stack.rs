//! One managed stack and the effect model of its plans: what focusing a
//! node does to the manager's ratios, layouts and focus.

use vstd::prelude::*;

use crate::bspwm::{
    BspcAction, ResizeDirection, focus_node_by_path, node_balance, node_focus, spec_focus_plan,
};
use crate::tree::{
    SplitDirection, TreeSnapshot, find_path_to_node, get_node_descendant_leaves, get_node_id,
    get_node_split_direction, is_node_descendant, lemma_find_path_reaches,
};

verus! {

/// One managed stack, identified by its root node. Nothing else is
/// cached: member leaves and containment are always recomputed from a
/// fresh snapshot, because the tree mutates whenever windows open or
/// close.
#[derive(Clone, Copy, PartialEq, Eq, Structural, Debug)]
pub struct StackState {
    pub root: u64,
}

impl StackState {
    /// The actions that focusing `id` inside the snapshot `t` issues:
    /// the ratio and balance walk along the found path, then a focus of
    /// the node itself; no action at all when `id` is not in the subtree.
    pub open spec fn spec_focus_actions(t: TreeSnapshot, id: u64) -> Seq<BspcAction> {
        match t.spec_find_path(id) {
            None => Seq::empty(),
            Some(p) => spec_focus_plan(t, p) + seq![BspcAction::Focus { node: id }],
        }
    }

    /// A new stack rooted at the node whose snapshot is given.
    pub fn new(root_json: &TreeSnapshot) -> (r: StackState)
        ensures
            r.root == root_json.id,
    {
        StackState { root: get_node_id(root_json) }
    }

    /// Tries to focus the `index`th leaf of the stack, whose fresh
    /// snapshot is `snapshot`. Out of range, nothing happens and no
    /// action is handed back; in range, the focused leaf's id comes back
    /// with the actions that focus it.
    pub fn focus_leaf_by_index(&self, snapshot: &TreeSnapshot, index: usize) -> (r: (
        Option<u64>,
        Vec<BspcAction>,
    ))
        requires
            snapshot.id == self.root,
        ensures
            index < snapshot.spec_leaves().len() ==> r.0 == Some(
                snapshot.spec_leaves()[index as int],
            ) && r.1@ == Self::spec_focus_actions(*snapshot, snapshot.spec_leaves()[index as int]),
            index >= snapshot.spec_leaves().len() ==> r.0 is None && r.1@ == Seq::<
                BspcAction,
            >::empty(),
    {
        let leaves = get_node_descendant_leaves(snapshot);
        if index < leaves.len() {
            let id = leaves[index];
            let actions = self.focus_node_by_id(snapshot, id);
            (Some(id), actions)
        } else {
            (None::<u64>, Vec::new())
        }
    }

    /// The actions that make `id` focused if it is part of the stack,
    /// whose fresh snapshot is `snapshot`; if it is not, no action.
    pub fn focus_node_by_id(&self, snapshot: &TreeSnapshot, id: u64) -> (r: Vec<BspcAction>)
        requires
            snapshot.id == self.root,
        ensures
            r@ == Self::spec_focus_actions(*snapshot, id),
    {
        let path = find_path_to_node(snapshot, id);
        match path {
            None => Vec::new(),
            Some(p) => {
                let direction = get_node_split_direction(snapshot);
                let resize_directions = match direction {
                    SplitDirection::Horizontal => (ResizeDirection::Top, ResizeDirection::Bottom),
                    _ => (ResizeDirection::Right, ResizeDirection::Left),
                };
                proof {
                    lemma_find_path_reaches(*snapshot, id);
                }
                let mut actions = focus_node_by_path(snapshot, p, &resize_directions);
                actions.push(node_focus(id));
                proof {
                    assert(actions@ =~= Self::spec_focus_actions(*snapshot, id));
                }
                actions
            },
        }
    }

    /// Whether the node `id` lies in the stack's subtree, whose fresh
    /// snapshot is `snapshot`.
    pub fn contains_node(&self, snapshot: &TreeSnapshot, id: u64) -> (r: bool)
        requires
            snapshot.id == self.root,
        ensures
            r == snapshot.spec_contains(id),
    {
        is_node_descendant(snapshot, id)
    }

    /// The action that flattens the stack's internal ratios before the
    /// stack is discarded, so removing it leaves a neutral tree.
    pub fn cleanup(&self) -> (r: BspcAction)
        ensures
            r == (BspcAction::Balance { node: self.root }),
    {
        node_balance(self.root)
    }
}

/// Where one action writes in the manager's state: the ratio of one
/// split, the internal layout of one subtree, or the global focus.
pub enum WmLoc {
    Ratio(u64),
    Layout(u64),
    Focused,
}

/// What one action writes there.
pub enum WmVal {
    Percent(i128),
    Balanced,
    FocusedNode(u64),
}

/// The location that an action writes.
pub open spec fn spec_action_loc(a: BspcAction) -> WmLoc {
    match a {
        BspcAction::ChangeRatio { node, percent } => WmLoc::Ratio(node),
        BspcAction::Balance { node } => WmLoc::Layout(node),
        BspcAction::Focus { node } => WmLoc::Focused,
    }
}

/// The value that an action writes.
pub open spec fn spec_action_val(a: BspcAction) -> WmVal {
    match a {
        BspcAction::ChangeRatio { node, percent } => WmVal::Percent(percent),
        BspcAction::Balance { node } => WmVal::Balanced,
        BspcAction::Focus { node } => WmVal::FocusedNode(node),
    }
}

/// The manager's state after a run of actions: each action assigns its
/// value to its location, in order.
pub open spec fn spec_apply_actions(st: Map<WmLoc, WmVal>, actions: Seq<BspcAction>) -> Map<
    WmLoc,
    WmVal,
>
    decreases actions.len(),
{
    if actions.len() == 0 {
        st
    } else {
        spec_apply_actions(
            st.insert(spec_action_loc(actions[0]), spec_action_val(actions[0])),
            actions.skip(1),
        )
    }
}

/// The locations that a run of actions writes.
pub open spec fn spec_written(actions: Seq<BspcAction>) -> Set<WmLoc> {
    Set::new(
        |l: WmLoc| exists|i: int| 0 <= i < actions.len() && spec_action_loc(#[trigger] actions[i]) == l,
    )
}

proof fn lemma_apply_preserves_unwritten(st: Map<WmLoc, WmVal>, actions: Seq<BspcAction>, l: WmLoc)
    requires
        !spec_written(actions).contains(l),
    ensures
        spec_apply_actions(st, actions).contains_key(l) == st.contains_key(l),
        st.contains_key(l) ==> spec_apply_actions(st, actions)[l] == st[l],
    decreases actions.len(),
{
    if actions.len() > 0 {
        assert(spec_action_loc(actions[0]) != l);
        let rest = actions.skip(1);
        assert(!spec_written(rest).contains(l)) by {
            if spec_written(rest).contains(l) {
                let i = choose|i: int|
                    0 <= i < rest.len() && spec_action_loc(#[trigger] rest[i]) == l;
                assert(spec_action_loc(actions[i + 1]) == l);
            }
        }
        lemma_apply_preserves_unwritten(
            st.insert(spec_action_loc(actions[0]), spec_action_val(actions[0])),
            rest,
            l,
        );
    }
}

proof fn lemma_apply_written_agree(
    st1: Map<WmLoc, WmVal>,
    st2: Map<WmLoc, WmVal>,
    actions: Seq<BspcAction>,
    l: WmLoc,
)
    requires
        spec_written(actions).contains(l),
    ensures
        spec_apply_actions(st1, actions).contains_key(l),
        spec_apply_actions(st2, actions).contains_key(l),
        spec_apply_actions(st1, actions)[l] == spec_apply_actions(st2, actions)[l],
    decreases actions.len(),
{
    let rest = actions.skip(1);
    let st1n = st1.insert(spec_action_loc(actions[0]), spec_action_val(actions[0]));
    let st2n = st2.insert(spec_action_loc(actions[0]), spec_action_val(actions[0]));
    if spec_written(rest).contains(l) {
        lemma_apply_written_agree(st1n, st2n, rest, l);
    } else {
        assert(spec_action_loc(actions[0]) == l) by {
            let i = choose|i: int|
                0 <= i < actions.len() && spec_action_loc(#[trigger] actions[i]) == l;
            if i > 0 {
                assert(spec_action_loc(rest[i - 1]) == l);
            }
        }
        lemma_apply_preserves_unwritten(st1n, rest, l);
        lemma_apply_preserves_unwritten(st2n, rest, l);
    }
}

/// Replaying a run of assignments changes nothing: every written
/// location already holds what the run's last write to it assigns, and
/// every other location was never touched.
pub proof fn lemma_apply_actions_idempotent(st: Map<WmLoc, WmVal>, actions: Seq<BspcAction>)
    ensures
        spec_apply_actions(spec_apply_actions(st, actions), actions) == spec_apply_actions(
            st,
            actions,
        ),
{
    let once = spec_apply_actions(st, actions);
    let twice = spec_apply_actions(once, actions);
    assert forall|l: WmLoc| #[trigger]
        twice.contains_key(l) == once.contains_key(l) && (once.contains_key(l) ==> twice[l]
            == once[l]) by {
        if spec_written(actions).contains(l) {
            lemma_apply_written_agree(once, st, actions, l);
        } else {
            lemma_apply_preserves_unwritten(once, actions, l);
        }
    }
    assert(twice.dom() =~= once.dom());
    assert(twice =~= once);
}

/// Focusing a node twice in a row, with no tree change in between,
/// leaves the manager exactly where focusing it once does: the plan is a
/// function of the snapshot alone, and replaying its writes changes
/// nothing.
pub proof fn lemma_focus_node_idempotent(st: Map<WmLoc, WmVal>, t: TreeSnapshot, id: u64)
    ensures
        ({
            let a = StackState::spec_focus_actions(t, id);
            spec_apply_actions(spec_apply_actions(st, a), a) == spec_apply_actions(st, a)
        }),
{
    lemma_apply_actions_idempotent(st, StackState::spec_focus_actions(t, id));
}

} // verus!
