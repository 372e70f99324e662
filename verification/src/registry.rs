//! The stack registry and the command handlers over it: creating,
//! removing and re-focusing stacks, and pruning stacks whose root is
//! gone. Every handler is a pure step from the registry and freshly
//! fetched tree data to the new registry, a response, and the mutation
//! actions to issue.

use vstd::prelude::*;

use crate::bspwm::{BspcAction, get_node_exists};
use crate::messages::CommandResponse;
use crate::stack::StackState;
use crate::tree::{TreeSnapshot, is_node_descendant};

verus! {

/// Whether `snapshots` is one fresh snapshot per stack, each rooted at
/// its stack's root.
pub open spec fn spec_snapshots_match(stacks: Seq<StackState>, snaps: Seq<TreeSnapshot>) -> bool {
    snaps.len() == stacks.len() && (forall|i: int|
        0 <= i < snaps.len() ==> (#[trigger] snaps[i]).id == stacks[i].root)
}

/// The indices of the stacks whose subtree contains `id`, in registry
/// order.
pub open spec fn spec_matching_indices(snaps: Seq<TreeSnapshot>, id: u64) -> Seq<int>
    decreases snaps.len(),
{
    if snaps.len() == 0 {
        Seq::empty()
    } else {
        let rest = spec_matching_indices(snaps.drop_last(), id);
        if snaps.last().spec_contains(id) {
            rest.push(snaps.len() - 1)
        } else {
            rest
        }
    }
}

/// The left fold that picks which matching stack to remove: starting
/// from the last match, an earlier candidate wins whenever its root lies
/// inside the current best's subtree.
pub open spec fn spec_fold_best(
    snaps: Seq<TreeSnapshot>,
    roots: Seq<u64>,
    cands: Seq<int>,
    best: int,
) -> int
    decreases cands.len(),
{
    if cands.len() == 0 {
        best
    } else {
        let c = cands[0];
        let nb = if snaps[best].spec_contains(roots[c]) {
            c
        } else {
            best
        };
        spec_fold_best(snaps, roots, cands.skip(1), nb)
    }
}

/// The index of the stack that `RemoveFocused` removes when at least one
/// stack contains the focused node. The pairwise fold is order-dependent
/// and is not a provably deepest choice once three or more candidates
/// nest in non-monotonic orders; it is kept as the rule, not silently
/// replaced by a depth measure.
pub open spec fn spec_removal_index(snaps: Seq<TreeSnapshot>, roots: Seq<u64>, id: u64) -> int {
    let m = spec_matching_indices(snaps, id);
    spec_fold_best(snaps, roots, m.drop_last(), m.last())
}

proof fn lemma_matching_indices_range(snaps: Seq<TreeSnapshot>, id: u64)
    ensures
        forall|k: int|
            0 <= k < spec_matching_indices(snaps, id).len() ==> (0 <= #[trigger] spec_matching_indices(
                snaps,
                id,
            )[k] < snaps.len() && snaps[spec_matching_indices(snaps, id)[k]].spec_contains(id)),
    decreases snaps.len(),
{
    if snaps.len() > 0 {
        lemma_matching_indices_range(snaps.drop_last(), id);
        let rest = spec_matching_indices(snaps.drop_last(), id);
        assert forall|k: int| 0 <= k < rest.len() implies (0 <= #[trigger] rest[k] < snaps.len()
            && snaps[rest[k]].spec_contains(id)) by {
            assert(snaps.drop_last()[rest[k]] == snaps[rest[k]]);
        }
    }
}

proof fn lemma_matching_indices_complete(snaps: Seq<TreeSnapshot>, id: u64)
    ensures
        forall|j: int|
            0 <= j < snaps.len() && snaps[j].spec_contains(id) ==> spec_matching_indices(
                snaps,
                id,
            ).contains(j),
    decreases snaps.len(),
{
    if snaps.len() > 0 {
        lemma_matching_indices_complete(snaps.drop_last(), id);
        let rest = spec_matching_indices(snaps.drop_last(), id);
        let m = spec_matching_indices(snaps, id);
        assert forall|j: int| 0 <= j < snaps.len() && snaps[j].spec_contains(id) implies m.contains(
            j,
        ) by {
            if j < snaps.len() - 1 {
                assert(snaps.drop_last()[j] == snaps[j]);
                assert(rest.contains(j));
                let k = choose|k: int| 0 <= k < rest.len() && rest[k] == j;
                assert(m[k] == j);
            } else {
                assert(m.last() == j);
            }
        }
    }
}

proof fn lemma_fold_best_membership(
    snaps: Seq<TreeSnapshot>,
    roots: Seq<u64>,
    cands: Seq<int>,
    best: int,
)
    ensures
        spec_fold_best(snaps, roots, cands, best) == best || cands.contains(
            spec_fold_best(snaps, roots, cands, best),
        ),
    decreases cands.len(),
{
    if cands.len() > 0 {
        let c = cands[0];
        let nb = if snaps[best].spec_contains(roots[c]) {
            c
        } else {
            best
        };
        lemma_fold_best_membership(snaps, roots, cands.skip(1), nb);
        let out = spec_fold_best(snaps, roots, cands, best);
        if out != best {
            if out == c {
                assert(cands.contains(out)) by {
                    assert(cands[0] == out);
                }
            } else {
                assert(cands.skip(1).contains(out));
                let k = choose|k: int| 0 <= k < cands.skip(1).len() && cands.skip(1)[k] == out;
                assert(cands[k + 1] == out);
            }
        }
    }
}

/// The removal index lies in the registry and names a stack that
/// contains the focused node.
pub proof fn lemma_removal_index_valid(snaps: Seq<TreeSnapshot>, roots: Seq<u64>, id: u64)
    requires
        spec_matching_indices(snaps, id).len() > 0,
    ensures
        0 <= spec_removal_index(snaps, roots, id) < snaps.len(),
        snaps[spec_removal_index(snaps, roots, id)].spec_contains(id),
{
    let m = spec_matching_indices(snaps, id);
    lemma_matching_indices_range(snaps, id);
    lemma_fold_best_membership(snaps, roots, m.drop_last(), m.last());
    let j = spec_removal_index(snaps, roots, id);
    if j != m.last() {
        assert(m.drop_last().contains(j));
        let k = choose|k: int| 0 <= k < m.drop_last().len() && m.drop_last()[k] == j;
        assert(m[k] == j);
    }
}

/// Removes the most deeply nested stack that contains the node `id`:
/// among the matching stacks the fold of `spec_removal_index` picks the
/// winner, its subtree is rebalanced, and it leaves the registry. When
/// no stack contains `id`, nothing changes and `NoStackExists` comes
/// back. `snapshots` holds one fresh snapshot per stack.
pub fn remove_stack_containing_node(
    stack_vec: &mut Vec<StackState>,
    snapshots: &Vec<TreeSnapshot>,
    id: u64,
) -> (r: (CommandResponse, Vec<BspcAction>))
    requires
        spec_snapshots_match(old(stack_vec)@, snapshots@),
    ensures
        ({
            let m = spec_matching_indices(snapshots@, id);
            let roots = old(stack_vec)@.map_values(|s: StackState| s.root);
            &&& m.len() == 0 ==> (r.0 == CommandResponse::NoStackExists && r.1@.len() == 0
                && final(stack_vec)@ == old(stack_vec)@)
            &&& m.len() > 0 ==> ({
                let j = spec_removal_index(snapshots@, roots, id);
                &&& r.0 == CommandResponse::Done
                &&& final(stack_vec)@ == old(stack_vec)@.remove(j)
                &&& r.1@ == seq![(BspcAction::Balance { node: old(stack_vec)@[j].root })]
            })
        }),
{
    let ghost snaps = snapshots@;
    let ghost roots = stack_vec@.map_values(|s: StackState| s.root);
    let ghost m = spec_matching_indices(snaps, id);
    proof {
        lemma_matching_indices_range(snaps, id);
        lemma_matching_indices_complete(snaps, id);
    }

    // Find all the stacks that contain the node, in registry order.
    let mut matching: Vec<usize> = Vec::new();
    let mut i: usize = 0;
    proof {
        assert(matching@.map_values(|u: usize| u as int) =~= spec_matching_indices(
            snaps.take(0),
            id,
        ));
    }
    while i < stack_vec.len()
        invariant
            0 <= i <= stack_vec@.len(),
            spec_snapshots_match(stack_vec@, snaps),
            snaps == snapshots@,
            matching@.map_values(|u: usize| u as int) == spec_matching_indices(
                snaps.take(i as int),
                id,
            ),
            forall|k: int| 0 <= k < matching@.len() ==> #[trigger] matching@[k] < i,
        decreases stack_vec@.len() - i,
    {
        let ghost prefix = matching@.map_values(|u: usize| u as int);
        proof {
            assert(snaps.take(i + 1).drop_last() =~= snaps.take(i as int));
            assert(snaps.take(i + 1).last() == snaps[i as int]);
        }
        if is_node_descendant(&snapshots[i], id) {
            matching.push(i);
            proof {
                assert(matching@.map_values(|u: usize| u as int) =~= prefix.push(i as int));
            }
        }
        i = i + 1;
    }
    proof {
        assert(snaps.take(stack_vec@.len() as int) =~= snaps);
    }

    if matching.len() == 0 {
        proof {
            assert(m.len() == matching@.map_values(|u: usize| u as int).len());
        }
        return (CommandResponse::NoStackExists, Vec::new());
    }

    // Walk the earlier matches: a candidate whose root sits inside the
    // current best's subtree is more deeply nested and wins.
    let ghost msp = matching@.map_values(|u: usize| u as int);
    let mut best: usize = matching[matching.len() - 1];
    proof {
        assert(best as int == msp[msp.len() - 1]);
        assert(msp[msp.len() - 1] == m.last());
        assert(m.drop_last().skip(0) =~= m.drop_last());
    }
    let mut k: usize = 0;
    while k < matching.len() - 1
        invariant
            0 <= k <= matching@.len() - 1,
            matching@.len() >= 1,
            msp == matching@.map_values(|u: usize| u as int),
            msp == m,
            m == spec_matching_indices(snaps, id),
            m.len() > 0,
            snaps == snapshots@,
            spec_snapshots_match(stack_vec@, snaps),
            roots == stack_vec@.map_values(|s: StackState| s.root),
            forall|kk: int|
                0 <= kk < m.len() ==> (0 <= #[trigger] m[kk] < snaps.len()
                    && snaps[m[kk]].spec_contains(id)),
            best < stack_vec@.len(),
            spec_fold_best(snaps, roots, m.drop_last(), m.last()) == spec_fold_best(
                snaps,
                roots,
                m.drop_last().skip(k as int),
                best as int,
            ),
        decreases matching@.len() - 1 - k,
    {
        let cand = matching[k];
        proof {
            assert(m.drop_last()[k as int] == m[k as int]);
            assert(m[k as int] == cand as int);
            assert(m.drop_last().skip(k as int)[0] == m.drop_last()[k as int]);
            assert(m.drop_last().skip(k as int).skip(1) =~= m.drop_last().skip(k + 1));
            assert(roots[cand as int] == stack_vec@[cand as int].root);
        }
        if is_node_descendant(&snapshots[best], stack_vec[cand].root) {
            best = cand;
        }
        k = k + 1;
    }
    proof {
        assert(m.drop_last().skip(m.len() - 1) =~= Seq::<int>::empty());
        assert(best as int == spec_removal_index(snaps, roots, id));
        lemma_removal_index_valid(snaps, roots, id);
    }

    let target_index = best;
    let action = stack_vec[target_index].cleanup();
    let mut actions: Vec<BspcAction> = Vec::new();
    actions.push(action);
    stack_vec.remove(target_index);
    proof {
        assert(actions@ =~= seq![(BspcAction::Balance { node: old(stack_vec)@[best as int].root })]);
    }
    (CommandResponse::Done, actions)
}

/// Whether any stack's subtree contains the node. `snapshots` holds one
/// fresh snapshot per stack.
pub fn is_node_in_stacks(
    stacks: &Vec<StackState>,
    snapshots: &Vec<TreeSnapshot>,
    node: u64,
) -> (r: bool)
    requires
        spec_snapshots_match(stacks@, snapshots@),
    ensures
        r == exists|i: int| 0 <= i < snapshots@.len() && (#[trigger] snapshots@[i]).spec_contains(
            node,
        ),
{
    let mut i: usize = 0;
    while i < snapshots.len()
        invariant
            0 <= i <= snapshots@.len(),
            forall|j: int| 0 <= j < i ==> !(#[trigger] snapshots@[j]).spec_contains(node),
        decreases snapshots@.len() - i,
    {
        if is_node_descendant(&snapshots[i], node) {
            return true;
        }
        i = i + 1;
    }
    false
}

/// Drops every stack whose root node no longer exists among `all_nodes`,
/// the manager's listing of all current nodes, and answers `Done`.
pub fn do_update_stacks(stacks: &mut Vec<StackState>, all_nodes: &Vec<u64>) -> (r: CommandResponse)
    ensures
        final(stacks)@ == old(stacks)@.filter(|s: StackState| all_nodes@.contains(s.root)),
        r == CommandResponse::Done,
{
    let ghost pred = |s: StackState| all_nodes@.contains(s.root);
    let mut kept: Vec<StackState> = Vec::new();
    let mut i: usize = 0;
    proof {
        reveal(Seq::filter);
        assert(kept@ =~= stacks@.take(0).filter(pred));
    }
    while i < stacks.len()
        invariant
            0 <= i <= stacks@.len(),
            kept@ == stacks@.take(i as int).filter(|s: StackState| all_nodes@.contains(s.root)),
        decreases stacks@.len() - i,
    {
        let ghost prefix = stacks@.take(i as int);
        proof {
            reveal(Seq::filter);
            assert(stacks@.take(i + 1).drop_last() =~= prefix);
            assert(stacks@.take(i + 1).last() == stacks@[i as int]);
        }
        if get_node_exists(all_nodes, stacks[i].root) {
            kept.push(stacks[i]);
        }
        i = i + 1;
    }
    proof {
        assert(stacks@.take(stacks@.len() as int) =~= stacks@);
    }
    *stacks = kept;
    CommandResponse::Done
}

/// The actions of re-focusing `focused` in each stack in turn, in
/// registry order: stacks that do not contain it contribute nothing.
pub open spec fn spec_focus_all(snaps: Seq<TreeSnapshot>, focused: u64) -> Seq<BspcAction>
    decreases snaps.len(),
{
    if snaps.len() == 0 {
        Seq::empty()
    } else {
        StackState::spec_focus_actions(snaps[0], focused) + spec_focus_all(snaps.skip(1), focused)
    }
}

/// Re-applies the ratio balancing of every stack toward the focused
/// node, in registry order; run stale-stack pruning first, since a stack
/// whose root is gone can no longer answer the snapshot fetch that
/// `snapshots` holds. `snapshots` holds one fresh snapshot per stack.
pub fn focus_all_stacks(
    stacks: &Vec<StackState>,
    snapshots: &Vec<TreeSnapshot>,
    focused: u64,
) -> (r: Vec<BspcAction>)
    requires
        spec_snapshots_match(stacks@, snapshots@),
    ensures
        r@ == spec_focus_all(snapshots@, focused),
{
    let mut r: Vec<BspcAction> = Vec::new();
    let mut i: usize = 0;
    proof {
        assert(snapshots@.skip(0) =~= snapshots@);
    }
    while i < stacks.len()
        invariant
            0 <= i <= stacks@.len(),
            spec_snapshots_match(stacks@, snapshots@),
            spec_focus_all(snapshots@, focused) == r@ + spec_focus_all(
                snapshots@.skip(i as int),
                focused,
            ),
        decreases stacks@.len() - i,
    {
        proof {
            assert(snapshots@.skip(i as int)[0] == snapshots@[i as int]);
            assert(snapshots@.skip(i as int).skip(1) =~= snapshots@.skip(i + 1));
        }
        let stack = stacks[i];
        let mut actions = stack.focus_node_by_id(&snapshots[i], focused);
        r.append(&mut actions);
        i = i + 1;
    }
    proof {
        assert(snapshots@.skip(stacks@.len() as int) =~= Seq::<TreeSnapshot>::empty());
        assert(r@ =~= spec_focus_all(snapshots@, focused));
    }
    r
}

/// Creates a stack rooted at the currently focused node, whose fresh
/// snapshot is `focused_snapshot`, appends it to the registry, and
/// focuses the stack's first leaf.
pub fn create_stack(stacks: &mut Vec<StackState>, focused_snapshot: &TreeSnapshot) -> (r: (
    CommandResponse,
    Vec<BspcAction>,
))
    ensures
        final(stacks)@ == old(stacks)@.push(StackState { root: focused_snapshot.id }),
        r.0 == CommandResponse::Done,
        r.1@ == StackState::spec_focus_actions(
            *focused_snapshot,
            focused_snapshot.spec_leaves()[0],
        ),
{
    proof {
        crate::tree::lemma_leaves_nonempty(*focused_snapshot);
    }
    let stack = StackState::new(focused_snapshot);
    let (_, actions) = stack.focus_leaf_by_index(focused_snapshot, 0);
    stacks.push(stack);
    (CommandResponse::Done, actions)
}

} // verus!
