//! The tree snapshot model: an immutable value describing one fetched
//! subtree of the window manager's split tree, and pure queries over it.

use vstd::prelude::*;

verus! {

/// Whether a node divides its area into a top/bottom (`Horizontal`) or
/// left/right (`Vertical`) pair of children.
#[derive(Clone, Copy, PartialEq, Eq, Structural, Debug)]
pub enum SplitDirection {
    Horizontal,
    Vertical,
}

/// The branch taken at one split node on the way down to a descendant.
#[derive(Clone, Copy, PartialEq, Eq, Structural, Debug)]
pub enum Children {
    First,
    Second,
}

/// One fetched subtree of the manager's split tree. The tree is always
/// full binary: a node has either no children or exactly two, which the
/// shape of `children` enforces. A snapshot is a value, not a live view:
/// it is never patched after it is read.
#[derive(Debug)]
pub struct TreeSnapshot {
    pub id: u64,
    pub split: SplitDirection,
    pub children: Option<(Box<TreeSnapshot>, Box<TreeSnapshot>)>,
}

impl TreeSnapshot {
    /// All node ids of the subtree in pre-order: the node itself, then the
    /// first child's subtree, then the second child's.
    pub open spec fn spec_descendants(self) -> Seq<u64>
        decreases self,
    {
        match self.children {
            None => seq![self.id],
            Some(c) => seq![self.id] + c.0.spec_descendants() + c.1.spec_descendants(),
        }
    }

    /// The ids of the leaves of the subtree, in left-to-right order.
    pub open spec fn spec_leaves(self) -> Seq<u64>
        decreases self,
    {
        match self.children {
            None => seq![self.id],
            Some(c) => c.0.spec_leaves() + c.1.spec_leaves(),
        }
    }

    /// How many leaves the subtree has.
    pub open spec fn spec_leaf_count(self) -> nat {
        self.spec_leaves().len()
    }

    /// Whether `id` occurs in the subtree (a node counts as its own
    /// descendant).
    pub open spec fn spec_contains(self, id: u64) -> bool {
        self.spec_descendants().contains(id)
    }
}

/// Returns the id of a node.
pub fn get_node_id(node: &TreeSnapshot) -> (r: u64)
    ensures
        r == node.id,
{
    node.id
}

/// Returns the split direction of a node.
pub fn get_node_split_direction(node: &TreeSnapshot) -> (r: SplitDirection)
    ensures
        r == node.split,
{
    node.split
}

/// Returns both children of a node, or `None` for a leaf.
pub fn get_node_children<'a>(node: &'a TreeSnapshot) -> (r: Option<(
    &'a TreeSnapshot,
    &'a TreeSnapshot,
)>)
    ensures
        node.children is None ==> r is None,
        node.children matches Some(c) ==> (r matches Some(d) && *d.0 == c.0 && *d.1 == c.1),
{
    match &node.children {
        None => None,
        Some(c) => Some((&c.0, &c.1)),
    }
}

/// Returns all node ids of the subtree of `root`, in pre-order.
pub fn get_node_descendants(root: &TreeSnapshot) -> (r: Vec<u64>)
    ensures
        r@ == root.spec_descendants(),
{
    let mut buffer: Vec<u64> = Vec::new();
    descendants_into(root, &mut buffer);
    buffer
}

fn descendants_into(root: &TreeSnapshot, buffer: &mut Vec<u64>)
    ensures
        final(buffer)@ == old(buffer)@ + root.spec_descendants(),
    decreases *root,
{
    buffer.push(root.id);
    match &root.children {
        None => {
            assert(final(buffer)@ =~= old(buffer)@ + root.spec_descendants());
        },
        Some(c) => {
            descendants_into(&c.0, buffer);
            descendants_into(&c.1, buffer);
            assert(final(buffer)@ =~= old(buffer)@ + root.spec_descendants());
        },
    }
}

/// Returns the ids of all leaves of the subtree of `root`, left to right.
pub fn get_node_descendant_leaves(root: &TreeSnapshot) -> (r: Vec<u64>)
    ensures
        r@ == root.spec_leaves(),
    decreases *root,
{
    match &root.children {
        None => {
            let mut r: Vec<u64> = Vec::new();
            r.push(root.id);
            assert(r@ =~= root.spec_leaves());
            r
        },
        Some(c) => {
            let mut first_result = get_node_descendant_leaves(&c.0);
            let mut second_result = get_node_descendant_leaves(&c.1);
            first_result.append(&mut second_result);
            assert(first_result@ =~= root.spec_leaves());
            first_result
        },
    }
}

/// Counts the leaves of the subtree of `root`.
pub fn count_node_descendant_leaves(root: &TreeSnapshot) -> (r: u64)
    ensures
        r == root.spec_leaf_count(),
{
    let leaves = get_node_descendant_leaves(root);
    leaves.len() as u64
}

/// Whether `child` occurs in the subtree of `root`. A node is a
/// descendant of itself.
pub fn is_node_descendant(root: &TreeSnapshot, child: u64) -> (r: bool)
    ensures
        r == root.spec_contains(child),
{
    let descendants = get_node_descendants(root);
    let mut i: usize = 0;
    while i < descendants.len()
        invariant
            0 <= i <= descendants.len(),
            descendants@ == root.spec_descendants(),
            forall|j: int| 0 <= j < i ==> descendants@[j] != child,
        decreases descendants.len() - i,
    {
        if descendants[i] == child {
            return true;
        }
        i = i + 1;
    }
    false
}

impl TreeSnapshot {
    /// The path that the depth-first search of `find_path_to_node` yields,
    /// stored deepest choice first; the search prefers the first child.
    pub open spec fn spec_find_path(self, target: u64) -> Option<Seq<Children>>
        decreases self,
    {
        if self.id == target {
            Some(Seq::empty())
        } else {
            match self.children {
                None => None,
                Some(c) => match c.0.spec_find_path(target) {
                    Some(p) => Some(p.push(Children::First)),
                    None => match c.1.spec_find_path(target) {
                        Some(p) => Some(p.push(Children::Second)),
                        None => None,
                    },
                },
            }
        }
    }

    /// The subtree that walking `path` from this node reaches, consuming
    /// the deepest-first path from its back, or `None` when the path asks
    /// for a child of a leaf.
    pub open spec fn spec_follow_path(self, path: Seq<Children>) -> Option<TreeSnapshot>
        decreases path.len(),
    {
        if path.len() == 0 {
            Some(self)
        } else {
            match self.children {
                None => None,
                Some(c) => match path.last() {
                    Children::First => c.0.spec_follow_path(path.drop_last()),
                    Children::Second => c.1.spec_follow_path(path.drop_last()),
                },
            }
        }
    }

    /// The nodes that can be stacked under this node: the frontier reached
    /// by descending while the split direction stays `direction`.
    pub open spec fn spec_target_stack(self, direction: SplitDirection) -> Seq<u64>
        decreases self,
    {
        match self.children {
            None => seq![self.id],
            Some(c) => if self.split != direction {
                seq![self.id]
            } else {
                c.0.spec_target_stack(direction) + c.1.spec_target_stack(direction)
            },
        }
    }
}

/// The search finds a path exactly when the target occurs in the subtree.
pub proof fn lemma_find_path_some_iff_contains(t: TreeSnapshot, target: u64)
    ensures
        t.spec_find_path(target) is Some <==> t.spec_contains(target),
    decreases t,
{
    if t.id == target {
        assert(t.spec_descendants()[0] == target);
    } else {
        match t.children {
            None => {
                assert(t.spec_descendants() =~= seq![t.id]);
                assert(!t.spec_contains(target));
            },
            Some(c) => {
                lemma_find_path_some_iff_contains(*c.0, target);
                lemma_find_path_some_iff_contains(*c.1, target);
                let d = t.spec_descendants();
                let d0 = c.0.spec_descendants();
                let d1 = c.1.spec_descendants();
                assert(d =~= seq![t.id] + d0 + d1);
                if t.spec_contains(target) {
                    let i = choose|i: int| 0 <= i < d.len() && d[i] == target;
                    if 1 <= i < 1 + d0.len() {
                        assert(d0[i - 1] == target);
                        assert(c.0.spec_contains(target));
                    } else {
                        assert(d1[i - 1 - d0.len()] == target);
                        assert(c.1.spec_contains(target));
                    }
                }
                if c.0.spec_contains(target) {
                    let i = choose|i: int| 0 <= i < d0.len() && d0[i] == target;
                    assert(d[i + 1] == target);
                }
                if c.1.spec_contains(target) {
                    let i = choose|i: int| 0 <= i < d1.len() && d1[i] == target;
                    assert(d[i + 1 + d0.len()] == target);
                }
            },
        }
    }
}

/// Walking the found path from the root reaches a node that carries the
/// target id, after exactly one branching per path element: the path's
/// length is the target's depth below the root.
pub proof fn lemma_find_path_reaches(t: TreeSnapshot, target: u64)
    requires
        t.spec_find_path(target) is Some,
    ensures
        t.spec_follow_path(t.spec_find_path(target)->Some_0) matches Some(n) && n.id == target,
    decreases t,
{
    if t.id == target {
    } else {
        match t.children {
            None => {},
            Some(c) => {
                match c.0.spec_find_path(target) {
                    Some(p) => {
                        lemma_find_path_reaches(*c.0, target);
                        assert(p.push(Children::First).drop_last() =~= p);
                    },
                    None => {
                        match c.1.spec_find_path(target) {
                            Some(p) => {
                                lemma_find_path_reaches(*c.1, target);
                                assert(p.push(Children::Second).drop_last() =~= p);
                            },
                            None => {},
                        }
                    },
                }
            },
        }
    }
}

/// Returns the branch choices leading from `root` down to the node whose
/// id is `target`, deepest choice first, so that a walker can consume the
/// path by popping it; `None` when the target is not in this subtree.
pub fn find_path_to_node(root: &TreeSnapshot, target: u64) -> (r: Option<Vec<Children>>)
    ensures
        r matches Some(p) ==> root.spec_find_path(target) == Some(p@),
        r is None ==> root.spec_find_path(target) is None,
        r is Some <==> root.spec_contains(target),
    decreases *root,
{
    proof {
        lemma_find_path_some_iff_contains(*root, target);
    }
    if root.id == target {
        let path: Vec<Children> = Vec::new();
        assert(path@ =~= Seq::<Children>::empty());
        return Some(path);
    }
    match &root.children {
        None => None,
        Some(c) => {
            let direction_to_first = find_path_to_node(&c.0, target);
            match direction_to_first {
                Some(mut path) => {
                    path.push(Children::First);
                    Some(path)
                },
                None => {
                    let direction_to_second = find_path_to_node(&c.1, target);
                    match direction_to_second {
                        Some(mut path) => {
                            path.push(Children::Second);
                            Some(path)
                        },
                        None => None,
                    }
                },
            }
        },
    }
}

/// Returns the frontier of nodes that can be stacked under `root`: the
/// tree is descended while the split direction equals `direction`, and
/// each node where the descent stops (a leaf, or a split the other way)
/// is listed, left to right.
pub fn find_target_stack(root: &TreeSnapshot, direction: &SplitDirection) -> (r: Vec<u64>)
    ensures
        r@ == root.spec_target_stack(*direction),
    decreases *root,
{
    let node_children = get_node_children(root);
    match node_children {
        None => {
            let mut r: Vec<u64> = Vec::new();
            r.push(root.id);
            assert(r@ =~= root.spec_target_stack(*direction));
            r
        },
        Some((first_child, second_child)) => {
            if get_node_split_direction(root) != *direction {
                let mut r: Vec<u64> = Vec::new();
                r.push(root.id);
                assert(r@ =~= root.spec_target_stack(*direction));
                r
            } else {
                let mut result = find_target_stack(first_child, direction);
                let mut second_result = find_target_stack(second_child, direction);
                result.append(&mut second_result);
                assert(result@ =~= root.spec_target_stack(*direction));
                result
            }
        },
    }
}

impl TreeSnapshot {
    /// No id occurs twice in the subtree. The manager hands out unique
    /// ids, so a fetched snapshot has this shape.
    pub open spec fn spec_unique_ids(self) -> bool {
        forall|i: int, j: int|
            0 <= i < j < self.spec_descendants().len() ==> self.spec_descendants()[i]
                != self.spec_descendants()[j]
    }
}

/// An id found in a child's subtree is found in the whole subtree.
proof fn lemma_child_contains(t: TreeSnapshot, id: u64)
    requires
        t.children is Some,
        (t.children->Some_0.0.spec_contains(id) || t.children->Some_0.1.spec_contains(id)),
    ensures
        t.spec_contains(id),
{
    let c = t.children->Some_0;
    let d = t.spec_descendants();
    let d0 = c.0.spec_descendants();
    let d1 = c.1.spec_descendants();
    assert(d =~= seq![t.id] + d0 + d1);
    if c.0.spec_contains(id) {
        let i = choose|i: int| 0 <= i < d0.len() && d0[i] == id;
        assert(d[i + 1] == id);
    } else {
        let i = choose|i: int| 0 <= i < d1.len() && d1[i] == id;
        assert(d[i + 1 + d0.len()] == id);
    }
}

/// In a subtree without repeated ids, the children are themselves free
/// of repeats, hold disjoint ids, and neither holds the root's id.
proof fn lemma_unique_children(t: TreeSnapshot)
    requires
        t.spec_unique_ids(),
        t.children is Some,
    ensures
        t.children->Some_0.0.spec_unique_ids(),
        t.children->Some_0.1.spec_unique_ids(),
        forall|id: u64|
            !(t.children->Some_0.0.spec_contains(id) && t.children->Some_0.1.spec_contains(id)),
        !t.children->Some_0.0.spec_contains(t.id),
        !t.children->Some_0.1.spec_contains(t.id),
{
    let c = t.children->Some_0;
    let d = t.spec_descendants();
    let d0 = c.0.spec_descendants();
    let d1 = c.1.spec_descendants();
    assert(d =~= seq![t.id] + d0 + d1);
    assert forall|i: int, j: int| 0 <= i < j < d0.len() implies d0[i] != d0[j] by {
        assert(d[i + 1] == d0[i]);
        assert(d[j + 1] == d0[j]);
    }
    assert forall|i: int, j: int| 0 <= i < j < d1.len() implies d1[i] != d1[j] by {
        assert(d[i + 1 + d0.len()] == d1[i]);
        assert(d[j + 1 + d0.len()] == d1[j]);
    }
    assert forall|id: u64| !(c.0.spec_contains(id) && c.1.spec_contains(id)) by {
        if c.0.spec_contains(id) && c.1.spec_contains(id) {
            let i = choose|i: int| 0 <= i < d0.len() && d0[i] == id;
            let j = choose|j: int| 0 <= j < d1.len() && d1[j] == id;
            assert(d[i + 1] == id);
            assert(d[j + 1 + d0.len()] == id);
        }
    }
    if c.0.spec_contains(t.id) {
        let i = choose|i: int| 0 <= i < d0.len() && d0[i] == t.id;
        assert(d[i + 1] == t.id);
        assert(d[0] == t.id);
    }
    if c.1.spec_contains(t.id) {
        let i = choose|i: int| 0 <= i < d1.len() && d1[i] == t.id;
        assert(d[i + 1 + d0.len()] == t.id);
        assert(d[0] == t.id);
    }
}

/// Walking any path lands inside the subtree; a step down lands inside
/// the child stepped into.
proof fn lemma_follow_in_descendants(t: TreeSnapshot, p: Seq<Children>)
    requires
        t.spec_follow_path(p) is Some,
    ensures
        t.spec_contains((t.spec_follow_path(p)->Some_0).id),
        p.len() > 0 ==> (match p.last() {
            Children::First => t.children->Some_0.0.spec_contains(
                (t.spec_follow_path(p)->Some_0).id,
            ),
            Children::Second => t.children->Some_0.1.spec_contains(
                (t.spec_follow_path(p)->Some_0).id,
            ),
        }),
    decreases p.len(),
{
    if p.len() == 0 {
        assert(t.spec_descendants()[0] == t.id);
    } else {
        let c = t.children->Some_0;
        match p.last() {
            Children::First => {
                lemma_follow_in_descendants(*c.0, p.drop_last());
            },
            Children::Second => {
                lemma_follow_in_descendants(*c.1, p.drop_last());
            },
        }
        lemma_child_contains(t, (t.spec_follow_path(p)->Some_0).id);
    }
}

/// In a subtree without repeated ids there is only one path to a given
/// id: two walks that both end on it are the same walk.
pub proof fn lemma_path_unique(t: TreeSnapshot, target: u64, p1: Seq<Children>, p2: Seq<Children>)
    requires
        t.spec_unique_ids(),
        t.spec_follow_path(p1) matches Some(n1) && n1.id == target,
        t.spec_follow_path(p2) matches Some(n2) && n2.id == target,
    ensures
        p1 == p2,
    decreases p1.len(),
{
    if p1.len() == 0 {
        // The first walk ends at the root, so the target is the root's
        // own id, which no child holds: the second walk cannot descend.
        if p2.len() > 0 {
            lemma_unique_children(t);
            lemma_follow_in_descendants(t, p2);
        }
        assert(p1 =~= p2);
    } else if p2.len() == 0 {
        lemma_unique_children(t);
        lemma_follow_in_descendants(t, p1);
    } else {
        let c = t.children->Some_0;
        lemma_unique_children(t);
        lemma_follow_in_descendants(t, p1);
        lemma_follow_in_descendants(t, p2);
        // Both walks step into the same child: the children's ids are
        // disjoint and both walks end on the target.
        assert(p1.last() == p2.last());
        match p1.last() {
            Children::First => {
                lemma_path_unique(*c.0, target, p1.drop_last(), p2.drop_last());
            },
            Children::Second => {
                lemma_path_unique(*c.1, target, p1.drop_last(), p2.drop_last());
            },
        }
        assert(p1 =~= p1.drop_last().push(p1.last()));
        assert(p2 =~= p2.drop_last().push(p2.last()));
    }
}

/// In a tree without repeated ids, the found path is the one and only
/// path from the root to the target: any walk that ends on the target
/// id is exactly it, so its length is the target's depth below the
/// root, one branching per path element.
pub proof fn lemma_find_path_is_unique_path(t: TreeSnapshot, target: u64, p: Seq<Children>)
    requires
        t.spec_unique_ids(),
        t.spec_follow_path(p) matches Some(n) && n.id == target,
    ensures
        t.spec_find_path(target) == Some(p),
{
    lemma_follow_in_descendants(t, p);
    lemma_find_path_some_iff_contains(t, target);
    lemma_find_path_reaches(t, target);
    let found = t.spec_find_path(target)->Some_0;
    lemma_path_unique(t, target, found, p);
}

/// Every subtree has at least one leaf.
pub proof fn lemma_leaves_nonempty(t: TreeSnapshot)
    ensures
        t.spec_leaves().len() >= 1,
    decreases t,
{
    match t.children {
        None => {},
        Some(c) => {
            lemma_leaves_nonempty(*c.0);
            lemma_leaves_nonempty(*c.1);
        },
    }
}

/// A node is its own descendant: its id opens its own pre-order listing.
pub proof fn lemma_self_descendant(t: TreeSnapshot)
    ensures
        t.spec_contains(t.id),
        t.spec_descendants()[0] == t.id,
{
    assert(t.spec_descendants()[0] == t.id);
}

/// A leaf has exactly one leaf, itself; an internal node has as many
/// leaves as its two children together, so the leaf counts of any set of
/// disjoint subtrees that cover the tree add up to the tree's own count.
pub proof fn lemma_leaf_count(t: TreeSnapshot)
    ensures
        t.spec_leaf_count() == t.spec_leaves().len(),
        t.children is None ==> t.spec_leaf_count() == 1,
        t.children matches Some(c) ==> t.spec_leaf_count() == c.0.spec_leaf_count()
            + c.1.spec_leaf_count(),
{
}

} // verus!
