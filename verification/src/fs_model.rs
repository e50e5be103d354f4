//! Ghost model of the destination directory tree.
//!
//! The tree maps resolved paths to nodes. Performing a planned write puts a
//! node at its path unconditionally: a directory is created idempotently
//! ("already exists" is success), and a file is created or overwritten.
//! Since no write reads the tree, re-performing the same writes changes
//! nothing — the idempotence of re-extraction.

use vstd::prelude::*;
use crate::engine::{lemma_plans_agree_across_worker_counts, planned_for_ranges, ActionModel};
use crate::partition::{partition_of, WorkRange};

verus! {

/// A node of the destination tree: a directory, or a file's bytes.
pub enum FsNode {
    Dir,
    File { data: Seq<u8> },
}

/// The node a planned write puts at its path.
pub open spec fn action_node(a: ActionModel) -> FsNode {
    match a {
        ActionModel::MakeDir { .. } => FsNode::Dir,
        ActionModel::WriteFile { data, .. } => FsNode::File { data },
    }
}

/// The destination tree after performing `acts[i ..]` in order on `tree`.
pub open spec fn apply_actions(
    tree: Map<Seq<Seq<char>>, FsNode>,
    acts: Seq<ActionModel>,
    i: int,
) -> Map<Seq<Seq<char>>, FsNode>
    decreases acts.len() - i,
{
    if i < 0 || i >= acts.len() {
        tree
    } else {
        apply_actions(tree.insert(acts[i].path(), action_node(acts[i])), acts, i + 1)
    }
}

/// Whether some write of `acts[i ..]` touches path `p`.
pub open spec fn writes_path(acts: Seq<ActionModel>, i: int, p: Seq<Seq<char>>) -> bool {
    exists|j: int| i <= j < acts.len() && (#[trigger] acts[j]).path() == p
}

/// The trees `t1` and `t2` hold the same node, or no node, at path `p`.
pub open spec fn agree_at(
    t1: Map<Seq<Seq<char>>, FsNode>,
    t2: Map<Seq<Seq<char>>, FsNode>,
    p: Seq<Seq<char>>,
) -> bool {
    &&& t1.contains_key(p) == t2.contains_key(p)
    &&& t1.contains_key(p) ==> t1[p] == t2[p]
}

/// A path no write touches keeps its node.
pub proof fn lemma_apply_frame(
    tree: Map<Seq<Seq<char>>, FsNode>,
    acts: Seq<ActionModel>,
    i: int,
    p: Seq<Seq<char>>,
)
    requires
        !writes_path(acts, i, p),
    ensures
        agree_at(apply_actions(tree, acts, i), tree, p),
    decreases acts.len() - i,
{
    if i < 0 || i >= acts.len() {
    } else {
        assert(acts[i].path() != p);
        assert(!writes_path(acts, i + 1, p)) by {
            if writes_path(acts, i + 1, p) {
                let j = choose|j: int| i + 1 <= j < acts.len() && (#[trigger] acts[j]).path() == p;
                assert(i <= j < acts.len() && acts[j].path() == p);
            }
        }
        lemma_apply_frame(tree.insert(acts[i].path(), action_node(acts[i])), acts, i + 1, p);
    }
}

/// Performing the same writes on two trees that agree wherever no write
/// touches yields one and the same tree.
pub proof fn lemma_apply_determined(
    t1: Map<Seq<Seq<char>>, FsNode>,
    t2: Map<Seq<Seq<char>>, FsNode>,
    acts: Seq<ActionModel>,
    i: int,
)
    requires
        i >= 0,
        forall|p: Seq<Seq<char>>| !writes_path(acts, i, p) ==> #[trigger] agree_at(t1, t2, p),
    ensures
        apply_actions(t1, acts, i) == apply_actions(t2, acts, i),
    decreases acts.len() - i,
{
    if i >= acts.len() {
        assert forall|p: Seq<Seq<char>>| #[trigger] t1.contains_key(p)
            == t2.contains_key(p) && (t1.contains_key(p) ==> t1[p] == t2[p]) by {
            assert(!writes_path(acts, i, p));
            assert(agree_at(t1, t2, p));
        }
        assert(t1 =~= t2);
    } else {
        let p0 = acts[i].path();
        let nd = action_node(acts[i]);
        assert forall|p: Seq<Seq<char>>| !writes_path(acts, i + 1, p) implies #[trigger] agree_at(
            t1.insert(p0, nd),
            t2.insert(p0, nd),
            p,
        ) by {
            if p != p0 {
                assert(!writes_path(acts, i, p)) by {
                    if writes_path(acts, i, p) {
                        let j = choose|j: int|
                            i <= j < acts.len() && (#[trigger] acts[j]).path() == p;
                        assert(j != i);
                        assert(i + 1 <= j < acts.len() && acts[j].path() == p);
                    }
                }
                assert(agree_at(t1, t2, p));
            }
        }
        lemma_apply_determined(t1.insert(p0, nd), t2.insert(p0, nd), acts, i + 1);
    }
}

/// Idempotence of re-extraction: performing the same planned writes a
/// second time, on the tree the first pass produced, changes nothing — the
/// final content is byte-identical, whatever the worker count that produced
/// the plan.
pub proof fn lemma_extraction_idempotent(tree: Map<Seq<Seq<char>>, FsNode>, acts: Seq<ActionModel>)
    ensures
        apply_actions(apply_actions(tree, acts, 0), acts, 0) == apply_actions(tree, acts, 0),
{
    assert forall|p: Seq<Seq<char>>| !writes_path(acts, 0, p) implies #[trigger] agree_at(
        apply_actions(tree, acts, 0),
        tree,
        p,
    ) by {
        lemma_apply_frame(tree, acts, 0, p);
    }
    lemma_apply_determined(apply_actions(tree, acts, 0), tree, acts, 0);
}

/// Re-extracting the same archive into the same destination yields
/// byte-identical final content, whatever worker counts the two runs used:
/// the second run's writes are the same pass over the entries, and
/// re-performing them changes nothing.
pub proof fn lemma_reextraction_any_worker_count(
    tree: Map<Seq<Seq<char>>, FsNode>,
    names: Seq<Seq<char>>,
    datas: Seq<Seq<u8>>,
    n: int,
    w1: int,
    w2: int,
    ranges1: Seq<WorkRange>,
    ranges2: Seq<WorkRange>,
)
    requires
        n >= 0,
        w1 >= 1,
        w2 >= 1,
        partition_of(ranges1, n, w1),
        partition_of(ranges2, n, w2),
    ensures
        apply_actions(
            apply_actions(tree, planned_for_ranges(names, datas, ranges1, 0), 0),
            planned_for_ranges(names, datas, ranges2, 0),
            0,
        ) == apply_actions(tree, planned_for_ranges(names, datas, ranges1, 0), 0),
{
    lemma_plans_agree_across_worker_counts(names, datas, n, w1, w2, ranges1, ranges2);
    lemma_extraction_idempotent(tree, planned_for_ranges(names, datas, ranges1, 0));
}

} // verus!
