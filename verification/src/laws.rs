//! Laws of the queries: what they yield on absent PIDs, on processes with
//! missing or exited parents, and on chain-, tree- and cycle-shaped parent
//! data.

use vstd::prelude::*;

verus! {

use crate::ProcessRecordView;
use crate::SingleProcessView;
use crate::model::{
    children_of, descendants_query, dfs, distinct_pids, lemma_dfs_emits_each_pid_once,
    lemma_dfs_nil, lemma_dfs_step, lemma_lookup_distinct, lemma_lookup_props, lookup,
    parent_query, project,
};

/// A PID that no record of the snapshot carries has no parent to report:
/// the parent query yields nothing.
pub proof fn lemma_parent_of_absent_pid(s: Seq<ProcessRecordView>, p: u32)
    requires
        forall|i: int| 0 <= i < s.len() ==> s[i].pid != p,
    ensures
        parent_query(s, p) is None,
{
    lemma_lookup_props(s, p);
}

/// A PID that no record of the snapshot carries has no descendants: the
/// descendants query yields the empty sequence, even when stale records
/// still name the PID as their parent.
pub proof fn lemma_descendants_of_absent_pid(s: Seq<ProcessRecordView>, p: u32)
    requires
        forall|i: int| 0 <= i < s.len() ==> s[i].pid != p,
    ensures
        descendants_query(s, p) == Seq::<SingleProcessView>::empty(),
{
    lemma_lookup_props(s, p);
}

/// On every snapshot and every PID — self-referential and cyclic parent
/// data included — the descendants query emits each PID at most once, and
/// never the queried PID itself. It always yields a value: the traversal is
/// a total function, its termination proved by the shrinking set of
/// mentioned-but-unvisited PIDs.
pub proof fn lemma_descendants_emit_each_pid_once(s: Seq<ProcessRecordView>, p: u32)
    ensures
        forall|k: int, l: int| 0 <= k < l < descendants_query(s, p).len() ==> (
        #[trigger] descendants_query(s, p)[k]).pid != (#[trigger] descendants_query(s, p)[l]).pid,
        forall|k: int| 0 <= k < descendants_query(s, p).len() ==> (
        #[trigger] descendants_query(s, p)[k]).pid != p,
{
    broadcast use vstd::set::group_set_axioms;

    if lookup(s, p) is Some {
        lemma_dfs_emits_each_pid_once(s, children_of(s, p), Set::empty().insert(p));
    }
}

/// A process with no recorded parent has no parent to report.
pub proof fn lemma_parent_of_root(s: Seq<ProcessRecordView>, i: int)
    requires
        distinct_pids(s),
        0 <= i < s.len(),
        s[i].parent_pid is None,
    ensures
        parent_query(s, s[i].pid) is None,
{
    lemma_lookup_distinct(s, i);
}

/// A process whose recorded parent PID no record carries (the parent
/// exited between fork and snapshot) has no parent to report.
pub proof fn lemma_parent_exited(s: Seq<ProcessRecordView>, i: int, pp: u32)
    requires
        distinct_pids(s),
        0 <= i < s.len(),
        s[i].parent_pid == Some(pp),
        forall|j: int| 0 <= j < s.len() ==> s[j].pid != pp,
    ensures
        parent_query(s, s[i].pid) is None,
{
    lemma_lookup_distinct(s, i);
    lemma_lookup_props(s, pp);
}

/// In a chain a -> b -> c -> d (each the parent of the next), the
/// descendants of the head are b, c, d, in that order.
pub proof fn lemma_descendants_of_chain(
    a: ProcessRecordView,
    b: ProcessRecordView,
    c: ProcessRecordView,
    d: ProcessRecordView,
)
    requires
        a.parent_pid is None,
        b.parent_pid == Some(a.pid),
        c.parent_pid == Some(b.pid),
        d.parent_pid == Some(c.pid),
        a.pid != b.pid,
        a.pid != c.pid,
        a.pid != d.pid,
        b.pid != c.pid,
        b.pid != d.pid,
        c.pid != d.pid,
    ensures
        descendants_query(seq![a, b, c, d], a.pid) == seq![project(b), project(c), project(d)],
{
    broadcast use vstd::set::group_set_axioms;

    let s = seq![a, b, c, d];
    let s3 = seq![a, b, c];
    let s2 = seq![a, b];
    let s1 = seq![a];
    let s0 = Seq::<ProcessRecordView>::empty();
    assert(s.drop_last() =~= s3);
    assert(s3.drop_last() =~= s2);
    assert(s2.drop_last() =~= s1);
    assert(s1.drop_last() =~= s0);

    assert(lookup(s, a.pid) == lookup(s3, a.pid));
    assert(lookup(s3, a.pid) == lookup(s2, a.pid));
    assert(lookup(s2, a.pid) == lookup(s1, a.pid));
    assert(lookup(s1, a.pid) == Some(a));

    assert(children_of(s, a.pid) == children_of(s3, a.pid));
    assert(children_of(s3, a.pid) == children_of(s2, a.pid));
    assert(children_of(s2, a.pid) == children_of(s1, a.pid).push(b));
    assert(children_of(s1, a.pid) == children_of(s0, a.pid));
    assert(children_of(s, a.pid) =~= seq![b]);

    assert(children_of(s, b.pid) == children_of(s3, b.pid));
    assert(children_of(s3, b.pid) == children_of(s2, b.pid).push(c));
    assert(children_of(s2, b.pid) == children_of(s1, b.pid));
    assert(children_of(s1, b.pid) == children_of(s0, b.pid));
    assert(children_of(s, b.pid) =~= seq![c]);

    assert(children_of(s, c.pid) == children_of(s3, c.pid).push(d));
    assert(children_of(s3, c.pid) == children_of(s2, c.pid));
    assert(children_of(s2, c.pid) == children_of(s1, c.pid));
    assert(children_of(s1, c.pid) == children_of(s0, c.pid));
    assert(children_of(s, c.pid) =~= seq![d]);

    assert(children_of(s, d.pid) == children_of(s3, d.pid));
    assert(children_of(s3, d.pid) == children_of(s2, d.pid));
    assert(children_of(s2, d.pid) == children_of(s1, d.pid));
    assert(children_of(s1, d.pid) == children_of(s0, d.pid));
    assert(children_of(s, d.pid) =~= s0);

    let v0 = Set::<u32>::empty().insert(a.pid);
    let v1 = v0.insert(b.pid);
    let v2 = v1.insert(c.pid);
    let v3 = v2.insert(d.pid);

    lemma_dfs_step(s, seq![b], v0);
    assert(seq![b].drop_first() =~= s0);
    assert(children_of(s, b.pid) + s0 =~= seq![c]);
    assert(dfs(s, seq![b], v0) == seq![project(b)] + dfs(s, seq![c], v1));

    lemma_dfs_step(s, seq![c], v1);
    assert(seq![c].drop_first() =~= s0);
    assert(children_of(s, c.pid) + s0 =~= seq![d]);
    assert(dfs(s, seq![c], v1) == seq![project(c)] + dfs(s, seq![d], v2));

    lemma_dfs_step(s, seq![d], v2);
    assert(seq![d].drop_first() =~= s0);
    assert(children_of(s, d.pid) + s0 =~= s0);
    assert(dfs(s, seq![d], v2) == seq![project(d)] + dfs(s, s0, v3));

    lemma_dfs_nil(s, v3);
    assert(seq![project(b)] + (seq![project(c)] + (seq![project(d)]
        + Seq::<SingleProcessView>::empty())) =~= seq![project(b), project(c), project(d)]);
}

/// In a tree where a has the children b and c, and b has the child d, the
/// descendants of a are b, d, c: pre-order, b's entire subtree before the
/// sibling c.
pub proof fn lemma_descendants_of_branching_tree(
    a: ProcessRecordView,
    b: ProcessRecordView,
    c: ProcessRecordView,
    d: ProcessRecordView,
)
    requires
        a.parent_pid is None,
        b.parent_pid == Some(a.pid),
        c.parent_pid == Some(a.pid),
        d.parent_pid == Some(b.pid),
        a.pid != b.pid,
        a.pid != c.pid,
        a.pid != d.pid,
        b.pid != c.pid,
        b.pid != d.pid,
        c.pid != d.pid,
    ensures
        descendants_query(seq![a, b, c, d], a.pid) == seq![project(b), project(d), project(c)],
{
    broadcast use vstd::set::group_set_axioms;

    let s = seq![a, b, c, d];
    let s3 = seq![a, b, c];
    let s2 = seq![a, b];
    let s1 = seq![a];
    let s0 = Seq::<ProcessRecordView>::empty();
    assert(s.drop_last() =~= s3);
    assert(s3.drop_last() =~= s2);
    assert(s2.drop_last() =~= s1);
    assert(s1.drop_last() =~= s0);

    assert(lookup(s, a.pid) == lookup(s3, a.pid));
    assert(lookup(s3, a.pid) == lookup(s2, a.pid));
    assert(lookup(s2, a.pid) == lookup(s1, a.pid));
    assert(lookup(s1, a.pid) == Some(a));

    assert(children_of(s, a.pid) == children_of(s3, a.pid));
    assert(children_of(s3, a.pid) == children_of(s2, a.pid).push(c));
    assert(children_of(s2, a.pid) == children_of(s1, a.pid).push(b));
    assert(children_of(s1, a.pid) == children_of(s0, a.pid));
    assert(children_of(s, a.pid) =~= seq![b, c]);

    assert(children_of(s, b.pid) == children_of(s3, b.pid).push(d));
    assert(children_of(s3, b.pid) == children_of(s2, b.pid));
    assert(children_of(s2, b.pid) == children_of(s1, b.pid));
    assert(children_of(s1, b.pid) == children_of(s0, b.pid));
    assert(children_of(s, b.pid) =~= seq![d]);

    assert(children_of(s, c.pid) == children_of(s3, c.pid));
    assert(children_of(s3, c.pid) == children_of(s2, c.pid));
    assert(children_of(s2, c.pid) == children_of(s1, c.pid));
    assert(children_of(s1, c.pid) == children_of(s0, c.pid));
    assert(children_of(s, c.pid) =~= s0);

    assert(children_of(s, d.pid) == children_of(s3, d.pid));
    assert(children_of(s3, d.pid) == children_of(s2, d.pid));
    assert(children_of(s2, d.pid) == children_of(s1, d.pid));
    assert(children_of(s1, d.pid) == children_of(s0, d.pid));
    assert(children_of(s, d.pid) =~= s0);

    let v0 = Set::<u32>::empty().insert(a.pid);
    let v1 = v0.insert(b.pid);
    let v2 = v1.insert(d.pid);
    let v3 = v2.insert(c.pid);

    lemma_dfs_step(s, seq![b, c], v0);
    assert(seq![b, c].first() == b);
    assert(seq![b, c].drop_first() =~= seq![c]);
    assert(children_of(s, b.pid) + seq![c] =~= seq![d, c]);
    assert(dfs(s, seq![b, c], v0) == seq![project(b)] + dfs(s, seq![d, c], v1));

    lemma_dfs_step(s, seq![d, c], v1);
    assert(seq![d, c].first() == d);
    assert(seq![d, c].drop_first() =~= seq![c]);
    assert(children_of(s, d.pid) + seq![c] =~= seq![c]);
    assert(dfs(s, seq![d, c], v1) == seq![project(d)] + dfs(s, seq![c], v2));

    lemma_dfs_step(s, seq![c], v2);
    assert(seq![c].drop_first() =~= s0);
    assert(children_of(s, c.pid) + s0 =~= s0);
    assert(dfs(s, seq![c], v2) == seq![project(c)] + dfs(s, s0, v3));

    lemma_dfs_nil(s, v3);
    assert(seq![project(b)] + (seq![project(d)] + (seq![project(c)]
        + Seq::<SingleProcessView>::empty())) =~= seq![project(b), project(d), project(c)]);
}

/// On a manufactured two-cycle, where a's recorded parent is b and b's
/// recorded parent is a, the descendants query for a still yields a result
/// (the traversal terminates, as `dfs` is a total function) and that result
/// lists a's one true child b exactly once: the cycle back to a is not
/// followed and nothing is emitted twice.
pub proof fn lemma_descendants_of_cycle(a: ProcessRecordView, b: ProcessRecordView)
    requires
        a.parent_pid == Some(b.pid),
        b.parent_pid == Some(a.pid),
        a.pid != b.pid,
    ensures
        descendants_query(seq![a, b], a.pid) == seq![project(b)],
{
    broadcast use vstd::set::group_set_axioms;

    let s = seq![a, b];
    let s1 = seq![a];
    let s0 = Seq::<ProcessRecordView>::empty();
    assert(s.drop_last() =~= s1);
    assert(s1.drop_last() =~= s0);

    assert(lookup(s, a.pid) == lookup(s1, a.pid));
    assert(lookup(s1, a.pid) == Some(a));

    assert(children_of(s, a.pid) == children_of(s1, a.pid).push(b));
    assert(children_of(s1, a.pid) == children_of(s0, a.pid));
    assert(children_of(s, a.pid) =~= seq![b]);

    assert(children_of(s, b.pid) == children_of(s1, b.pid));
    assert(children_of(s1, b.pid) == children_of(s0, b.pid).push(a));
    assert(children_of(s, b.pid) =~= seq![a]);

    let v0 = Set::<u32>::empty().insert(a.pid);
    let v1 = v0.insert(b.pid);

    lemma_dfs_step(s, seq![b], v0);
    assert(seq![b].drop_first() =~= s0);
    assert(children_of(s, b.pid) + s0 =~= seq![a]);
    assert(dfs(s, seq![b], v0) == seq![project(b)] + dfs(s, seq![a], v1));

    lemma_dfs_step(s, seq![a], v1);
    assert(v1.contains(a.pid));
    assert(seq![a].drop_first() =~= s0);
    lemma_dfs_nil(s, v1);
    assert(seq![project(b)] + Seq::<SingleProcessView>::empty() =~= seq![project(b)]);
}

} // verus!
