//! The mathematical model of the queries: what an index lookup yields, which
//! records are a PID's children, and what the guarded depth-first traversal
//! of the parent/child relation produces.

use vstd::prelude::*;

verus! {

use crate::ProcessRecordView;
use crate::SingleProcessView;

/// The `{pid, name}` projection of a record.
pub open spec fn project(r: ProcessRecordView) -> SingleProcessView {
    SingleProcessView { pid: r.pid, name: r.name }
}

/// The record a PID index resolves `p` to: the last record in the snapshot
/// carrying PID `p`, mirroring an index built by inserting records in
/// snapshot order (a later record overwrites an earlier one; with unique
/// PIDs it is simply the record with PID `p`).
pub open spec fn lookup(s: Seq<ProcessRecordView>, p: u32) -> Option<ProcessRecordView>
    decreases s.len(),
{
    if s.len() == 0 {
        None
    } else if s.last().pid == p {
        Some(s.last())
    } else {
        lookup(s.drop_last(), p)
    }
}

/// The direct children of PID `p`: every record whose `parent_pid` is `p`,
/// kept in snapshot order.
pub open spec fn children_of(s: Seq<ProcessRecordView>, p: u32) -> Seq<ProcessRecordView>
    decreases s.len(),
{
    if s.len() == 0 {
        Seq::empty()
    } else if s.last().parent_pid == Some(p) {
        children_of(s.drop_last(), p).push(s.last())
    } else {
        children_of(s.drop_last(), p)
    }
}

/// Every PID the snapshot mentions, as a process or as a parent reference.
/// Bounds how many distinct PIDs a traversal can ever visit.
pub open spec fn mentioned_pids(s: Seq<ProcessRecordView>) -> Set<u32>
    decreases s.len(),
{
    if s.len() == 0 {
        Set::empty()
    } else {
        let rest = mentioned_pids(s.drop_last());
        match s.last().parent_pid {
            Some(pp) => rest.insert(s.last().pid).insert(pp),
            None => rest.insert(s.last().pid),
        }
    }
}

/// Whether no two records of the snapshot share a PID. Snapshots handed in
/// by the operating system satisfy this; no query depends on it.
pub open spec fn distinct_pids(s: Seq<ProcessRecordView>) -> bool {
    forall|i: int, j: int| 0 <= i < j < s.len() ==> s[i].pid != s[j].pid
}

/// Pre-order depth-first traversal of the parent/child relation, guarded
/// against cycles. `pending` is the explicit traversal stack, front first:
/// the next record is emitted unless its PID was already visited, and its
/// children are walked before the records behind it. The guard makes the
/// traversal terminate on snapshots of any shape, cyclic parent data
/// included.
pub open spec fn dfs(
    s: Seq<ProcessRecordView>,
    pending: Seq<ProcessRecordView>,
    visited: Set<u32>,
) -> Seq<SingleProcessView>
    decreases mentioned_pids(s).difference(visited).len(), pending.len(),
        when visited.finite()
        via dfs_decreases
{
    if pending.len() == 0 {
        Seq::empty()
    } else {
        let c = pending.first();
        if visited.contains(c.pid) {
            dfs(s, pending.drop_first(), visited)
        } else {
            seq![project(c)] + dfs(
                s,
                children_of(s, c.pid) + pending.drop_first(),
                visited.insert(c.pid),
            )
        }
    }
}

/// What listing all processes yields: each record's projection, in order.
pub open spec fn list_query(s: Seq<ProcessRecordView>) -> Seq<SingleProcessView> {
    s.map_values(|r: ProcessRecordView| project(r))
}

/// What the parent query yields: the projection of the parent of the
/// process with PID `p`, or `None` when `p` is not in the snapshot, has no
/// recorded parent, or the recorded parent is itself not in the snapshot.
pub open spec fn parent_query(s: Seq<ProcessRecordView>, p: u32) -> Option<SingleProcessView> {
    match lookup(s, p) {
        None => None,
        Some(rec) => match rec.parent_pid {
            None => None,
            Some(pp) => match lookup(s, pp) {
                None => None,
                Some(par) => Some(SingleProcessView { pid: pp, name: par.name }),
            },
        },
    }
}

/// What the descendants query yields: empty when no record of the snapshot
/// carries `p` itself, and otherwise the guarded pre-order walk started at
/// the children of `p`, with `p` counted as visited.
pub open spec fn descendants_query(s: Seq<ProcessRecordView>, p: u32) -> Seq<SingleProcessView> {
    if lookup(s, p) is Some {
        dfs(s, children_of(s, p), Set::empty().insert(p))
    } else {
        Seq::empty()
    }
}

/// The records of `s` standing at the given indices, in index order.
pub open spec fn recs_at(s: Seq<ProcessRecordView>, idxs: Seq<usize>) -> Seq<ProcessRecordView> {
    idxs.map_values(|i: usize| s[i as int])
}

/// A lookup succeeds exactly when some record carries the PID, and then
/// resolves to one of the records carrying it.
pub proof fn lemma_lookup_props(s: Seq<ProcessRecordView>, p: u32)
    ensures
        (lookup(s, p) is Some) <==> (exists|i: int| 0 <= i < s.len() && s[i].pid == p),
        lookup(s, p) matches Some(r) ==> r.pid == p && (exists|i: int|
            0 <= i < s.len() && s[i] == r),
    decreases s.len(),
{
    if s.len() > 0 {
        lemma_lookup_props(s.drop_last(), p);
        assert(forall|i: int| 0 <= i < s.drop_last().len() ==> s.drop_last()[i] == s[i]);
        if s.last().pid == p {
            assert(s[s.len() - 1].pid == p);
        } else if lookup(s.drop_last(), p) is Some {
            let i = choose|i: int| 0 <= i < s.drop_last().len() && s.drop_last()[i].pid == p;
            assert(s[i].pid == p);
        } else {
            assert forall|i: int| 0 <= i < s.len() implies s[i].pid != p by {
                if i < s.len() - 1 {
                    assert(s.drop_last()[i] == s[i]);
                }
            }
        }
    }
}

/// Under unique PIDs, a lookup of a record's PID resolves to that record.
pub proof fn lemma_lookup_distinct(s: Seq<ProcessRecordView>, i: int)
    requires
        distinct_pids(s),
        0 <= i < s.len(),
    ensures
        lookup(s, s[i].pid) == Some(s[i]),
    decreases s.len(),
{
    if i < s.len() - 1 {
        assert(forall|j: int| 0 <= j < s.drop_last().len() ==> s.drop_last()[j] == s[j]);
        lemma_lookup_distinct(s.drop_last(), i);
    }
}

pub proof fn lemma_mentioned_pids_finite(s: Seq<ProcessRecordView>)
    ensures
        mentioned_pids(s).finite(),
    decreases s.len(),
{
    broadcast use vstd::set::group_set_axioms;

    if s.len() > 0 {
        lemma_mentioned_pids_finite(s.drop_last());
    }
}

/// Each record's own PID, and its parent reference if it has one, are
/// mentioned PIDs.
pub proof fn lemma_mentioned_pids_cover(s: Seq<ProcessRecordView>, i: int)
    requires
        0 <= i < s.len(),
    ensures
        mentioned_pids(s).contains(s[i].pid),
        s[i].parent_pid matches Some(pp) ==> mentioned_pids(s).contains(pp),
    decreases s.len(),
{
    broadcast use vstd::set::group_set_axioms;

    if i < s.len() - 1 {
        lemma_mentioned_pids_cover(s.drop_last(), i);
        assert(s.drop_last()[i] == s[i]);
    }
}

/// A PID no record refers to as its parent has no children.
pub proof fn lemma_unreferenced_no_children(s: Seq<ProcessRecordView>, p: u32)
    requires
        forall|i: int| 0 <= i < s.len() ==> s[i].parent_pid != Some(p),
    ensures
        children_of(s, p) == Seq::<ProcessRecordView>::empty(),
    decreases s.len(),
{
    if s.len() > 0 {
        assert(forall|i: int|
            0 <= i < s.drop_last().len() ==> s.drop_last()[i] == s[i]);
        lemma_unreferenced_no_children(s.drop_last(), p);
    }
}

/// Visiting a fresh PID shrinks the set of mentioned PIDs still unvisited,
/// or the PID is unmentioned and then has no children.
pub proof fn lemma_visit_measure(s: Seq<ProcessRecordView>, visited: Set<u32>, p: u32)
    requires
        visited.finite(),
        !visited.contains(p),
    ensures
        mentioned_pids(s).contains(p) ==> mentioned_pids(s).difference(visited.insert(p)).len()
            < mentioned_pids(s).difference(visited).len(),
        !mentioned_pids(s).contains(p) ==> children_of(s, p)
            == Seq::<ProcessRecordView>::empty() && mentioned_pids(s).difference(
            visited.insert(p),
        ).len() == mentioned_pids(s).difference(visited).len(),
{
    broadcast use vstd::set::group_set_axioms;
    broadcast use vstd::set_lib::lemma_set_subset_finite;

    lemma_mentioned_pids_finite(s);
    let uni = mentioned_pids(s);
    assert(uni.difference(visited).subset_of(uni));
    assert(uni.difference(visited).finite());
    if uni.contains(p) {
        assert(uni.difference(visited.insert(p)) =~= uni.difference(visited).remove(p));
        assert(uni.difference(visited).contains(p));
    } else {
        assert forall|i: int| 0 <= i < s.len() implies s[i].parent_pid != Some(p) by {
            if s[i].parent_pid == Some(p) {
                lemma_mentioned_pids_cover(s, i);
            }
        }
        lemma_unreferenced_no_children(s, p);
        assert(uni.difference(visited.insert(p)) =~= uni.difference(visited));
    }
}

/// An empty traversal stack produces nothing.
pub proof fn lemma_dfs_nil(s: Seq<ProcessRecordView>, visited: Set<u32>)
    requires
        visited.finite(),
    ensures
        dfs(s, Seq::<ProcessRecordView>::empty(), visited) == Seq::<SingleProcessView>::empty(),
{
}

/// One traversal step: the front record is skipped when its PID was already
/// visited, and otherwise emitted with its children pushed in front of the
/// remaining stack.
pub proof fn lemma_dfs_step(
    s: Seq<ProcessRecordView>,
    pending: Seq<ProcessRecordView>,
    visited: Set<u32>,
)
    requires
        visited.finite(),
        pending.len() > 0,
    ensures
        visited.contains(pending.first().pid) ==> dfs(s, pending, visited) == dfs(
            s,
            pending.drop_first(),
            visited,
        ),
        !visited.contains(pending.first().pid) ==> dfs(s, pending, visited) == seq![
            project(pending.first()),
        ] + dfs(
            s,
            children_of(s, pending.first().pid) + pending.drop_first(),
            visited.insert(pending.first().pid),
        ),
{
}

/// The walk never emits a PID that was already visited, and never emits one
/// PID twice: an emitted PID becomes visited before anything after it is
/// emitted.
pub proof fn lemma_dfs_emits_each_pid_once(
    s: Seq<ProcessRecordView>,
    pending: Seq<ProcessRecordView>,
    visited: Set<u32>,
)
    requires
        visited.finite(),
    ensures
        forall|k: int| 0 <= k < dfs(s, pending, visited).len() ==> !visited.contains(
            (#[trigger] dfs(s, pending, visited)[k]).pid,
        ),
        forall|k: int, l: int| 0 <= k < l < dfs(s, pending, visited).len() ==> (#[trigger] dfs(
            s,
            pending,
            visited,
        )[k]).pid != (#[trigger] dfs(s, pending, visited)[l]).pid,
    decreases mentioned_pids(s).difference(visited).len(), pending.len(),
{
    broadcast use vstd::set::group_set_axioms;

    if pending.len() == 0 {
        assert(dfs(s, pending, visited).len() == 0);
    } else {
        let c = pending.first();
        if visited.contains(c.pid) {
            lemma_dfs_emits_each_pid_once(s, pending.drop_first(), visited);
            let r = dfs(s, pending, visited);
            let r2 = dfs(s, pending.drop_first(), visited);
            assert(r == r2);
            assert forall|k: int| 0 <= k < r.len() implies !visited.contains(
                (#[trigger] r[k]).pid,
            ) by {
                assert(r[k] == r2[k]);
            }
            assert forall|k: int, l: int| 0 <= k < l < r.len() implies (#[trigger] r[k]).pid != (
            #[trigger] r[l]).pid by {
                assert(r[k] == r2[k]);
                assert(r[l] == r2[l]);
            }
        } else {
            lemma_visit_measure(s, visited, c.pid);
            let v2 = visited.insert(c.pid);
            let tail = children_of(s, c.pid) + pending.drop_first();
            lemma_dfs_emits_each_pid_once(s, tail, v2);
            let rest = dfs(s, tail, v2);
            let r = dfs(s, pending, visited);
            assert(r == seq![project(c)] + rest);
            assert forall|k: int| 0 <= k < r.len() implies !visited.contains(
                (#[trigger] r[k]).pid,
            ) by {
                if k > 0 {
                    assert(r[k] == rest[k - 1]);
                    assert(!v2.contains(rest[k - 1].pid));
                }
            }
            assert forall|k: int, l: int| 0 <= k < l < r.len() implies (#[trigger] r[k]).pid != (
            #[trigger] r[l]).pid by {
                assert(r[l] == rest[l - 1]);
                assert(!v2.contains(rest[l - 1].pid));
                if k > 0 {
                    assert(r[k] == rest[k - 1]);
                }
            }
        }
    }
}

#[via_fn]
proof fn dfs_decreases(
    s: Seq<ProcessRecordView>,
    pending: Seq<ProcessRecordView>,
    visited: Set<u32>,
) {
    broadcast use vstd::set::group_set_axioms;

    if pending.len() > 0 {
        let c = pending.first();
        if !visited.contains(c.pid) {
            lemma_visit_measure(s, visited, c.pid);
        }
    }
}

} // verus!
