//! Process-tree introspection over a point-in-time snapshot of OS processes.
//!
//! A snapshot is a plain `Vec<ProcessRecord>`; the caller obtains it from the
//! operating system and hands it in. The queries here rebuild, on every call,
//! the lookup structures they need (PID -> record, parent PID -> children) and
//! answer three questions: list every process, find a process's parent, and
//! collect the full descendant subtree of a PID in pre-order. Traversal is
//! guarded against cyclic parent data, so it terminates on any input.

use vstd::prelude::*;

pub mod laws;
pub mod model;

verus! {

use std::collections::HashMap;

use crate::model::{
    children_of, descendants_query, dfs, lemma_dfs_nil, lemma_dfs_step, lemma_lookup_props,
    lemma_visit_measure, list_query, lookup, mentioned_pids, parent_query, project, recs_at,
};

/// The image of an optional result.
pub open spec fn opt_view(o: Option<SingleProcess>) -> Option<SingleProcessView> {
    match o {
        None => None,
        Some(sp) => Some(sp@),
    }
}

/// One process as reported by the operating system: its PID, display name,
/// and the PID of its parent, if the OS reported one.
pub struct ProcessRecord {
    pub pid: u32,
    pub name: String,
    pub parent_pid: Option<u32>,
}

/// Mathematical image of a `ProcessRecord`: the name as a sequence of
/// characters.
pub ghost struct ProcessRecordView {
    pub pid: u32,
    pub name: Seq<char>,
    pub parent_pid: Option<u32>,
}

impl View for ProcessRecord {
    type V = ProcessRecordView;

    open spec fn view(&self) -> ProcessRecordView {
        ProcessRecordView { pid: self.pid, name: self.name@, parent_pid: self.parent_pid }
    }
}

/// A minimal public projection of a process: PID and name only.
pub struct SingleProcess {
    pub pid: u32,
    pub name: String,
}

/// Mathematical image of a `SingleProcess`.
pub ghost struct SingleProcessView {
    pub pid: u32,
    pub name: Seq<char>,
}

impl View for SingleProcess {
    type V = SingleProcessView;

    open spec fn view(&self) -> SingleProcessView {
        SingleProcessView { pid: self.pid, name: self.name@ }
    }
}

/// A process together with its nested children: the tree-shaped
/// counterpart of a flat descendant listing. Part of the public surface;
/// none of the queries here produces it.
pub struct TreeProcess {
    pub pid: u32,
    pub name: String,
    pub parent_pid: u32,
    pub children: Vec<TreeProcess>,
}

/// The image of a whole snapshot.
pub open spec fn view_seq(s: Seq<ProcessRecord>) -> Seq<ProcessRecordView> {
    s.map_values(|r: ProcessRecord| r@)
}

/// The image of a sequence of results.
pub open spec fn single_views(s: Seq<SingleProcess>) -> Seq<SingleProcessView> {
    s.map_values(|r: SingleProcess| r@)
}

/// Builds the PID index: a map from PID to the position of the record
/// carrying it, inserting in snapshot order so that a later record
/// overwrites an earlier one with the same PID.
fn build_pid_index(snapshot: &Vec<ProcessRecord>) -> (m: HashMap<u32, usize>)
    ensures
        forall|p: u32| #[trigger] m@.contains_key(p) <==> lookup(view_seq(snapshot@), p) is Some,
        forall|p: u32| #[trigger] m@.contains_key(p) ==> m@[p] < snapshot@.len() && Some(
            view_seq(snapshot@)[m@[p] as int],
        ) == lookup(view_seq(snapshot@), p),
{
    broadcast use vstd::std_specs::hash::group_hash_axioms;

    let ghost vs = view_seq(snapshot@);
    let mut m: HashMap<u32, usize> = HashMap::new();
    let n = snapshot.len();
    let mut i: usize = 0;
    while i < n
        invariant
            n == snapshot@.len(),
            i <= n,
            vs == view_seq(snapshot@),
            forall|p: u32| #[trigger] m@.contains_key(p) <==> lookup(vs.take(i as int), p)
                is Some,
            forall|p: u32| #[trigger] m@.contains_key(p) ==> m@[p] < i && Some(
                vs[m@[p] as int],
            ) == lookup(vs.take(i as int), p),
        decreases n - i,
    {
        broadcast use vstd::std_specs::hash::group_hash_axioms;

        let pid = snapshot[i].pid;
        m.insert(pid, i);
        proof {
            assert(vs.take(i + 1).drop_last() =~= vs.take(i as int));
            assert(vs.take(i + 1).last() == vs[i as int]);
            assert(vs[i as int].pid == pid);
        }
        i = i + 1;
    }
    proof {
        assert(vs.take(n as int) =~= vs);
    }
    m
}

/// Builds the parent/child index: a map from parent PID to the positions of
/// that parent's direct children, appended in snapshot order. PIDs no record
/// names as its parent get no entry.
fn build_child_index(snapshot: &Vec<ProcessRecord>) -> (m: HashMap<u32, Vec<usize>>)
    ensures
        forall|p: u32| #[trigger] m@.contains_key(p) ==> (forall|j: int|
            0 <= j < m@[p]@.len() ==> #[trigger] m@[p]@[j] < snapshot@.len()) && recs_at(
            view_seq(snapshot@),
            m@[p]@,
        ) == children_of(view_seq(snapshot@), p),
        forall|p: u32| !(#[trigger] m@.contains_key(p)) ==> children_of(view_seq(snapshot@), p)
            == Seq::<ProcessRecordView>::empty(),
{
    broadcast use vstd::std_specs::hash::group_hash_axioms;

    let ghost vs = view_seq(snapshot@);
    let mut m: HashMap<u32, Vec<usize>> = HashMap::new();
    let n = snapshot.len();
    let mut i: usize = 0;
    while i < n
        invariant
            n == snapshot@.len(),
            i <= n,
            vs == view_seq(snapshot@),
            forall|p: u32| #[trigger] m@.contains_key(p) ==> (forall|j: int|
                0 <= j < m@[p]@.len() ==> #[trigger] m@[p]@[j] < i) && recs_at(
                vs,
                m@[p]@,
            ) == children_of(vs.take(i as int), p),
            forall|p: u32| !(#[trigger] m@.contains_key(p)) ==> children_of(vs.take(i as int), p)
                == Seq::<ProcessRecordView>::empty(),
        decreases n - i,
    {
        broadcast use vstd::std_specs::hash::group_hash_axioms;

        proof {
            assert(vs.take(i + 1).drop_last() =~= vs.take(i as int));
            assert(vs.take(i + 1).last() == vs[i as int]);
        }
        match snapshot[i].parent_pid {
            Some(pp) => {
                let ghost old_m = m@;
                let mut lst: Vec<usize> = match m.remove(&pp) {
                    Some(v) => v,
                    None => Vec::new(),
                };
                let ghost old_lst = lst@;
                lst.push(i);
                m.insert(pp, lst);
                proof {
                    assert(vs[i as int].parent_pid == Some(pp));
                    assert(recs_at(vs, old_lst) == children_of(vs.take(i as int), pp));
                    assert(recs_at(vs, old_lst.push(i)) =~= recs_at(vs, old_lst).push(
                        vs[i as int],
                    ));
                    assert(forall|p: u32| p != pp ==> (#[trigger] m@.contains_key(p)
                        <==> old_m.contains_key(p)) && (m@.contains_key(p) ==> m@[p]
                        == old_m[p]));
                }
            },
            None => {
                proof {
                    assert(forall|p: u32| children_of(vs.take(i + 1), p) == children_of(
                        vs.take(i as int),
                        p,
                    ));
                }
            },
        }
        i = i + 1;
    }
    proof {
        assert(vs.take(n as int) =~= vs);
    }
    m
}

pub fn sum(a: i32, b: i32) -> (r: i32)
    requires
        i32::MIN <= a + b <= i32::MAX,
    ensures
        r == a + b,
{
    a + b
}

/// Whether `v` holds `x`.
fn contains_u32(v: &Vec<u32>, x: u32) -> (r: bool)
    ensures
        r == v@.contains(x),
{
    let n = v.len();
    let mut i: usize = 0;
    while i < n
        invariant
            i <= n,
            n == v@.len(),
            forall|k: int| 0 <= k < i ==> v@[k] != x,
        decreases n - i,
    {
        if v[i] == x {
            return true;
        }
        i = i + 1;
    }
    false
}

/// A fresh copy of a vector of positions.
fn copy_indices(v: &Vec<usize>) -> (r: Vec<usize>)
    ensures
        r@ == v@,
{
    let n = v.len();
    let mut r: Vec<usize> = Vec::new();
    let mut i: usize = 0;
    while i < n
        invariant
            i <= n,
            n == v@.len(),
            r@ == v@.take(i as int),
        decreases n - i,
    {
        r.push(v[i]);
        proof {
            assert(v@.take(i as int).push(v@[i as int]) =~= v@.take(i + 1));
        }
        i = i + 1;
    }
    proof {
        assert(v@.take(n as int) =~= v@);
    }
    r
}

/// Lists every process of the snapshot: one `{pid, name}` projection per
/// record, matching it field for field, in snapshot order.
pub fn get_all(snapshot: &Vec<ProcessRecord>) -> (r: Vec<SingleProcess>)
    ensures
        single_views(r@) == list_query(view_seq(snapshot@)),
        r@.len() == snapshot@.len(),
        forall|i: int| 0 <= i < r@.len() ==> r@[i].pid == snapshot@[i].pid && r@[i].name@
            == snapshot@[i].name@,
{
    let n = snapshot.len();
    let mut r: Vec<SingleProcess> = Vec::new();
    let mut i: usize = 0;
    while i < n
        invariant
            i <= n,
            n == snapshot@.len(),
            r@.len() == i,
            forall|k: int| 0 <= k < i ==> #[trigger] r@[k]@ == project(view_seq(snapshot@)[k]),
        decreases n - i,
    {
        r.push(SingleProcess { pid: snapshot[i].pid, name: snapshot[i].name.clone() });
        i = i + 1;
    }
    proof {
        assert(single_views(r@) =~= list_query(view_seq(snapshot@)));
        assert forall|k: int| 0 <= k < r@.len() implies r@[k].pid == snapshot@[k].pid
            && r@[k].name@ == snapshot@[k].name@ by {
            assert(r@[k]@ == project(view_seq(snapshot@)[k]));
        }
    }
    r
}

/// The parent of the process with PID `pid`, as a `{pid, name}` projection.
/// `None` when `pid` is not in the snapshot, when its record names no
/// parent, and when the named parent is not in the snapshot itself; the
/// query never fails.
pub fn get_parent(snapshot: &Vec<ProcessRecord>, pid: u32) -> (r: Option<SingleProcess>)
    ensures
        opt_view(r) == parent_query(view_seq(snapshot@), pid),
{
    broadcast use vstd::std_specs::hash::group_hash_axioms;

    let ghost vs = view_seq(snapshot@);
    let index = build_pid_index(snapshot);
    match index.get(&pid) {
        None => None,
        Some(i) => {
            let i = *i;
            match snapshot[i].parent_pid {
                None => None,
                Some(pp) => match index.get(&pp) {
                    None => None,
                    Some(j) => {
                        let j = *j;
                        Some(SingleProcess { pid: pp, name: snapshot[j].name.clone() })
                    },
                },
            }
        },
    }
}

/// Whether some record of the snapshot carries PID `pid`.
fn has_pid(snapshot: &Vec<ProcessRecord>, pid: u32) -> (r: bool)
    ensures
        r == (lookup(view_seq(snapshot@), pid) is Some),
{
    proof {
        lemma_lookup_props(view_seq(snapshot@), pid);
    }
    let n = snapshot.len();
    let mut i: usize = 0;
    while i < n
        invariant
            i <= n,
            n == snapshot@.len(),
            forall|k: int| 0 <= k < i ==> view_seq(snapshot@)[k].pid != pid,
        decreases n - i,
    {
        if snapshot[i].pid == pid {
            proof {
                assert(view_seq(snapshot@)[i as int].pid == pid);
                lemma_lookup_props(view_seq(snapshot@), pid);
            }
            return true;
        }
        i = i + 1;
    }
    false
}

/// All descendants of the process with PID `pid`: its children, each
/// followed by its own entire subtree before the next sibling (pre-order,
/// children in snapshot order). A PID is never expanded twice, so the walk
/// terminates and emits no duplicates even on cyclic parent data. Empty when
/// no record carries `pid` itself — stale records naming it as their parent
/// notwithstanding — and when it has no children; the query never fails.
pub fn get_all_in_pid_list(snapshot: &Vec<ProcessRecord>, pid: u32) -> (r: Vec<SingleProcess>)
    ensures
        single_views(r@) == descendants_query(view_seq(snapshot@), pid),
{
    broadcast use vstd::std_specs::hash::group_hash_axioms;
    broadcast use vstd::set::group_set_axioms;
    broadcast use vstd::seq_lib::seq_to_set_is_finite;

    let ghost vs = view_seq(snapshot@);
    if !has_pid(snapshot, pid) {
        let empty: Vec<SingleProcess> = Vec::new();
        proof {
            assert(single_views(empty@) =~= descendants_query(vs, pid));
        }
        return empty;
    }
    let index = build_child_index(snapshot);
    let mut result: Vec<SingleProcess> = Vec::new();
    let mut visited: Vec<u32> = Vec::new();
    visited.push(pid);
    let mut stack: Vec<usize> = match index.get(&pid) {
        Some(v) => copy_indices(v),
        None => Vec::new(),
    };
    proof {
        Seq::<u32>::empty().lemma_push_to_set_commute(pid);
        assert(Seq::<u32>::empty().to_set() =~= Set::<u32>::empty());
        assert(visited@.to_set() =~= Set::empty().insert(pid));
        assert(recs_at(vs, stack@) =~= children_of(vs, pid));
        assert(Seq::<SingleProcessView>::empty() + dfs(
            vs,
            recs_at(vs, stack@),
            visited@.to_set(),
        ) =~= descendants_query(vs, pid));
    }
    while stack.len() > 0
        invariant
            vs == view_seq(snapshot@),
            forall|p: u32| #[trigger] index@.contains_key(p) ==> (forall|j: int|
                0 <= j < index@[p]@.len() ==> #[trigger] index@[p]@[j] < snapshot@.len())
                && recs_at(vs, index@[p]@) == children_of(vs, p),
            forall|p: u32| !(#[trigger] index@.contains_key(p)) ==> children_of(vs, p)
                == Seq::<ProcessRecordView>::empty(),
            forall|j: int| 0 <= j < stack@.len() ==> #[trigger] stack@[j] < snapshot@.len(),
            single_views(result@) + dfs(vs, recs_at(vs, stack@), visited@.to_set())
                == descendants_query(vs, pid),
        decreases mentioned_pids(vs).difference(visited@.to_set()).len(), stack@.len(),
    {
        broadcast use vstd::std_specs::hash::group_hash_axioms;
        broadcast use vstd::set::group_set_axioms;
        broadcast use vstd::seq_lib::seq_to_set_is_finite;

        let ghost old_stack = stack@;
        let ghost old_vset = visited@.to_set();
        let ghost pend = recs_at(vs, old_stack);
        let idx = stack.remove(0);
        let rec_pid = snapshot[idx].pid;
        proof {
            assert(pend.first() == vs[idx as int]);
            assert(vs[idx as int].pid == rec_pid);
            assert(recs_at(vs, stack@) =~= pend.drop_first());
            lemma_dfs_step(vs, pend, old_vset);
        }
        if contains_u32(&visited, rec_pid) {
            proof {
                assert(old_vset.contains(rec_pid));
            }
        } else {
            let ghost old_result = result@;
            let ghost old_vseq = visited@;
            result.push(SingleProcess { pid: rec_pid, name: snapshot[idx].name.clone() });
            visited.push(rec_pid);
            proof {
                old_vseq.lemma_push_to_set_commute(rec_pid);
            }
            let mut new_stack: Vec<usize> = match index.get(&rec_pid) {
                Some(v) => copy_indices(v),
                None => Vec::new(),
            };
            proof {
                assert(recs_at(vs, new_stack@) =~= children_of(vs, rec_pid));
            }
            new_stack.append(&mut stack);
            stack = new_stack;
            proof {
                assert(!old_vset.contains(rec_pid));
                assert(visited@.to_set() =~= old_vset.insert(rec_pid));
                assert(recs_at(vs, stack@) =~= children_of(vs, rec_pid) + pend.drop_first());
                assert(single_views(result@) =~= single_views(old_result) + seq![
                    project(pend.first()),
                ]);
                assert(single_views(result@) + dfs(vs, recs_at(vs, stack@), visited@.to_set())
                    =~= single_views(old_result) + (seq![project(pend.first())] + dfs(
                    vs,
                    recs_at(vs, stack@),
                    visited@.to_set(),
                )));
                lemma_visit_measure(vs, old_vset, rec_pid);
            }
        }
    }
    proof {
        assert(recs_at(vs, stack@) =~= Seq::<ProcessRecordView>::empty());
        lemma_dfs_nil(vs, visited@.to_set());
        assert(single_views(result@) + Seq::<SingleProcessView>::empty() =~= single_views(
            result@,
        ));
    }
    result
}

} // verus!
