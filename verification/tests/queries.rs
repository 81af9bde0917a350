use process_tree::{get_all, get_all_in_pid_list, get_parent, sum, ProcessRecord};

fn rec(pid: u32, name: &str, parent_pid: Option<u32>) -> ProcessRecord {
    ProcessRecord { pid, name: name.to_string(), parent_pid }
}

fn example_snapshot() -> Vec<ProcessRecord> {
    vec![
        rec(1, "init", None),
        rec(2, "shell", Some(1)),
        rec(3, "editor", Some(2)),
        rec(4, "compiler", Some(2)),
    ]
}

#[test]
fn sum_adds() {
    assert_eq!(sum(2, 3), 5);
    assert_eq!(sum(-7, 7), 0);
    assert_eq!(sum(i32::MAX, i32::MIN), -1);
}

#[test]
fn list_all_empty_snapshot() {
    let all = get_all(&Vec::new());
    assert!(all.is_empty());
}

#[test]
fn list_all_returns_every_record_in_order() {
    let all = get_all(&example_snapshot());
    assert_eq!(all.len(), 4);
    let expected = [(1, "init"), (2, "shell"), (3, "editor"), (4, "compiler")];
    for (got, (pid, name)) in all.iter().zip(expected.iter()) {
        assert_eq!(got.pid, *pid);
        assert_eq!(got.name, *name);
    }
}

#[test]
fn parent_of_known_process() {
    let p = get_parent(&example_snapshot(), 3).expect("editor has a parent");
    assert_eq!(p.pid, 2);
    assert_eq!(p.name, "shell");
}

#[test]
fn parent_of_unknown_pid_is_none() {
    assert!(get_parent(&example_snapshot(), 42).is_none());
    assert!(get_parent(&Vec::new(), 1).is_none());
}

#[test]
fn parent_of_root_is_none() {
    assert!(get_parent(&example_snapshot(), 1).is_none());
}

#[test]
fn parent_that_exited_is_none() {
    let snapshot = vec![rec(5, "daemon", Some(99)), rec(6, "worker", Some(5))];
    assert!(get_parent(&snapshot, 5).is_none());
}

#[test]
fn descendants_of_example_snapshot() {
    let d = get_all_in_pid_list(&example_snapshot(), 2);
    assert_eq!(d.len(), 2);
    assert_eq!(d[0].pid, 3);
    assert_eq!(d[0].name, "editor");
    assert_eq!(d[1].pid, 4);
    assert_eq!(d[1].name, "compiler");
}

#[test]
fn descendants_of_unknown_pid_is_empty() {
    assert!(get_all_in_pid_list(&example_snapshot(), 42).is_empty());
    assert!(get_all_in_pid_list(&Vec::new(), 1).is_empty());
}

#[test]
fn descendants_of_leaf_is_empty() {
    assert!(get_all_in_pid_list(&example_snapshot(), 4).is_empty());
}

#[test]
fn descendants_of_chain_in_order() {
    let snapshot = vec![
        rec(10, "a", None),
        rec(20, "b", Some(10)),
        rec(30, "c", Some(20)),
        rec(40, "d", Some(30)),
    ];
    let d = get_all_in_pid_list(&snapshot, 10);
    let pids: Vec<u32> = d.iter().map(|p| p.pid).collect();
    assert_eq!(pids, vec![20, 30, 40]);
}

#[test]
fn descendants_of_branching_tree_pre_order() {
    let snapshot = vec![
        rec(1, "a", None),
        rec(2, "b", Some(1)),
        rec(3, "c", Some(1)),
        rec(4, "d", Some(2)),
    ];
    let d = get_all_in_pid_list(&snapshot, 1);
    let pids: Vec<u32> = d.iter().map(|p| p.pid).collect();
    assert_eq!(pids, vec![2, 4, 3]);
}

#[test]
fn descendants_terminate_on_cycle() {
    let snapshot = vec![rec(1, "a", Some(2)), rec(2, "b", Some(1))];
    let d = get_all_in_pid_list(&snapshot, 1);
    assert_eq!(d.len(), 1);
    assert_eq!(d[0].pid, 2);
    assert_eq!(d[0].name, "b");
}

#[test]
fn descendants_ignore_self_parent() {
    let snapshot = vec![rec(7, "loner", Some(7))];
    assert!(get_all_in_pid_list(&snapshot, 7).is_empty());
}

#[test]
fn descendants_follow_snapshot_order_not_pid_order() {
    let snapshot = vec![rec(3, "late", Some(9)), rec(1, "early", Some(9)), rec(9, "root", None)];
    let d = get_all_in_pid_list(&snapshot, 9);
    let pids: Vec<u32> = d.iter().map(|p| p.pid).collect();
    assert_eq!(pids, vec![3, 1]);
}

#[test]
fn descendants_of_absent_pid_with_dangling_references_is_empty() {
    // A record still names PID 99 as its parent, but no record carries 99
    // itself: an absent PID has no descendants to report.
    let snapshot = vec![rec(5, "orphan", Some(99))];
    assert!(get_all_in_pid_list(&snapshot, 99).is_empty());
}
