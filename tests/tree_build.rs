use rpstree::process::{ProcessNode, ProcessState};
use rpstree::tree::{build_process_tree, TreeError};

fn rec(pid: i32, ppid: i32, name: &str) -> ProcessNode {
    let mut p = ProcessNode::new();
    p.pid = pid;
    p.ppid = ppid;
    p.name = name.to_string();
    p
}

#[test]
fn test_proc_add_child() {
    let mut proc = ProcessNode::new();
    proc.add_child(2);
    proc.add_child(3);
    assert_eq!(proc.children, vec![2, 3]);
}

#[test]
fn new_node_defaults() {
    let p = ProcessNode::new();
    assert_eq!(p.pid, 1);
    assert_eq!(p.ppid, 0);
    assert_eq!(p.name, "");
    assert_eq!(p.state, ProcessState::Idle);
    assert!(p.children.is_empty());
}

#[test]
fn assembles_children_in_order() {
    let recs = vec![rec(1, 0, "systemd"), rec(2, 1, "bash"), rec(3, 2, "ls"), rec(4, 2, "cat")];
    let t = build_process_tree(recs).unwrap();
    assert_eq!(t.len(), 4);
    assert_eq!(t[&1].children, vec![2]);
    assert_eq!(t[&2].children, vec![3, 4]);
    assert!(t[&3].children.is_empty());
    assert!(t[&4].children.is_empty());
    assert_eq!(t[&2].name, "bash");
}

#[test]
fn dangling_parent_fails() {
    let recs = vec![rec(1, 0, "systemd"), rec(5, 99, "orphan")];
    assert_eq!(
        build_process_tree(recs).unwrap_err(),
        TreeError::DanglingParent { pid: 5, ppid: 99 }
    );
}

#[test]
fn empty_record_set_gives_empty_tree() {
    assert!(build_process_tree(Vec::new()).unwrap().is_empty());
}
