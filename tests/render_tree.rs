use std::collections::HashMap;

use rpstree::cli::Config;
use rpstree::process::ProcessNode;
use rpstree::render::{decimal, render_tree};
use rpstree::run;
use rpstree::tree::{build_process_tree, TreeError};

fn rec(pid: i32, ppid: i32, name: &str) -> ProcessNode {
    let mut p = ProcessNode::new();
    p.pid = pid;
    p.ppid = ppid;
    p.name = name.to_string();
    p
}

fn sample_tree() -> HashMap<i32, ProcessNode> {
    let mut tree = HashMap::new();
    let mut proc = ProcessNode::new();
    proc.pid = 1;
    proc.ppid = 0;
    proc.name = "systemd".to_string();
    proc.children = vec![2];
    tree.insert(1, proc);

    let mut proc = ProcessNode::new();
    proc.pid = 2;
    proc.name = "bash".to_string();
    proc.ppid = 1;
    proc.children = vec![3, 4];
    tree.insert(2, proc);

    let mut proc = ProcessNode::new();
    proc.pid = 3;
    proc.name = "ls".to_string();
    proc.ppid = 2;
    tree.insert(3, proc);

    let mut proc = ProcessNode::new();
    proc.pid = 4;
    proc.name = "cat".to_string();
    proc.ppid = 2;
    tree.insert(4, proc);
    tree
}

#[test]
fn fmt_test_print_tree() {
    let tree = sample_tree();
    let lines = render_tree(&tree, 1, true, false);
    assert_eq!(lines, vec!["systemd(1)", "  +-bash(2)", "    +-ls(3)", "    +-cat(4)"]);
}

#[test]
fn output_test_print_tree() {
    let tree = sample_tree();
    let lines = render_tree(&tree, 1, false, false);
    assert_eq!(lines, vec!["systemd", "  +-bash", "    +-ls", "    +-cat"]);
}

#[test]
fn bar_marks_siblings_still_to_come() {
    let recs = vec![
        rec(1, 0, "init"),
        rec(2, 1, "a"),
        rec(3, 1, "b"),
        rec(4, 2, "a1"),
        rec(5, 4, "a11"),
    ];
    let t = build_process_tree(recs).unwrap();
    let lines = render_tree(&t, 1, false, false);
    assert_eq!(lines, vec!["init", "  +-a", "  | +-a1", "  |   +-a11", "  +-b"]);
}

#[test]
fn numeric_sort_orders_children() {
    let recs = vec![rec(1, 0, "systemd"), rec(2, 1, "bash"), rec(4, 2, "cat"), rec(3, 2, "ls")];
    let t = build_process_tree(recs).unwrap();
    assert_eq!(t[&2].children, vec![4, 3]);
    assert_eq!(render_tree(&t, 1, false, false), vec!["systemd", "  +-bash", "    +-cat", "    +-ls"]);
    assert_eq!(render_tree(&t, 1, false, true), vec!["systemd", "  +-bash", "    +-ls", "    +-cat"]);
}

#[test]
fn absent_root_draws_nothing() {
    let tree = sample_tree();
    assert!(render_tree(&tree, 42, true, true).is_empty());
    assert!(render_tree(&HashMap::new(), 1, false, false).is_empty());
}

#[test]
fn leaf_draws_one_line() {
    let tree = sample_tree();
    assert_eq!(render_tree(&tree, 3, true, false), vec!["ls(3)"]);
}

#[test]
fn self_parent_cycle_stops() {
    let mut tree = HashMap::new();
    let mut p = rec(1, 1, "loop");
    p.children = vec![1];
    tree.insert(1, p);
    assert_eq!(render_tree(&tree, 1, false, false), vec!["loop"]);
}

#[test]
fn decimal_text() {
    assert_eq!(decimal(0), "0");
    assert_eq!(decimal(7), "7");
    assert_eq!(decimal(1234), "1234");
    assert_eq!(decimal(-56), "-56");
    assert_eq!(decimal(i32::MAX), "2147483647");
    assert_eq!(decimal(i32::MIN), "-2147483648");
}

#[test]
fn run_modes() {
    let recs = || vec![rec(1, 0, "systemd"), rec(2, 1, "bash"), rec(3, 2, "ls"), rec(4, 2, "cat")];
    assert_eq!(run(Config::Normal, recs()).unwrap(), vec!["systemd", "  +-bash", "    +-ls", "    +-cat"]);
    assert_eq!(
        run(Config::ProcessTree { numeric_sort: false, pid_visiblity: true }, recs()).unwrap(),
        vec!["systemd(1)", "  +-bash(2)", "    +-ls(3)", "    +-cat(4)"]
    );
    assert_eq!(run(Config::Version, recs()).unwrap(), vec!["rpstree 0.1.0"]);
    let help = run(Config::Help, recs()).unwrap();
    assert_eq!(help.len(), 8);
    assert_eq!(help[0], "Usage: rpstree [OPTION]");
    assert_eq!(help[2], "");
}

#[test]
fn run_reports_dangling_parent() {
    assert_eq!(
        run(Config::Normal, vec![rec(1, 0, "init"), rec(5, 99, "x")]),
        Err(TreeError::DanglingParent { pid: 5, ppid: 99 })
    );
}
