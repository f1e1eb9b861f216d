use rpstree::entry_pid;
use rpstree::process::ProcessState;
use rpstree::status::{parse_pid, parse_status, split_lines, split_tokens, StatusError};

#[test]
fn parses_status_fields() {
    let text = "Name:\tbash\nUmask:\t0022\nState:\tS (sleeping)\nTgid:\t42\nPid:\t42\nPPid:\t7\nUid:\t0\n";
    let n = parse_status(42, text).unwrap();
    assert_eq!(n.pid, 42);
    assert_eq!(n.ppid, 7);
    assert_eq!(n.name, "bash");
    assert_eq!(n.state, ProcessState::Sleeping);
    assert!(n.children.is_empty());
}

#[test]
fn state_after_ppid_is_read() {
    let n = parse_status(9, "PPid: 1\nName: zz\nState: Z (zombie)").unwrap();
    assert_eq!(n.ppid, 1);
    assert_eq!(n.name, "zz");
    assert_eq!(n.state, ProcessState::Zombie);
}

#[test]
fn state_codes() {
    let cases = [
        ("R", ProcessState::Running),
        ("S", ProcessState::Sleeping),
        ("Z", ProcessState::Zombie),
        ("T", ProcessState::TracingStop),
        ("X", ProcessState::Dead),
        ("I", ProcessState::Idle),
        ("D", ProcessState::Idle),
    ];
    for (code, state) in cases {
        let text = format!("Name: a\nState: {} (x)\nPPid: 0\n", code);
        assert_eq!(parse_status(3, &text).unwrap().state, state);
    }
}

#[test]
fn missing_fields_default() {
    let n = parse_status(5, "Umask: 0022\n").unwrap();
    assert_eq!(n.pid, 5);
    assert_eq!(n.ppid, 0);
    assert_eq!(n.name, "");
    assert_eq!(n.state, ProcessState::Idle);
}

#[test]
fn bad_parent_pid_fails() {
    assert_eq!(parse_status(5, "Name: a\nPPid: x1\n").unwrap_err(), StatusError::BadParentPid);
    assert_eq!(parse_status(5, "PPid: 99999999999\n").unwrap_err(), StatusError::BadParentPid);
}

#[test]
fn lines_and_tokens() {
    let v: Vec<char> = "a b\n\nc\n".chars().collect();
    let lines = split_lines(&v);
    assert_eq!(lines, vec![vec!['a', ' ', 'b'], vec![], vec!['c']]);
    let t: Vec<char> = "  Name:\t  bash x ".chars().collect();
    let toks = split_tokens(&t);
    assert_eq!(toks.len(), 3);
    assert_eq!(toks[1], vec!['b', 'a', 's', 'h']);
}

#[test]
fn pid_text() {
    let p = |s: &str| parse_pid(&s.chars().collect());
    assert_eq!(p("0"), Some(0));
    assert_eq!(p("2147483647"), Some(i32::MAX));
    assert_eq!(p("2147483648"), None);
    assert_eq!(p(""), None);
    assert_eq!(p("12a"), None);
    assert_eq!(entry_pid("1234"), Some(1234));
    assert_eq!(entry_pid("self"), None);
}
