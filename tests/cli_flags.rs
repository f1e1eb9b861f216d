use rpstree::cli::{ArgumentError, Config};

fn args(list: &[&str]) -> Vec<String> {
    list.iter().map(|s| s.to_string()).collect()
}

#[test]
fn test_config_build_p_n() {
    let args1 = vec!["rpstree".to_string(), "-p".to_string(), "-n".to_string()];
    let config = Config::build(args1).unwrap();
    assert_eq!(
        config,
        Config::ProcessTree {
            numeric_sort: true,
            pid_visiblity: true
        }
    );
    let args2 = vec![
        "rpstree".to_string(),
        "--pid".to_string(),
        "--numeric-sort".to_string(),
    ];
    let config = Config::build(args2).unwrap();
    assert_eq!(
        config,
        Config::ProcessTree {
            numeric_sort: true,
            pid_visiblity: true
        }
    );
}

#[test]
fn test_config_build_h() {
    let a = vec!["rpstree".to_string(), "-h".to_string()];
    let config = Config::build(a).unwrap();
    assert_eq!(config, Config::Help);
    let a = vec!["rpstree".to_string(), "--help".to_string()];
    let config = Config::build(a).unwrap();
    assert_eq!(config, Config::Help);
}

#[test]
fn test_config_build_v() {
    let a = vec!["rpstree".to_string(), "-v".to_string()];
    let config = Config::build(a).unwrap();
    assert_eq!(config, Config::Version);
    let a = vec!["rpstree".to_string(), "--version".to_string()];
    let config = Config::build(a).unwrap();
    assert_eq!(config, Config::Version);
}

#[test]
#[should_panic]
fn test_config_build_h_fail() {
    let a = vec!["rspstree".to_string(), "-h".to_string(), "-p".to_string()];
    let config = Config::build(a).unwrap();
    assert_eq!(config, Config::Version);
}

#[test]
#[should_panic]
fn test_config_build_v_fail() {
    let a = vec!["rspstree".to_string(), "-v".to_string(), "-p".to_string()];
    let config = Config::build(a).unwrap();
    assert_eq!(config, Config::Version);
}

#[test]
fn no_flags_is_normal() {
    assert_eq!(Config::build(args(&["rpstree"])).unwrap(), Config::Normal);
}

#[test]
fn single_flags_and_repeats() {
    assert_eq!(
        Config::build(args(&["rpstree", "-p"])).unwrap(),
        Config::ProcessTree { numeric_sort: false, pid_visiblity: true }
    );
    assert_eq!(
        Config::build(args(&["rpstree", "--numeric-sort"])).unwrap(),
        Config::ProcessTree { numeric_sort: true, pid_visiblity: false }
    );
    assert_eq!(
        Config::build(args(&["rpstree", "-n", "-p", "-n"])).unwrap(),
        Config::build(args(&["rpstree", "-p", "-n"])).unwrap()
    );
    assert_eq!(Config::build(args(&["rpstree", "-h", "--help"])).unwrap(), Config::Help);
}

#[test]
fn same_input_same_outcome() {
    let a = args(&["rpstree", "-p"]);
    assert_eq!(Config::build(a.clone()), Config::build(a));
}

#[test]
fn help_with_other_flag_fails() {
    assert_eq!(
        Config::build(args(&["rpstree", "-p", "-h"])),
        Err(ArgumentError::HelpWithOthers)
    );
    assert_eq!(
        Config::build(args(&["rpstree", "-h", "-v"])),
        Err(ArgumentError::HelpWithOthers)
    );
}

#[test]
fn version_with_other_flag_fails() {
    assert_eq!(
        Config::build(args(&["rpstree", "--version", "--numeric-sort"])),
        Err(ArgumentError::VersionWithOthers)
    );
}

#[test]
fn unknown_flag_is_named() {
    let r = Config::build(args(&["rpstree", "-p", "-x", "--bogus"]));
    assert_eq!(r, Err(ArgumentError::UnknownOption("-x".to_string())));
    assert_eq!(r.unwrap_err().message(), "Unknown option: -x");
    assert_eq!(
        Config::build(args(&["rpstree", "-h", "-p", "pid"])),
        Err(ArgumentError::UnknownOption("pid".to_string()))
    );
}

#[test]
fn empty_command_line_is_normal() {
    assert_eq!(Config::build(Vec::new()).unwrap(), Config::Normal);
}

#[test]
fn conflict_messages() {
    assert_eq!(
        ArgumentError::HelpWithOthers.message(),
        "Help option can't be used with other options"
    );
    assert_eq!(
        ArgumentError::VersionWithOthers.message(),
        "Version option can't be used with other options"
    );
}
