use netiso_srv::cli::{check_arg, parse_args, Invocation};

fn args(list: &[&str]) -> Vec<String> {
    list.iter().map(|s| s.to_string()).collect()
}

#[test]
fn check_arg_removes_the_flag() {
    let mut a = args(&["netiso", "-r", "/iso"]);
    assert!(check_arg(&mut a, "-r"));
    assert_eq!(a, args(&["netiso", "/iso"]));
}

#[test]
fn check_arg_leaves_the_list_when_the_flag_is_absent() {
    let mut a = args(&["netiso", "/iso"]);
    assert!(!check_arg(&mut a, "-r"));
    assert_eq!(a, args(&["netiso", "/iso"]));
    let mut empty: Vec<String> = Vec::new();
    assert!(!check_arg(&mut empty, "-h"));
    assert!(empty.is_empty());
}

#[test]
fn check_arg_removes_only_the_first_occurrence() {
    let mut a = args(&["-r", "x", "-r", "y", "-r"]);
    assert!(check_arg(&mut a, "-r"));
    assert_eq!(a, args(&["x", "-r", "y", "-r"]));
    assert!(check_arg(&mut a, "-r"));
    assert_eq!(a, args(&["x", "y", "-r"]));
    assert!(check_arg(&mut a, "-r"));
    assert_eq!(a, args(&["x", "y"]));
    assert!(!check_arg(&mut a, "-r"));
}

#[test]
fn check_arg_matches_whole_arguments() {
    let mut a = args(&["netiso", "-rr", "r", "-R", " -r"]);
    assert!(!check_arg(&mut a, "-r"));
    assert_eq!(a.len(), 5);
}

#[test]
fn parse_args_serves_a_directory() {
    let mut a = args(&["netiso", "/iso"]);
    assert_eq!(
        parse_args(&mut a),
        Invocation::Serve { directory: "/iso".to_string(), recursive: false }
    );
    assert_eq!(a, args(&["netiso", "/iso"]));
}

#[test]
fn parse_args_takes_the_recursive_flag_anywhere() {
    for list in [["netiso", "-r", "/iso"], ["netiso", "/iso", "-r"], ["-r", "netiso", "/iso"]] {
        let mut a = args(&list);
        assert_eq!(
            parse_args(&mut a),
            Invocation::Serve { directory: "/iso".to_string(), recursive: true }
        );
        assert_eq!(a, args(&["netiso", "/iso"]));
    }
}

#[test]
fn parse_args_help_wins() {
    let mut a = args(&["netiso", "-r", "/iso", "-h"]);
    assert_eq!(parse_args(&mut a), Invocation::Help);
    assert_eq!(a, args(&["netiso", "/iso"]));
    let mut b = args(&["netiso", "-h"]);
    assert_eq!(parse_args(&mut b), Invocation::Help);
    assert_eq!(b, args(&["netiso"]));
}

#[test]
fn parse_args_misses_the_directory() {
    let mut a = args(&["netiso"]);
    assert_eq!(parse_args(&mut a), Invocation::MissingDirectory);
    let mut b = args(&["netiso", "-r"]);
    assert_eq!(parse_args(&mut b), Invocation::MissingDirectory);
    assert_eq!(b, args(&["netiso"]));
    let mut c: Vec<String> = Vec::new();
    assert_eq!(parse_args(&mut c), Invocation::MissingDirectory);
}

#[test]
fn parse_args_ignores_further_arguments() {
    let mut a = args(&["netiso", "/iso", "/other", "-r", "-r"]);
    assert_eq!(
        parse_args(&mut a),
        Invocation::Serve { directory: "/iso".to_string(), recursive: true }
    );
    assert_eq!(a, args(&["netiso", "/iso", "/other", "-r"]));
}
