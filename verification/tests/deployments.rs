use pacman_ostree::deployments::{
    base_ref_of_origin, commit_prefix, detect_base_ref, get_booted_deployment,
    get_deployment_index, list_deployments, parse_deployment_line,
};
use pacman_ostree::error::ErrorKind;

const STATUS: &str = "* archlinux 1a2b3c4d5e6f.0\n    origin refspec: archlinux/x86_64/base\n  archlinux 0f0f0f0f0f0f.1 (rollback)\n";

#[test]
fn test_parse_deployment_line() {
    let line = "* archlinux 1a2b3c4d.0";
    let info = parse_deployment_line(line, 0).unwrap();

    assert_eq!(info.osname, "archlinux");
    assert!(info.is_booted);
    assert!(!info.is_staged);
}

#[test]
fn a_line_gives_name_commit_and_markers() {
    let d = parse_deployment_line("  + archlinux abcdef01.1  ", 3).unwrap();
    assert_eq!(d.index, 3);
    assert_eq!(d.osname, "archlinux");
    assert_eq!(d.commit, "abcdef01.1");
    assert!(!d.is_booted);
    assert!(d.is_staged);

    let d = parse_deployment_line("archlinux abcdef01.1 (rollback)", 7).unwrap();
    assert_eq!((d.index, d.osname.as_str(), d.commit.as_str()), (7, "archlinux", "abcdef01.1"));
    assert!(!d.is_booted && !d.is_staged);

    let d = parse_deployment_line("**+ a b", 0).unwrap();
    assert_eq!((d.osname.as_str(), d.commit.as_str()), ("a", "b"));
    assert!(d.is_booted && !d.is_staged);
}

#[test]
fn a_line_with_less_than_two_words_is_no_deployment() {
    assert!(parse_deployment_line("", 0).is_none());
    assert!(parse_deployment_line("   ", 0).is_none());
    assert!(parse_deployment_line("* archlinux", 0).is_none());
    assert!(parse_deployment_line("*", 0).is_none());
    assert!(parse_deployment_line("+*", 0).is_none());
}

#[test]
fn deployments_are_numbered_by_their_lines() {
    let ds = list_deployments(STATUS);
    assert_eq!(ds.len(), 3);
    assert_eq!((ds[0].index, ds[0].osname.as_str(), ds[0].commit.as_str()), (0, "archlinux", "1a2b3c4d5e6f.0"));
    assert!(ds[0].is_booted);
    assert_eq!((ds[1].index, ds[1].osname.as_str(), ds[1].commit.as_str()), (1, "origin", "refspec:"));
    assert_eq!((ds[2].index, ds[2].osname.as_str(), ds[2].commit.as_str()), (2, "archlinux", "0f0f0f0f0f0f.1"));
    assert!(!ds[2].is_booted);
    assert!(list_deployments("").is_empty());
    assert!(list_deployments("\n\nword\n").is_empty());
    let ds = list_deployments("\n\n* a b\n");
    assert_eq!(ds.len(), 1);
    assert_eq!(ds[0].index, 2);
}

#[test]
fn the_booted_deployment_is_the_first_that_is_marked() {
    let d = get_booted_deployment(STATUS).unwrap();
    assert_eq!(d.osname, "archlinux");
    assert_eq!(d.commit, "1a2b3c4d5e6f.0");
    assert_eq!(d.index, 0);
    let d = get_booted_deployment("  a b\n* c d\n* e f\n").unwrap();
    assert_eq!((d.index, d.osname.as_str()), (1, "c"));
}

#[test]
fn no_booted_deployment_is_an_error() {
    let e = get_booted_deployment("  archlinux abc.0\n+ archlinux def.1\n").unwrap_err();
    assert_eq!(e.kind, ErrorKind::StoreUnavailable);
    assert_eq!(e.message, "No booted deployment found");
    assert!(get_booted_deployment("").is_err());
}

#[test]
fn the_index_of_a_deployment_is_its_line() {
    let commit = "0f0f0f0f0f0f0f0f0f0f0f0f0f0f0f0f0f0f0f0f0f0f0f0f0f0f0f0f0f0f0f0f";
    assert_eq!(get_deployment_index(STATUS, "archlinux", commit), 2);
    let commit = "1a2b3c4d5e6f0000000000000000000000000000000000000000000000000000";
    assert_eq!(get_deployment_index(STATUS, "archlinux", commit), 0);
    // No line names the deployment: the index is 0.
    assert_eq!(get_deployment_index(STATUS, "fedora", commit), 0);
    assert_eq!(get_deployment_index(STATUS, "archlinux", "ffffffffffff"), 0);
    assert_eq!(get_deployment_index("", "archlinux", commit), 0);
}

#[test]
fn the_short_commit_has_eight_characters() {
    assert_eq!(commit_prefix("1a2b3c4d5e6f"), "1a2b3c4d");
    assert_eq!(commit_prefix("1a2b3c4d"), "1a2b3c4d");
    assert_eq!(commit_prefix("1a2b"), "1a2b");
    assert_eq!(commit_prefix(""), "");
}

#[test]
fn the_origin_names_the_base() {
    let origin = "[origin]\nrefspec=archlinux/x86_64/base\n";
    assert_eq!(base_ref_of_origin(origin), Some("archlinux/x86_64/base".to_string()));
    let origin = "[origin]\nrefspec=remote:archlinux/x86_64/base\nrefspec=other\n";
    assert_eq!(base_ref_of_origin(origin), Some("archlinux/x86_64/base".to_string()));
    assert_eq!(base_ref_of_origin("refspec="), Some("".to_string()));
    assert_eq!(base_ref_of_origin("refspec=a:b:c"), Some("c".to_string()));
    assert_eq!(base_ref_of_origin("[origin]\n refspec=x\n"), None);
    assert_eq!(base_ref_of_origin(""), None);
}

#[test]
fn the_base_is_that_of_the_first_origin_that_names_one() {
    let origins = vec![
        "[origin]\n".to_string(),
        "refspec=first/base\n".to_string(),
        "refspec=second/base\n".to_string(),
    ];
    assert_eq!(detect_base_ref(&origins).unwrap(), "first/base");
    let e = detect_base_ref(&vec!["[origin]\n".to_string()]).unwrap_err();
    assert_eq!(e.kind, ErrorKind::Configuration);
    assert!(e.message.starts_with("Could not detect base ref from system."));
    assert!(detect_base_ref(&Vec::new()).is_err());
}
