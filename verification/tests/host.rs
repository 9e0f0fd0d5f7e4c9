use mdbook_fs_summary::host::{check_args, check_version, warning_for, VersionFault};

fn args(list: &[&str]) -> Vec<String> {
    list.iter().map(|s| s.to_string()).collect()
}

#[test]
fn supports_question_is_answered() {
    assert_eq!(check_args(&args(&["mdbook-fs-summary", "supports", "html"])), Some(true));
    assert_eq!(check_args(&args(&["mdbook-fs-summary", "supports", "not-supported"])), Some(false));
}

#[test]
fn other_arguments_ask_for_a_book() {
    assert_eq!(check_args(&args(&["mdbook-fs-summary"])), None);
    assert_eq!(check_args(&args(&[])), None);
    assert_eq!(check_args(&args(&["mdbook-fs-summary", "supports"])), None);
    assert_eq!(check_args(&args(&["mdbook-fs-summary", "support", "html"])), None);
    assert_eq!(check_args(&args(&["mdbook-fs-summary", "supports", "html", "more"])), None);
}

#[test]
fn matching_version_needs_no_warning() {
    assert_eq!(check_version("0.4.52", "0.4.52"), Ok(None));
    assert_eq!(check_version("0.4.21", "0.4.52"), Ok(None));
    assert_eq!(check_version("1.2.3", "1.9.0"), Ok(None));
}

#[test]
fn other_version_is_worth_a_warning() {
    let expected = "Warning: The fs-summary plugin was built against version 0.4.52 of mdbook, \
                    but we're being called from version 0.5.0";
    assert_eq!(check_version("0.4.52", "0.5.0"), Ok(Some(expected.to_string())));
    assert!(check_version("0.4.52", "0.4.51").unwrap().is_some());
    assert!(check_version("1.2.3", "2.0.0").unwrap().is_some());
}

#[test]
fn unreadable_versions_are_faults() {
    assert_eq!(check_version("0.4.52", "latest"), Err(VersionFault::HostVersion));
    assert_eq!(check_version("0.4.52", ""), Err(VersionFault::HostVersion));
    assert_eq!(check_version("not a requirement", "0.4.52"), Err(VersionFault::BuiltVersion));
    assert_eq!(check_version("?", "?"), Err(VersionFault::HostVersion));
}

#[test]
fn warning_names_both_versions() {
    assert_eq!(warning_for(true, "1.0.0", "2.0.0"), None);
    assert_eq!(
        warning_for(false, "1.0.0", "2.0.0"),
        Some(
            "Warning: The fs-summary plugin was built against version 1.0.0 of mdbook, \
             but we're being called from version 2.0.0"
                .to_string()
        )
    );
}
