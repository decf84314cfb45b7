//! Tests for the synchronization engine: listing parse, delta computation,
//! and the apply state machine under both failure policies.

use nixman::sync::{apply_with_results, compute_delta, Action, ApplyEngine};
use nixman::versioning::FullVersion;
use nixman::{parse_explicit_packages, Package, PackageList};

fn strings(names: &[&str]) -> Vec<String> {
    names.iter().map(|n| n.to_string()).collect()
}

fn list(names: &[&str]) -> PackageList {
    PackageList {
        packages: names
            .iter()
            .map(|n| Package { name: n.to_string(), version: None })
            .collect(),
    }
}

fn sorted(mut v: Vec<String>) -> Vec<String> {
    v.sort();
    v
}

#[test]
fn listing_parse_versioned() {
    let l = parse_explicit_packages("foo 1.0.0-1\nbar", true);
    assert_eq!(l.packages.len(), 2);
    assert_eq!(l.packages[0].name, "foo");
    assert_eq!(l.packages[0].version, Some(FullVersion::from("1.0.0-1")));
    assert_eq!(l.packages[1].name, "bar");
    assert_eq!(l.packages[1].version, None);
}

#[test]
fn listing_parse_unversioned() {
    let l = parse_explicit_packages("foo 1.0.0-1\nbar", false);
    assert_eq!(l.packages.len(), 2);
    assert_eq!(l.packages[0].name, "foo");
    assert_eq!(l.packages[0].version, None);
    assert_eq!(l.packages[1].name, "bar");
    assert_eq!(l.packages[1].version, None);
}

#[test]
fn listing_parse_edge_lines() {
    // a blank line degrades to an empty name; \r\n endings are handled
    let l = parse_explicit_packages("foo\n\nbar 2.0-1\r\n", true);
    assert_eq!(l.packages.len(), 3);
    assert_eq!(l.packages[0].name, "foo");
    assert_eq!(l.packages[1].name, "");
    assert_eq!(l.packages[1].version, None);
    assert_eq!(l.packages[2].name, "bar");
    assert_eq!(l.packages[2].version, Some(FullVersion::from("2.0-1")));
    assert_eq!(parse_explicit_packages("", true).packages.len(), 0);
}

#[test]
fn delta_basic() {
    let desired = list(&["a", "b", "c"]);
    let installed = strings(&["b", "c", "d"]);
    let (to_install, to_remove) = compute_delta(&desired, &installed);
    assert_eq!(to_install, strings(&["a"]));
    assert_eq!(to_remove, strings(&["d"]));
}

#[test]
fn delta_equal_sets_is_empty() {
    let desired = list(&["a", "b"]);
    let installed = strings(&["b", "a"]);
    let (to_install, to_remove) = compute_delta(&desired, &installed);
    assert!(to_install.is_empty());
    assert!(to_remove.is_empty());
}

#[test]
fn delta_deduplicates() {
    let desired = list(&["a", "a", "b"]);
    let installed = strings(&["c", "c"]);
    let (to_install, to_remove) = compute_delta(&desired, &installed);
    assert_eq!(sorted(to_install), strings(&["a", "b"]));
    assert_eq!(to_remove, strings(&["c"]));
}

#[test]
fn second_apply_is_noop() {
    // apply the delta by hand, then recompute from the new installed state
    let desired = list(&["a", "b", "c"]);
    let installed = strings(&["b", "c", "d"]);
    let (to_install, to_remove) = compute_delta(&desired, &installed);
    let mut now: Vec<String> = installed
        .into_iter()
        .filter(|n| !to_remove.contains(n))
        .collect();
    now.extend(to_install);
    let (second_install, second_remove) = compute_delta(&desired, &now);
    assert!(second_install.is_empty());
    assert!(second_remove.is_empty());
}

#[test]
fn fail_fast_remove_failure_blocks_install_phase() {
    let mut e = ApplyEngine::new(strings(&["x", "y"]), strings(&["z"]), false);
    match e.next_action() {
        Some(Action::Remove(names)) => assert_eq!(names, strings(&["x", "y"])),
        other => panic!("expected the remove batch, got {:?}", other),
    }
    e.record(false);
    // the install phase is never attempted
    assert!(e.next_action().is_none());
    assert_eq!(e.outcome(), Err("Failed to remove some packages".to_string()));
}

#[test]
fn fail_fast_both_phases_succeed() {
    let mut e = ApplyEngine::new(strings(&["x"]), strings(&["z"]), false);
    match e.next_action() {
        Some(Action::Remove(names)) => assert_eq!(names, strings(&["x"])),
        other => panic!("expected the remove batch, got {:?}", other),
    }
    e.record(true);
    match e.next_action() {
        Some(Action::Install(names)) => assert_eq!(names, strings(&["z"])),
        other => panic!("expected the install batch, got {:?}", other),
    }
    e.record(true);
    assert!(e.next_action().is_none());
    assert_eq!(e.outcome(), Ok(()));
}

#[test]
fn fail_fast_install_failure() {
    let mut e = ApplyEngine::new(strings(&[]), strings(&["z"]), false);
    match e.next_action() {
        Some(Action::Install(names)) => assert_eq!(names, strings(&["z"])),
        other => panic!("expected the install batch, got {:?}", other),
    }
    e.record(false);
    assert!(e.next_action().is_none());
    assert_eq!(e.outcome(), Err("Failed to install some packages".to_string()));
}

#[test]
fn continue_on_error_finishes_all_phases() {
    // removing x fails, removing y succeeds, and the install phase still runs
    let mut e = ApplyEngine::new(strings(&["x", "y"]), strings(&["z"]), true);
    match e.next_action() {
        Some(Action::Remove(names)) => assert_eq!(names, strings(&["x"])),
        other => panic!("expected the removal of x, got {:?}", other),
    }
    e.record(false);
    match e.next_action() {
        Some(Action::Remove(names)) => assert_eq!(names, strings(&["y"])),
        other => panic!("expected the removal of y, got {:?}", other),
    }
    e.record(true);
    match e.next_action() {
        Some(Action::Install(names)) => assert_eq!(names, strings(&["z"])),
        other => panic!("expected the install of z, got {:?}", other),
    }
    e.record(true);
    assert!(e.next_action().is_none());
    assert_eq!(e.outcome(), Err("Failed to remove packages: x\n".to_string()));
}

#[test]
fn continue_on_error_aggregates_both_categories() {
    let mut e = ApplyEngine::new(strings(&["x", "y"]), strings(&["z", "w"]), true);
    e.next_action().unwrap();
    e.record(false); // x fails
    e.next_action().unwrap();
    e.record(false); // y fails
    e.next_action().unwrap();
    e.record(true); // z installs
    e.next_action().unwrap();
    e.record(false); // w fails
    assert!(e.next_action().is_none());
    assert_eq!(
        e.outcome(),
        Err("Failed to remove packages: x, y\nFailed to install packages: w\n".to_string())
    );
}

#[test]
fn apply_with_results_fail_fast() {
    // the remove batch fails; the one result answers it and the install
    // batch is never consulted
    let r = apply_with_results(strings(&["x", "y"]), strings(&["z"]), false, &vec![false, true]);
    assert_eq!(r, Err("Failed to remove some packages".to_string()));
    let r = apply_with_results(strings(&["x", "y"]), strings(&["z"]), false, &vec![true, false]);
    assert_eq!(r, Err("Failed to install some packages".to_string()));
    let r = apply_with_results(strings(&["x", "y"]), strings(&["z"]), false, &vec![true, true]);
    assert_eq!(r, Ok(()));
}

#[test]
fn apply_with_results_continue_on_error() {
    let r = apply_with_results(
        strings(&["x", "y"]),
        strings(&["z"]),
        true,
        &vec![false, true, true],
    );
    assert_eq!(r, Err("Failed to remove packages: x\n".to_string()));
    let r = apply_with_results(
        strings(&["x", "y"]),
        strings(&["z"]),
        true,
        &vec![false, true, false],
    );
    assert_eq!(
        r,
        Err("Failed to remove packages: x\nFailed to install packages: z\n".to_string())
    );
    let r = apply_with_results(strings(&["x", "y"]), strings(&["z"]), true, &vec![true, true, true]);
    assert_eq!(r, Ok(()));
}

#[test]
fn no_delta_means_no_actions() {
    let e = ApplyEngine::new(strings(&[]), strings(&[]), false);
    assert!(e.next_action().is_none());
    assert_eq!(e.outcome(), Ok(()));
}

#[test]
fn package_from_line() {
    assert_eq!(
        Package::from("htop 1.0.0-1"),
        Package { name: "htop".to_string(), version: Some(FullVersion::from("1.0.0-1")) }
    );
    assert_eq!(Package::from("htop"), Package { name: "htop".to_string(), version: None });
    assert_eq!(Package::from("htop "), Package { name: "htop".to_string(), version: None });
}
