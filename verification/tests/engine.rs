use pacdef::engine::{diff, next_phase, Phase};
use pacdef::package_map::{NameSet, PackageMap};

fn map_of(names: &[&str]) -> PackageMap<u32> {
    let mut map = PackageMap::new();
    for (i, name) in names.iter().enumerate() {
        map.insert(name.to_string(), i as u32);
    }
    map
}

fn map_keys(map: &PackageMap<u32>) -> Vec<String> {
    (0..map.len()).map(|i| map.key(i).clone()).collect()
}

fn set_names(set: &NameSet) -> Vec<String> {
    (0..set.len()).map(|i| set.name(i).clone()).collect()
}

#[test]
fn diff_installs_what_is_missing_and_removes_what_is_not_desired() {
    let desired = map_of(&["a", "b", "c"]);
    let installed = map_of(&["b", "c", "d", "e"]);
    let actions = diff(desired, &installed);
    assert_eq!(map_keys(&actions.to_install), vec!["a"]);
    assert_eq!(set_names(&actions.to_remove), vec!["d", "e"]);
}

#[test]
fn diff_keeps_the_options_of_what_is_to_install() {
    let desired = map_of(&["x", "y", "z"]);
    let installed = map_of(&["y"]);
    let actions = diff(desired, &installed);
    assert_eq!(actions.to_install.get("x"), Some(&0));
    assert_eq!(actions.to_install.get("z"), Some(&2));
    assert_eq!(actions.to_install.get("y"), None);
}

#[test]
fn action_sets_share_no_name() {
    let desired = map_of(&["a", "b", "c", "d"]);
    let installed = map_of(&["c", "d", "e", "f"]);
    let actions = diff(desired, &installed);
    for name in set_names(&actions.to_remove) {
        assert!(!actions.to_install.contains_key(&name));
    }
}

#[test]
fn diff_of_nothing_with_nothing_is_nothing() {
    let actions = diff(map_of(&[]), &map_of(&[]));
    assert!(actions.to_install.is_empty());
    assert!(actions.to_remove.is_empty());
}

#[test]
fn diff_with_nothing_installed_installs_all() {
    let actions = diff(map_of(&["a", "b"]), &map_of(&[]));
    assert_eq!(map_keys(&actions.to_install), vec!["a", "b"]);
    assert!(actions.to_remove.is_empty());
}

#[test]
fn diff_with_nothing_desired_removes_all() {
    let actions = diff(map_of(&[]), &map_of(&["a", "b"]));
    assert!(actions.to_install.is_empty());
    assert_eq!(set_names(&actions.to_remove), vec!["a", "b"]);
}

#[test]
fn second_reconciliation_finds_nothing_to_do() {
    let desired = ["a", "b", "c"];
    let installed = ["b", "x"];
    let first = diff(map_of(&desired), &map_of(&installed));
    let mut after: Vec<String> = installed.iter().map(|s| s.to_string()).collect();
    after.extend(map_keys(&first.to_install));
    after.retain(|name| !first.to_remove.contains(name));
    let after: Vec<&str> = after.iter().map(|s| s.as_str()).collect();
    let second = diff(map_of(&desired), &map_of(&after));
    assert!(second.to_install.is_empty());
    assert!(second.to_remove.is_empty());
}

#[test]
fn phases_follow_in_their_fixed_order() {
    let order = [
        Phase::Version,
        Phase::Normalize,
        Phase::Query,
        Phase::Diff,
        Phase::Install,
        Phase::Remove,
        Phase::Clean,
        Phase::Done,
    ];
    for pair in order.windows(2) {
        assert_eq!(next_phase(pair[0], true), (pair[1], false));
    }
    assert_eq!(next_phase(Phase::Done, true), (Phase::Done, false));
}

#[test]
fn absent_backend_is_skipped_without_failure() {
    assert_eq!(next_phase(Phase::Version, false), (Phase::Done, false));
}

#[test]
fn failing_step_ends_the_run_of_the_backend() {
    for phase in [Phase::Normalize, Phase::Query, Phase::Diff, Phase::Install, Phase::Remove, Phase::Clean] {
        assert_eq!(next_phase(phase, false), (Phase::Done, true));
    }
    assert_eq!(next_phase(Phase::Done, false), (Phase::Done, false));
}
