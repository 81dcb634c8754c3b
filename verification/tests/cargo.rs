use pacdef::cargo::{
    entry, extract_packages, feature_list, git_source, packages_from_ledger, split_key, Cargo,
    CargoInstallOptions, CargoQueryInfo, LedgerError,
};
use pacdef::json::{find_member, parse, Json};
use pacdef::package_map::{NameSet, PackageMap};
use pacdef::process::Perms;

fn strings(items: &[&str]) -> Vec<String> {
    items.iter().map(|s| s.to_string()).collect()
}

fn infos(map: &PackageMap<CargoQueryInfo>) -> Vec<(String, &CargoQueryInfo)> {
    (0..map.len()).map(|i| (map.key(i).clone(), map.value(i))).collect()
}

fn fields(all: bool, no_default: bool, features: &[&str]) -> Json {
    Json::Object(vec![
        ("all_features".to_string(), Json::Bool(all)),
        ("no_default_features".to_string(), Json::Bool(no_default)),
        ("features".to_string(), Json::Array(features.iter().map(|f| Json::Text(f.to_string())).collect())),
    ])
}

fn ledger(entries: Vec<(&str, Json)>) -> Json {
    Json::Object(vec![(
        "installs".to_string(),
        Json::Object(entries.into_iter().map(|(k, v)| (k.to_string(), v)).collect()),
    )])
}

#[test]
fn ledger_entry_from_git_is_read() {
    let text = r#"{"installs": {"foo 1.2.3 (git+https://example.com/foo#abcdef)": {
        "version_req": null, "bins": ["foo"], "features": ["x"], "all_features": false,
        "no_default_features": false, "profile": "release", "target": "x86_64-unknown-linux-gnu",
        "rustc": "rustc 1.70.0"}}}"#;
    let packages = extract_packages(text).unwrap();
    assert_eq!(packages.len(), 1);
    assert_eq!(packages.key(0), "foo");
    assert_eq!(
        packages.value(0),
        &CargoQueryInfo {
            version: "1.2.3".to_string(),
            git: Some("https://example.com/foo".to_string()),
            all_features: false,
            no_default_features: false,
            features: strings(&["x"]),
        }
    );
}

#[test]
fn ledger_entry_from_the_registry_has_no_git_pin() {
    let text = r#"{"installs":{"ripgrep 13.0.0 (registry+https://github.com/rust-lang/crates.io-index)":
        {"all_features":true,"no_default_features":true,"features":[]}},"v":1}"#;
    let packages = extract_packages(text).unwrap();
    assert_eq!(
        infos(&packages),
        vec![(
            "ripgrep".to_string(),
            &CargoQueryInfo {
                version: "13.0.0".to_string(),
                git: None,
                all_features: true,
                no_default_features: true,
                features: vec![],
            }
        )]
    );
}

#[test]
fn ledger_without_entries_is_empty() {
    assert!(extract_packages(r#"{"installs": {}}"#).unwrap().is_empty());
}

#[test]
fn ledger_that_is_no_json_is_a_syntax_error() {
    assert_eq!(extract_packages("").unwrap_err(), LedgerError::Syntax);
    assert_eq!(extract_packages("{\"installs\": ").unwrap_err(), LedgerError::Syntax);
    assert_eq!(extract_packages("not json").unwrap_err(), LedgerError::Syntax);
}

#[test]
fn ledger_without_installs_is_refused() {
    assert_eq!(extract_packages("{}").unwrap_err(), LedgerError::MissingInstalls);
    assert_eq!(extract_packages("[]").unwrap_err(), LedgerError::MissingInstalls);
    assert_eq!(extract_packages("null").unwrap_err(), LedgerError::MissingInstalls);
    assert_eq!(extract_packages(r#"{"v": 1}"#).unwrap_err(), LedgerError::MissingInstalls);
}

#[test]
fn installs_that_is_no_object_is_refused() {
    assert_eq!(extract_packages(r#"{"installs": []}"#).unwrap_err(), LedgerError::InstallsNotObject);
    assert_eq!(extract_packages(r#"{"installs": null}"#).unwrap_err(), LedgerError::InstallsNotObject);
    assert_eq!(extract_packages(r#"{"installs": 3}"#).unwrap_err(), LedgerError::InstallsNotObject);
}

#[test]
fn entry_that_is_no_object_is_refused() {
    let text = r#"{"installs": {"a 1 (x)": {"all_features":false,"no_default_features":false,"features":[]},
        "b 1 (x)": "oops"}}"#;
    assert_eq!(extract_packages(text).unwrap_err(), LedgerError::NotAnObject(1));
}

#[test]
fn key_without_two_spaces_is_refused() {
    let good = fields(false, false, &[]);
    assert_eq!(entry("foo", &good, 4).unwrap_err(), LedgerError::MalformedKey(4));
    assert_eq!(entry("foo 1.0", &good, 5).unwrap_err(), LedgerError::MalformedKey(5));
    assert_eq!(entry("", &good, 6).unwrap_err(), LedgerError::MalformedKey(6));
}

#[test]
fn missing_fields_are_refused_each_under_its_name() {
    let no_all = Json::Object(vec![
        ("no_default_features".to_string(), Json::Bool(false)),
        ("features".to_string(), Json::Array(vec![])),
    ]);
    assert_eq!(entry("a 1 (x)", &no_all, 0).unwrap_err(), LedgerError::AllFeatures(0));
    let all_not_bool = Json::Object(vec![("all_features".to_string(), Json::Text("no".to_string()))]);
    assert_eq!(entry("a 1 (x)", &all_not_bool, 1).unwrap_err(), LedgerError::AllFeatures(1));
    let no_default = Json::Object(vec![
        ("all_features".to_string(), Json::Bool(false)),
        ("features".to_string(), Json::Array(vec![])),
    ]);
    assert_eq!(entry("a 1 (x)", &no_default, 2).unwrap_err(), LedgerError::NoDefaultFeatures(2));
    let no_features = Json::Object(vec![
        ("all_features".to_string(), Json::Bool(false)),
        ("no_default_features".to_string(), Json::Bool(false)),
    ]);
    assert_eq!(entry("a 1 (x)", &no_features, 3).unwrap_err(), LedgerError::Features(3));
    let features_not_strings = Json::Object(vec![
        ("all_features".to_string(), Json::Bool(false)),
        ("no_default_features".to_string(), Json::Bool(false)),
        ("features".to_string(), Json::Array(vec![Json::Text("x".to_string()), Json::Null])),
    ]);
    assert_eq!(entry("a 1 (x)", &features_not_strings, 7).unwrap_err(), LedgerError::Features(7));
    let features_not_array = Json::Object(vec![
        ("all_features".to_string(), Json::Bool(false)),
        ("no_default_features".to_string(), Json::Bool(false)),
        ("features".to_string(), Json::Text("x".to_string())),
    ]);
    assert_eq!(entry("a 1 (x)", &features_not_array, 8).unwrap_err(), LedgerError::Features(8));
}

#[test]
fn first_entry_at_fault_decides() {
    let json = ledger(vec![
        ("a 1 (x)", fields(false, false, &[])),
        ("b", fields(false, false, &[])),
        ("c 1 (x)", Json::Null),
    ]);
    assert_eq!(packages_from_ledger(&json).unwrap_err(), LedgerError::MalformedKey(1));
}

#[test]
fn later_entry_for_a_name_replaces_the_earlier() {
    let json = ledger(vec![
        ("a 1.0 (x)", fields(false, false, &["old"])),
        ("b 1.0 (x)", fields(false, false, &[])),
        ("a 2.0 (y)", fields(true, false, &["new"])),
    ]);
    let packages = packages_from_ledger(&json).unwrap();
    assert_eq!(packages.len(), 2);
    assert_eq!(packages.get("a").unwrap().version, "2.0");
    assert_eq!(packages.get("a").unwrap().features, strings(&["new"]));
    assert!(packages.get("a").unwrap().all_features);
    assert_eq!(packages.get("b").unwrap().version, "1.0");
}

#[test]
fn key_splits_at_its_first_two_spaces() {
    assert_eq!(
        split_key("foo 1.2.3 (registry+https://x y)"),
        Some(("foo".to_string(), "1.2.3".to_string(), "(registry+https://x y)".to_string()))
    );
    assert_eq!(split_key("a  b"), Some(("a".to_string(), "".to_string(), "b".to_string())));
    assert_eq!(split_key(" 1 "), Some(("".to_string(), "1".to_string(), "".to_string())));
    assert_eq!(split_key("a b"), None);
    assert_eq!(split_key("ab"), None);
}

#[test]
fn git_pin_is_what_stands_between_marker_and_fragment() {
    assert_eq!(git_source("(git+https://example.com/foo#abcdef)"), Some("https://example.com/foo".to_string()));
    assert_eq!(git_source("(git+https://example.com/foo)"), Some("https://example.com/foo)".to_string()));
    assert_eq!(git_source("(git+https://e.com/a?branch=x+y#1)"), Some("https://e.com/a?branch=x+y".to_string()));
    assert_eq!(git_source("(git+https://example.com/a+b#abc)"), Some("https://example.com/a+b".to_string()));
    assert_eq!(git_source("(git+https://example.com/a#b#c)"), Some("https://example.com/a".to_string()));
    assert_eq!(git_source("(git+)"), Some(")".to_string()));
    assert_eq!(git_source("(git+"), Some("".to_string()));
    assert_eq!(git_source("(registry+https://github.com/rust-lang/crates.io-index)"), None);
    assert_eq!(git_source("(path+file:///home/x)"), None);
    assert_eq!(git_source("(git"), None);
    assert_eq!(git_source(""), None);
    assert_eq!(git_source("git+https://x"), None);
}

#[test]
fn feature_list_wants_strings_only() {
    assert_eq!(feature_list(&vec![]), Some(vec![]));
    assert_eq!(
        feature_list(&vec![Json::Text("a".to_string()), Json::Text("b".to_string())]),
        Some(strings(&["a", "b"]))
    );
    assert_eq!(feature_list(&vec![Json::Text("a".to_string()), Json::Bool(true)]), None);
    assert_eq!(feature_list(&vec![Json::Null, Json::Text("a".to_string())]), None);
}

#[test]
fn parser_hands_out_every_kind_of_value() {
    let json = parse(r#"{"n": null, "b": true, "i": 12, "s": "text", "a": [1, "x"], "o": {"k": false}}"#).unwrap();
    let members = match &json {
        Json::Object(members) => members,
        _ => panic!("an object was read"),
    };
    assert!(matches!(find_member(members, "n"), Some(Json::Null)));
    assert!(matches!(find_member(members, "b"), Some(Json::Bool(true))));
    assert!(matches!(find_member(members, "i"), Some(Json::Number(n)) if n == "12"));
    assert!(matches!(find_member(members, "s"), Some(Json::Text(s)) if s == "text"));
    match find_member(members, "a") {
        Some(Json::Array(items)) => {
            assert_eq!(items.len(), 2);
            assert!(matches!(&items[0], Json::Number(n) if n == "1"));
            assert!(matches!(&items[1], Json::Text(s) if s == "x"));
        }
        _ => panic!("an array was read"),
    }
    assert!(matches!(find_member(members, "o"), Some(Json::Object(inner)) if inner.len() == 1));
    assert!(find_member(members, "missing").is_none());
}

#[test]
fn parser_refuses_what_is_no_document() {
    assert!(parse("").is_none());
    assert!(parse("{").is_none());
    assert!(parse("{} x").is_none());
    assert!(parse("'a'").is_none());
}

#[test]
fn cargo_desired_packages_are_normal_as_they_are() {
    let mut packages = PackageMap::new();
    packages.insert("ripgrep".to_string(), CargoInstallOptions::default());
    let normal = Cargo::map_managed_packages(packages);
    assert_eq!(normal.len(), 1);
    assert_eq!(normal.key(0), "ripgrep");
}

#[test]
fn cargo_query_without_cargo_or_ledger_is_empty() {
    assert!(Cargo::query_installed_packages(false, Some("garbage")).unwrap().is_empty());
    assert!(Cargo::query_installed_packages(false, None).unwrap().is_empty());
    assert!(Cargo::query_installed_packages(true, None).unwrap().is_empty());
}

#[test]
fn cargo_query_reads_the_ledger() {
    let text = r#"{"installs":{"b 1 (x)":{"all_features":false,"no_default_features":false,"features":[]},
        "a 2 (y)":{"all_features":false,"no_default_features":false,"features":[]}}}"#;
    let packages = Cargo::query_installed_packages(true, Some(text)).unwrap();
    let names: Vec<String> = (0..packages.len()).map(|i| packages.key(i).clone()).collect();
    assert_eq!(names, vec!["a", "b"]);
    assert_eq!(Cargo::query_installed_packages(true, Some("{")).unwrap_err(), LedgerError::Syntax);
}

#[test]
fn cargo_installs_one_package_with_each_invocation() {
    let mut packages = PackageMap::new();
    packages.insert(
        "tool".to_string(),
        CargoInstallOptions {
            git: Some("https://example.com/tool".to_string()),
            all_features: true,
            no_default_features: true,
            features: strings(&["a", "b"]),
        },
    );
    packages.insert("plain".to_string(), CargoInstallOptions::default());
    packages.insert(
        "some".to_string(),
        CargoInstallOptions { git: None, all_features: false, no_default_features: true, features: strings(&["f"]) },
    );
    let plan = Cargo::install_packages(&packages);
    let args: Vec<Vec<String>> = plan.iter().map(|c| c.args.clone()).collect();
    assert_eq!(
        args,
        vec![
            strings(&["cargo", "install", "plain"]),
            strings(&["cargo", "install", "--no-default-features", "--features", "f", "some"]),
            strings(&[
                "cargo",
                "install",
                "--git",
                "https://example.com/tool",
                "--all-features",
                "--no-default-features",
                "--features",
                "a",
                "b",
                "tool"
            ]),
        ]
    );
    assert!(plan.iter().all(|c| c.perms == Perms::Same));
}

#[test]
fn cargo_install_of_nothing_invokes_nothing() {
    let packages: PackageMap<CargoInstallOptions> = PackageMap::new();
    assert!(Cargo::install_packages(&packages).is_empty());
}

#[test]
fn cargo_uninstalls_all_with_one_invocation() {
    let names = NameSet::from_names(&strings(&["ripgrep", "bat"]));
    let command = Cargo::remove_packages(&names).unwrap();
    assert_eq!(command.args, strings(&["cargo", "uninstall", "bat", "ripgrep"]));
    assert_eq!(command.perms, Perms::Same);
    assert!(Cargo::remove_packages(&NameSet::new()).is_none());
}

#[test]
fn cargo_cleans_the_cache_only_with_the_helper() {
    assert_eq!(Cargo::cache_probe().args, strings(&["cargo-cache", "-V"]));
    assert!(Cargo::clean_cache(false).is_none());
    let command = Cargo::clean_cache(true).unwrap();
    assert_eq!(command.args, strings(&["cargo", "cache", "-a"]));
    assert_eq!(command.perms, Perms::Same);
}

#[test]
fn cargo_version_is_asked_of_cargo() {
    let command = Cargo::version();
    assert_eq!(command.args, strings(&["cargo", "--version"]));
    assert_eq!(command.perms, Perms::Same);
}

#[test]
fn cargo_options_default_to_nothing_special() {
    assert_eq!(
        CargoInstallOptions::default(),
        CargoInstallOptions { git: None, all_features: false, no_default_features: false, features: vec![] }
    );
}

#[test]
fn no_invocation_follows_one_that_failed() {
    let mut packages = PackageMap::new();
    packages.insert("a".to_string(), CargoInstallOptions::default());
    packages.insert("b".to_string(), CargoInstallOptions::default());
    let plan = Cargo::install_packages(&packages);
    assert_eq!(pacdef::process::next_command(&plan, 0, true).unwrap().args, strings(&["cargo", "install", "a"]));
    assert_eq!(pacdef::process::next_command(&plan, 1, true).unwrap().args, strings(&["cargo", "install", "b"]));
    assert!(pacdef::process::next_command(&plan, 1, false).is_none());
    assert!(pacdef::process::next_command(&plan, 2, true).is_none());
    assert!(pacdef::process::next_command(&plan, 7, true).is_none());
}

#[test]
fn git_pin_may_hold_a_plus() {
    let text = r#"{"installs":{"foo 0.1.0 (git+https://example.com/a+b#abc)":{"all_features":false,"no_default_features":false,"features":[]}}}"#;
    let packages = extract_packages(text).unwrap();
    assert_eq!(packages.get("foo").unwrap().git, Some("https://example.com/a+b".to_string()));
    assert_eq!(packages.get("foo").unwrap().version, "0.1.0");
}
