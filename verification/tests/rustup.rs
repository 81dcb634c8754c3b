use pacdef::failure::Failure;
use pacdef::package_map::NameSet;
use pacdef::process::{Output, Perms, Step};
use pacdef::rustup::{
    contains_text, get_info_switches, get_install_switches, get_remove_switches,
    install_components, parse_components, parse_toolchains, tag, Package, Querying, Repotype,
    Rustup, BINARY,
};

fn texts(items: &[&str]) -> Vec<String> {
    items.iter().map(|s| s.to_string()).collect()
}

fn toolchain(name: &str) -> Package {
    Package { name: name.to_string(), repo: Some("toolchain".to_string()) }
}

fn component(name: &str) -> Package {
    Package { name: name.to_string(), repo: Some("component".to_string()) }
}

fn said(text: &str) -> Output {
    Output { success: true, stdout: text.to_string() }
}

fn all_names(set: &NameSet) -> Vec<String> {
    (0..set.len()).map(|i| set.name(i).clone()).collect()
}

fn args_of(plan: &pacdef::rustup::Plan) -> Vec<Vec<String>> {
    plan.commands.iter().map(|c| c.args.clone()).collect()
}

/// Runs the query against the outputs given and hands back what was asked for
/// and the result.
fn query(outputs: Vec<Output>) -> (Vec<Vec<String>>, Option<Result<NameSet, Failure>>) {
    let rustup = Rustup::new();
    let mut asked = Vec::new();
    let mut outputs = outputs.into_iter();
    let mut step = rustup.get_all_installed_packages();
    loop {
        match step {
            Step::Finish(result) => return (asked, Some(result)),
            Step::Run(_, _) => panic!("a query changes nothing"),
            Step::Capture(command, state) => {
                assert_eq!(command.perms, Perms::Same);
                asked.push(command.args);
                match outputs.next() {
                    Some(output) => step = rustup.resume_get_all_installed_packages(state, &output),
                    None => return (asked, None),
                }
            }
        }
    }
}

#[test]
fn new_rustup_manages_nothing() {
    assert!(Rustup::new().packages.is_empty());
    assert_eq!(BINARY, "rustup");
}

#[test]
fn switches_of_each_kind() {
    assert_eq!(get_install_switches(Repotype::Toolchain), ["toolchain", "install"]);
    assert_eq!(get_install_switches(Repotype::Component), ["component", "add", "--toolchain"]);
    assert_eq!(get_remove_switches(Repotype::Toolchain), ["toolchain", "uninstall"]);
    assert_eq!(get_remove_switches(Repotype::Component), ["component", "remove", "--toolchain"]);
    assert_eq!(get_info_switches(Repotype::Toolchain), ["toolchain", "list"]);
    assert_eq!(get_info_switches(Repotype::Component), ["component", "list", "--installed", "--toolchain"]);
}

#[test]
fn toolchain_is_what_stands_before_the_first_hyphen() {
    assert_eq!(
        parse_toolchains("stable-x86_64-unknown-linux-gnu (default)\nnightly-2023-01-01-x86_64-unknown-linux-gnu\n"),
        texts(&["stable", "nightly"])
    );
    assert_eq!(parse_toolchains("custom\n"), texts(&["custom"]));
    assert_eq!(parse_toolchains(""), Vec::<String>::new());
    assert_eq!(parse_toolchains("-x\n\n"), texts(&["", ""]));
}

#[test]
fn single_word_component_is_one_word() {
    let mut val = Vec::new();
    for line in [
        "clippy-x86_64-unknown-linux-gnu",
        "cargo-x86_64-unknown-linux-gnu",
        "rustfmt-x86_64-unknown-linux-gnu",
        "miri-x86_64-unknown-linux-gnu",
        "rls-x86_64-unknown-linux-gnu",
        "rustc-x86_64-unknown-linux-gnu",
        "rustc",
    ] {
        assert_eq!(install_components(line, "stable", &mut val), Ok(()));
    }
    assert_eq!(
        val,
        texts(&[
            "stable/clippy",
            "stable/cargo",
            "stable/rustfmt",
            "stable/miri",
            "stable/rls",
            "stable/rustc",
            "stable/rustc"
        ])
    );
}

#[test]
fn other_components_are_two_words() {
    let mut val = texts(&["kept"]);
    assert_eq!(install_components("rust-src-x86_64-unknown-linux-gnu", "stable", &mut val), Ok(()));
    assert_eq!(install_components("rust-std-x86_64-unknown-linux-gnu", "nightly", &mut val), Ok(()));
    assert_eq!(install_components("rust-docs", "stable", &mut val), Ok(()));
    assert_eq!(install_components("llvm-tools-preview-x86_64-unknown-linux-gnu", "stable", &mut val), Ok(()));
    assert_eq!(install_components("cargox-y", "stable", &mut val), Ok(()));
    assert_eq!(
        val,
        texts(&[
            "kept",
            "stable/rust-src",
            "nightly/rust-std",
            "stable/rust-docs",
            "stable/llvm-tools",
            "stable/cargox-y"
        ])
    );
}

#[test]
fn line_of_one_unknown_word_names_no_component() {
    let mut val = texts(&["kept"]);
    assert_eq!(install_components("rust", "stable", &mut val), Err(Failure::UnknownComponent));
    assert_eq!(install_components("", "stable", &mut val), Err(Failure::UnknownComponent));
    assert_eq!(install_components("Cargo", "stable", &mut val), Err(Failure::UnknownComponent));
    assert_eq!(val, texts(&["kept"]));
}

#[test]
fn component_listing_is_read_line_by_line() {
    let mut val = Vec::new();
    assert_eq!(parse_components("cargo-x\nrust-std-x\n", "stable", &mut val), Ok(()));
    assert_eq!(val, texts(&["stable/cargo", "stable/rust-std"]));
    assert_eq!(parse_components("", "stable", &mut val), Ok(()));
    assert_eq!(val.len(), 2);
    assert_eq!(parse_components("clippy-x\nbroken\ncargo-x\n", "stable", &mut val), Err(Failure::UnknownComponent));
}

#[test]
fn installed_identifiers_are_synthesized() {
    let (asked, result) = query(vec![
        said("stable-x86_64-unknown-linux-gnu (default)\n"),
        said("clippy-x86_64-unknown-linux-gnu\nrust-src-x86_64-unknown-linux-gnu\n"),
    ]);
    assert_eq!(
        asked,
        vec![
            texts(&["rustup", "toolchain", "list"]),
            texts(&["rustup", "component", "list", "--installed", "--toolchain", "stable"]),
        ]
    );
    assert_eq!(
        all_names(&result.unwrap().unwrap()),
        texts(&["component/stable/clippy", "component/stable/rust-src", "toolchain/stable"])
    );
}

#[test]
fn components_of_every_toolchain_are_asked_for() {
    let (asked, result) = query(vec![
        said("stable-x\nnightly-x\n"),
        said("cargo-x\n"),
        Output { success: false, stdout: "cargo-x\nmiri-x\n".to_string() },
    ]);
    assert_eq!(asked.len(), 3);
    assert_eq!(asked[1][5], "stable");
    assert_eq!(asked[2][5], "nightly");
    assert_eq!(
        all_names(&result.unwrap().unwrap()),
        texts(&[
            "component/nightly/cargo",
            "component/nightly/miri",
            "component/stable/cargo",
            "toolchain/nightly",
            "toolchain/stable"
        ])
    );
}

#[test]
fn no_toolchains_means_nothing_installed() {
    let (asked, result) = query(vec![said("")]);
    assert_eq!(asked.len(), 1);
    assert!(result.unwrap().unwrap().is_empty());
}

#[test]
fn unknown_component_line_fails_the_query() {
    let (_, result) = query(vec![said("stable-x\n"), said("cargo-x\nwhat\n")]);
    assert_eq!(result.unwrap().unwrap_err(), Failure::UnknownComponent);
}

#[test]
fn query_state_out_of_place_is_refused() {
    let state = Querying::ListingComponents { toolchains: texts(&["stable"]), at: 1, components: vec![] };
    assert!(matches!(
        Rustup::new().resume_get_all_installed_packages(state, &said("cargo-x\n")),
        Step::Finish(Err(Failure::Mismatch))
    ));
}

#[test]
fn explicitly_installed_is_all_installed() {
    match Rustup::new().get_explicitly_installed_packages() {
        Step::Capture(command, Querying::ListingToolchains) => {
            assert_eq!(command.args, texts(&["rustup", "toolchain", "list"]));
        }
        _ => panic!("the toolchains are asked for first"),
    }
}

#[test]
fn rustup_cannot_mark_dependencies() {
    assert_eq!(Rustup::new().make_dependency(&vec![toolchain("stable")]), Err(Failure::NotSupported));
    assert_eq!(Rustup::new().make_dependency(&vec![]), Err(Failure::NotSupported));
}

#[test]
fn rustup_installs_toolchains_and_components() {
    let plan = Rustup::new().install_packages(&vec![
        toolchain("stable"),
        component("stable/clippy"),
        component("nightly/rust-src"),
    ]);
    assert_eq!(
        args_of(&plan),
        vec![
            texts(&["rustup", "toolchain", "install", "stable"]),
            texts(&["rustup", "component", "add", "--toolchain", "stable", "clippy"]),
            texts(&["rustup", "component", "add", "--toolchain", "nightly", "rust-src"]),
        ]
    );
    assert_eq!(plan.failure, None);
    assert!(plan.commands.iter().all(|c| c.perms == Perms::Same));
}

#[test]
fn rustup_install_splits_a_component_at_its_first_slash() {
    let plan = Rustup::new().install_packages(&vec![component("stable/a/b")]);
    assert_eq!(args_of(&plan), vec![texts(&["rustup", "component", "add", "--toolchain", "stable", "a/b"])]);
    assert_eq!(plan.failure, None);
}

#[test]
fn rustup_install_needs_toolchain_and_component() {
    for name in ["/clippy", "stable/", "/", "", "clippy"] {
        let plan = Rustup::new().install_packages(&vec![component(name)]);
        assert!(plan.commands.is_empty(), "for {:?}", name);
        assert_eq!(plan.failure, Some(Failure::MalformedComponent), "for {:?}", name);
    }
}

#[test]
fn removal_needs_toolchain_and_component() {
    for name in ["/clippy", "stable/", "stable//x", "/", "", "clippy"] {
        let plan = Rustup::new().remove_packages(&vec![component(name)]);
        assert!(plan.commands.is_empty(), "for {:?}", name);
        assert_eq!(plan.failure, Some(Failure::MalformedComponent), "for {:?}", name);
    }
}

#[test]
fn rustup_version_is_asked_of_rustup() {
    let command = Rustup::version();
    assert_eq!(command.args, texts(&["rustup", "--version"]));
    assert_eq!(command.perms, Perms::Same);
}

#[test]
fn rustup_install_needs_the_kind() {
    let plan = Rustup::new().install_packages(&vec![
        toolchain("stable"),
        Package { name: "nightly".to_string(), repo: None },
        toolchain("beta"),
    ]);
    assert_eq!(args_of(&plan), vec![texts(&["rustup", "toolchain", "install", "stable"])]);
    assert_eq!(plan.failure, Some(Failure::MissingKind));
}

#[test]
fn rustup_install_refuses_other_kinds_and_bare_components() {
    let plan = Rustup::new()
        .install_packages(&vec![Package { name: "x".to_string(), repo: Some("target".to_string()) }]);
    assert!(plan.commands.is_empty());
    assert_eq!(plan.failure, Some(Failure::UnknownKind));
    let plan = Rustup::new().install_packages(&vec![component("clippy"), toolchain("stable")]);
    assert!(plan.commands.is_empty());
    assert_eq!(plan.failure, Some(Failure::MalformedComponent));
    let plan = Rustup::new().install_packages(&vec![]);
    assert!(plan.commands.is_empty());
    assert_eq!(plan.failure, None);
}

#[test]
fn removed_toolchain_takes_its_components_with_it() {
    let plan = Rustup::new().remove_packages(&vec![toolchain("stable"), component("stable/clippy")]);
    assert_eq!(args_of(&plan), vec![texts(&["rustup", "toolchain", "uninstall", "stable"])]);
    assert_eq!(plan.failure, None);
}

#[test]
fn toolchains_are_removed_before_components() {
    let plan = Rustup::new().remove_packages(&vec![
        component("nightly/miri"),
        component("stable/clippy"),
        toolchain("stable"),
        component("beta/rust-src"),
        toolchain("old"),
    ]);
    assert_eq!(
        args_of(&plan),
        vec![
            texts(&["rustup", "toolchain", "uninstall", "stable"]),
            texts(&["rustup", "toolchain", "uninstall", "old"]),
            texts(&["rustup", "component", "remove", "--toolchain", "nightly", "miri"]),
            texts(&["rustup", "component", "remove", "--toolchain", "beta", "rust-src"]),
        ]
    );
    assert_eq!(plan.failure, None);
}

#[test]
fn removal_takes_the_component_up_to_the_next_slash() {
    let plan = Rustup::new().remove_packages(&vec![component("stable/a/b")]);
    assert_eq!(args_of(&plan), vec![texts(&["rustup", "component", "remove", "--toolchain", "stable", "a"])]);
}

#[test]
fn removal_needs_the_kind() {
    let plan = Rustup::new().remove_packages(&vec![
        toolchain("stable"),
        Package { name: "x".to_string(), repo: None },
        toolchain("beta"),
        component("nightly/miri"),
    ]);
    assert_eq!(args_of(&plan), vec![texts(&["rustup", "toolchain", "uninstall", "stable"])]);
    assert_eq!(plan.failure, Some(Failure::MissingKind));
}

#[test]
fn removal_of_a_bare_component_fails_after_the_toolchains() {
    let plan = Rustup::new().remove_packages(&vec![
        component("nightly/miri"),
        component("clippy"),
        toolchain("stable"),
        component("beta/cargo"),
    ]);
    assert_eq!(
        args_of(&plan),
        vec![
            texts(&["rustup", "toolchain", "uninstall", "stable"]),
            texts(&["rustup", "component", "remove", "--toolchain", "nightly", "miri"]),
        ]
    );
    assert_eq!(plan.failure, Some(Failure::MalformedComponent));
}

#[test]
fn bare_component_of_a_removed_toolchain_is_skipped() {
    let plan = Rustup::new().remove_packages(&vec![component("stable"), toolchain("stable")]);
    assert_eq!(args_of(&plan), vec![texts(&["rustup", "toolchain", "uninstall", "stable"])]);
    assert_eq!(plan.failure, None);
}

#[test]
fn removal_leaves_other_kinds_alone() {
    let plan = Rustup::new()
        .remove_packages(&vec![Package { name: "x".to_string(), repo: Some("target".to_string()) }]);
    assert!(plan.commands.is_empty());
    assert_eq!(plan.failure, None);
}

#[test]
fn identifiers_carry_the_kind() {
    assert_eq!(toolchain("stable").identifier(), "toolchain/stable");
    assert_eq!(component("stable/clippy").identifier(), "component/stable/clippy");
    assert_eq!(Package { name: "plain".to_string(), repo: None }.identifier(), "plain");
    assert_eq!(tag("a", "b"), "a/b");
    assert_eq!(tag("", ""), "/");
}

#[test]
fn identifiers_name_their_packages() {
    assert_eq!(Package::from_identifier("toolchain/stable"), toolchain("stable"));
    assert_eq!(Package::from_identifier("component/stable/clippy"), component("stable/clippy"));
    assert_eq!(Package::from_identifier("plain"), Package { name: "plain".to_string(), repo: None });
    assert_eq!(
        Package::from_identifier("/x"),
        Package { name: "x".to_string(), repo: Some(String::new()) }
    );
    for package in [toolchain("stable"), component("nightly/rust-src")] {
        assert_eq!(Package::from_identifier(&package.identifier()), package);
    }
}

#[test]
fn contains_text_looks_for_the_whole_text() {
    let list = texts(&["stable", "nightly"]);
    assert!(contains_text(&list, "stable"));
    assert!(contains_text(&list, "nightly"));
    assert!(!contains_text(&list, "stab"));
    assert!(!contains_text(&list, ""));
    assert!(!contains_text(&vec![], "stable"));
}

#[test]
fn plan_ends_in_the_first_failure() {
    let plan = Rustup::new().install_packages(&vec![toolchain("stable")]);
    assert_eq!(plan.result(true), Ok(()));
    assert_eq!(plan.result(false), Err(Failure::CommandFailed));
    let plan = Rustup::new().install_packages(&vec![component("clippy")]);
    assert_eq!(plan.result(true), Err(Failure::MalformedComponent));
    assert_eq!(plan.result(false), Err(Failure::CommandFailed));
}
