//! The backend for rustup, which manages toolchains and, within each toolchain,
//! components.

use crate::failure::Failure;
use crate::package_map::NameSet;
use crate::process::{
    commands, invocation, push_arg, strs, Command, CommandView, Output, Perms, Step,
};
use crate::text::{
    find_from, lines, lines_of, position_from, push_text, rank, text_of, texts, to_chars, Rank,
};
use vstd::prelude::*;

verus! {

/// The name of the program that is invoked.
pub const BINARY: &'static str = "rustup";

/// A package of a manager whose names come in kinds: the name, and the kind that
/// it belongs to where that is known.
#[derive(Debug, PartialEq, Eq, PartialOrd, Ord)]
pub struct Package {
    pub name: String,
    pub repo: Option<String>,
}

/// A `Package` as plain values.
pub struct PackageView {
    pub name: Seq<char>,
    pub repo: Option<Seq<char>>,
}

impl View for Package {
    type V = PackageView;

    open spec fn view(&self) -> PackageView {
        PackageView {
            name: self.name@,
            repo: match self.repo {
                Some(repo) => Some(repo@),
                None => None,
            },
        }
    }
}

/// The packages that a vector of them stands for.
pub open spec fn packages_view(v: Seq<Package>) -> Seq<PackageView> {
    Seq::new(v.len(), |i: int| v[i]@)
}

/// The identifier `<kind>/<rest>` under which a name of a kind is kept.
pub open spec fn tagged(kind: Seq<char>, rest: Seq<char>) -> Seq<char> {
    kind + seq!['/'] + rest
}

/// The identifier of a package: its name, behind its kind where it has one.
pub open spec fn identifier_of(package: PackageView) -> Seq<char> {
    match package.repo {
        Some(kind) => tagged(kind, package.name),
        None => package.name,
    }
}

/// The package that an identifier names: what stands before the first `/` is the
/// kind, what follows it the name; without a `/` all of it is the name.
pub open spec fn package_of(identifier: Seq<char>) -> PackageView {
    let slash = position_from(identifier, '/', 0);
    if slash < identifier.len() {
        PackageView {
            name: identifier.subrange(slash + 1, identifier.len() as int),
            repo: Some(identifier.subrange(0, slash)),
        }
    } else {
        PackageView { name: identifier, repo: None }
    }
}

/// `kind`, a `/`, and `rest`.
pub fn tag(kind: &str, rest: &str) -> (identifier: String)
    ensures
        identifier@ == tagged(kind@, rest@),
{
    let mut chars = to_chars(kind);
    chars.push('/');
    let mut more = to_chars(rest);
    chars.append(&mut more);
    let identifier = text_of(&chars, 0, chars.len());
    assert(identifier@ =~= tagged(kind@, rest@));
    identifier
}

impl Package {
    /// The identifier under which the package is kept in sets of names.
    pub fn identifier(&self) -> (identifier: String)
        ensures
            identifier@ == identifier_of(self@),
    {
        match &self.repo {
            Some(kind) => tag(kind.as_str(), self.name.as_str()),
            None => self.name.clone(),
        }
    }

    /// The package that an identifier names.
    pub fn from_identifier(identifier: &str) -> (package: Package)
        ensures
            package@ == package_of(identifier@),
    {
        let chars = to_chars(identifier);
        let slash = find_from(&chars, '/', 0);
        if slash < chars.len() {
            Package {
                name: text_of(&chars, slash + 1, chars.len()),
                repo: Some(text_of(&chars, 0, slash)),
            }
        } else {
            let name = text_of(&chars, 0, chars.len());
            assert(name@ =~= identifier@);
            Package { name, repo: None }
        }
    }
}

/// An identifier names the package that it was made of, as long as the kind of
/// that package holds no `/`.
pub proof fn lemma_identifier_round_trip(package: PackageView)
    requires
        package.repo matches Some(kind) ==> !kind.contains('/'),
        package.repo is None ==> !package.name.contains('/'),
    ensures
        package_of(identifier_of(package)) == package,
{
    let identifier = identifier_of(package);
    crate::text::lemma_position_from(identifier, '/', 0);
    let slash = position_from(identifier, '/', 0);
    match package.repo {
        Some(kind) => {
            assert(identifier[kind.len() as int] == '/');
            if slash < kind.len() {
                assert(kind[slash] == identifier[slash]);
                assert(kind.contains('/'));
            }
            assert(slash == kind.len());
            assert(identifier.subrange(0, slash) =~= kind);
            assert(identifier.subrange(slash + 1, identifier.len() as int) =~= package.name);
        },
        None => {
            if slash < identifier.len() {
                assert(package.name.contains('/'));
            }
        },
    }
}

/// The kinds of packages that rustup manages.
#[derive(Debug, Clone, Copy, PartialEq, Eq, Structural)]
pub enum Repotype {
    Toolchain,
    Component,
}

/// The switches that install a package of a kind.
pub fn get_install_switches(repotype: Repotype) -> (switches: &'static [&'static str])
    ensures
        strs(switches@) == match repotype {
            Repotype::Toolchain => seq!["toolchain"@, "install"@],
            Repotype::Component => seq!["component"@, "add"@, "--toolchain"@],
        },
{
    let switches: &'static [&'static str] = match repotype {
        Repotype::Toolchain => &["toolchain", "install"],
        Repotype::Component => &["component", "add", "--toolchain"],
    };
    assert(strs(switches@) =~= match repotype {
        Repotype::Toolchain => seq!["toolchain"@, "install"@],
        Repotype::Component => seq!["component"@, "add"@, "--toolchain"@],
    });
    switches
}

/// The switches that remove a package of a kind.
pub fn get_remove_switches(repotype: Repotype) -> (switches: &'static [&'static str])
    ensures
        strs(switches@) == match repotype {
            Repotype::Toolchain => seq!["toolchain"@, "uninstall"@],
            Repotype::Component => seq!["component"@, "remove"@, "--toolchain"@],
        },
{
    let switches: &'static [&'static str] = match repotype {
        Repotype::Toolchain => &["toolchain", "uninstall"],
        Repotype::Component => &["component", "remove", "--toolchain"],
    };
    assert(strs(switches@) =~= match repotype {
        Repotype::Toolchain => seq!["toolchain"@, "uninstall"@],
        Repotype::Component => seq!["component"@, "remove"@, "--toolchain"@],
    });
    switches
}

/// The switches that list the installed packages of a kind.
pub fn get_info_switches(repotype: Repotype) -> (switches: &'static [&'static str])
    ensures
        strs(switches@) == match repotype {
            Repotype::Toolchain => seq!["toolchain"@, "list"@],
            Repotype::Component => seq!["component"@, "list"@, "--installed"@, "--toolchain"@],
        },
{
    let switches: &'static [&'static str] = match repotype {
        Repotype::Toolchain => &["toolchain", "list"],
        Repotype::Component => &["component", "list", "--installed", "--toolchain"],
    };
    assert(strs(switches@) =~= match repotype {
        Repotype::Toolchain => seq!["toolchain"@, "list"@],
        Repotype::Component => seq!["component"@, "list"@, "--installed"@, "--toolchain"@],
    });
    switches
}

/// Whether `word` is one of the components whose name is a single word.
pub open spec fn is_single_word(word: Seq<char>) -> bool {
    word == "cargo"@ || word == "rustfmt"@ || word == "clippy"@ || word == "miri"@ || word
        == "rls"@ || word == "rustc"@
}

/// The component that a line of a component listing names. The line is the name
/// of the component, a hyphen and the platform. The name is the first word of the
/// line if that is one of the single words; else it is the first two words with
/// their hyphen, and a line of one word names nothing.
pub open spec fn component_of(line: Seq<char>) -> Option<Seq<char>> {
    let first = position_from(line, '-', 0);
    if is_single_word(line.subrange(0, first)) {
        Some(line.subrange(0, first))
    } else if first >= line.len() {
        None
    } else {
        Some(line.subrange(0, position_from(line, '-', first + 1)))
    }
}

/// The toolchain that a line of the toolchain listing names: what stands before
/// the first hyphen.
pub open spec fn toolchain_of(line: Seq<char>) -> Seq<char> {
    line.subrange(0, position_from(line, '-', 0))
}

/// The toolchains that the lines of a toolchain listing name.
pub open spec fn toolchains_of(lines: Seq<Seq<char>>) -> Seq<Seq<char>> {
    Seq::new(lines.len(), |i: int| toolchain_of(lines[i]))
}

/// Whether `word` is one of the single words, as `is_single_word` says.
fn single_word(word: &str) -> (b: bool)
    ensures
        b == is_single_word(word@),
{
    let names: [&str; 6] = ["cargo", "rustfmt", "clippy", "miri", "rls", "rustc"];
    let mut i: usize = 0;
    while i < 6
        invariant
            i <= 6,
            names@.len() == 6,
            names@[0]@ == "cargo"@,
            names@[1]@ == "rustfmt"@,
            names@[2]@ == "clippy"@,
            names@[3]@ == "miri"@,
            names@[4]@ == "rls"@,
            names@[5]@ == "rustc"@,
            forall|j: int| 0 <= j < i ==> names@[j]@ != word@,
        decreases 6 - i,
    {
        match rank(names[i], word) {
            Rank::Same => {
                return true;
            },
            _ => {},
        }
        i += 1;
    }
    false
}

/// Reads one line of the component listing of `toolchain` and appends the
/// component that it names to `val`, behind the toolchain and a `/`. A line that
/// names no component is a failure and leaves `val` as it was.
pub fn install_components(line: &str, toolchain: &str, val: &mut Vec<String>) -> (r: Result<
    (),
    Failure,
>)
    ensures
        match component_of(line@) {
            Some(component) => r is Ok && texts(final(val)@) == texts(old(val)@).push(
                tagged(toolchain@, component),
            ),
            None => r matches Err(e) && e == Failure::UnknownComponent && final(val)@ == old(
                val,
            )@,
        },
{
    let chars = to_chars(line);
    let first = find_from(&chars, '-', 0);
    let word = text_of(&chars, 0, first);
    if single_word(word.as_str()) {
        push_text(val, tag(toolchain, word.as_str()));
        Ok(())
    } else if first >= chars.len() {
        Err(Failure::UnknownComponent)
    } else {
        let second = find_from(&chars, '-', first + 1);
        let component = text_of(&chars, 0, second);
        push_text(val, tag(toolchain, component.as_str()));
        Ok(())
    }
}

/// The toolchains that a toolchain listing names, one for each line.
pub fn parse_toolchains(listing: &str) -> (toolchains: Vec<String>)
    ensures
        texts(toolchains@) == toolchains_of(lines_of(listing@)),
{
    let all = lines(listing);
    let mut toolchains: Vec<String> = Vec::new();
    let mut i: usize = 0;
    assert(texts(toolchains@) =~= toolchains_of(texts(all@)).take(0));
    while i < all.len()
        invariant
            i <= all.len(),
            texts(toolchains@) == toolchains_of(texts(all@)).take(i as int),
        decreases all.len() - i,
    {
        let chars = to_chars(all[i].as_str());
        let end = find_from(&chars, '-', 0);
        let ghost before = texts(toolchains@);
        push_text(&mut toolchains, text_of(&chars, 0, end));
        assert(before.push(toolchain_of(texts(all@)[i as int])) =~= toolchains_of(
            texts(all@),
        ).take(i + 1));
        i += 1;
    }
    assert(toolchains_of(texts(all@)).take(all.len() as int) =~= toolchains_of(texts(all@)));
    toolchains
}

/// The components that the lines of the component listing of `toolchain` name,
/// each behind the toolchain and a `/`; nothing where a line names no component.
pub open spec fn components_of(lines: Seq<Seq<char>>, toolchain: Seq<char>) -> Option<
    Seq<Seq<char>>,
>
    decreases lines.len(),
{
    if lines.len() == 0 {
        Some(Seq::empty())
    } else {
        match (components_of(lines.drop_last(), toolchain), component_of(lines.last())) {
            (Some(rest), Some(component)) => Some(rest.push(tagged(toolchain, component))),
            _ => None,
        }
    }
}

/// Where a beginning of the lines holds one that names no component, so does the
/// whole.
pub proof fn lemma_components_of_prefix(lines: Seq<Seq<char>>, toolchain: Seq<char>, n: int)
    requires
        0 <= n <= lines.len(),
        components_of(lines.take(n), toolchain) is None,
    ensures
        components_of(lines, toolchain) is None,
    decreases lines.len() - n,
{
    if n < lines.len() {
        assert(lines.take(n + 1).drop_last() =~= lines.take(n));
        lemma_components_of_prefix(lines, toolchain, n + 1);
    } else {
        assert(lines.take(n) =~= lines);
    }
}

/// Reads the component listing of `toolchain` and appends the components that it
/// names to `val`.
pub fn parse_components(listing: &str, toolchain: &str, val: &mut Vec<String>) -> (r: Result<
    (),
    Failure,
>)
    ensures
        match components_of(lines_of(listing@), toolchain@) {
            Some(components) => r is Ok && texts(final(val)@) == texts(old(val)@) + components,
            None => r matches Err(e) && e == Failure::UnknownComponent,
        },
{
    let all = lines(listing);
    let ghost start = texts(val@);
    let ghost rows = texts(all@);
    let mut i: usize = 0;
    assert(rows.take(0) =~= Seq::<Seq<char>>::empty());
    assert(start + Seq::<Seq<char>>::empty() =~= start);
    while i < all.len()
        invariant
            i <= all.len(),
            rows == texts(all@),
            rows == lines_of(listing@),
            components_of(rows.take(i as int), toolchain@) matches Some(components) && texts(val@)
                == start + components,
        decreases all.len() - i,
    {
        proof {
            assert(rows.take(i + 1).drop_last() =~= rows.take(i as int));
            assert(rows.take(i + 1).last() == all@[i as int]@);
        }
        let ghost so_far = components_of(rows.take(i as int), toolchain@)->0;
        match install_components(all[i].as_str(), toolchain, val) {
            Ok(_) => {
                assert(texts(val@) =~= start + so_far.push(
                    tagged(toolchain@, component_of(all@[i as int]@)->0),
                ));
            },
            Err(e) => {
                proof {
                    lemma_components_of_prefix(rows, toolchain@, i + 1);
                }
                return Err(e);
            },
        }
        i += 1;
    }
    assert(rows.take(all.len() as int) =~= rows);
    Ok(())
}

/// The identifiers of the installed packages: one of the kind toolchain for each
/// of `toolchains`, one of the kind component for each of `components`.
pub open spec fn installed_of(toolchains: Seq<Seq<char>>, components: Seq<Seq<char>>) -> Set<
    Seq<char>,
> {
    Set::new(
        |identifier: Seq<char>|
            (exists|i: int|
                0 <= i < toolchains.len() && identifier == tagged(
                    "toolchain"@,
                    #[trigger] toolchains[i],
                )) || (exists|i: int|
                0 <= i < components.len() && identifier == tagged(
                    "component"@,
                    #[trigger] components[i],
                )),
    )
}

/// The invocation that asks rustup for its version.
pub open spec fn version_command() -> CommandView {
    CommandView { args: seq!["rustup"@, "--version"@], perms: Perms::Same }
}

/// The invocation that lists the installed toolchains.
pub open spec fn toolchain_list_command() -> CommandView {
    CommandView { args: seq!["rustup"@, "toolchain"@, "list"@], perms: Perms::Same }
}

/// The invocation that lists the installed components of `toolchain`.
pub open spec fn component_list_command(toolchain: Seq<char>) -> CommandView {
    CommandView {
        args: seq!["rustup"@, "component"@, "list"@, "--installed"@, "--toolchain"@, toolchain],
        perms: Perms::Same,
    }
}

/// Where the query for the installed packages stands: what was asked of rustup
/// last, and what is known so far.
pub enum Querying {
    /// The toolchains were asked for.
    ListingToolchains,
    /// The components of `toolchains[at]` were asked for; `components` holds those
    /// of the toolchains before it.
    ListingComponents { toolchains: Vec<String>, at: usize, components: Vec<String> },
}

/// What follows once the components of all toolchains before `toolchains[at]` are
/// known: the components of that toolchain are asked for, or, where no toolchain
/// is left, the query ends with the identifiers of all that is installed.
pub open spec fn query_continues(
    step: Step<Querying, Result<NameSet, Failure>>,
    toolchains: Seq<Seq<char>>,
    at: int,
    components: Seq<Seq<char>>,
) -> bool {
    if at < toolchains.len() {
        &&& step matches Step::Capture(
            command,
            Querying::ListingComponents { toolchains: kept, at: next, components: known },
        )
        &&& command@ == component_list_command(toolchains[at])
        &&& texts(kept@) == toolchains
        &&& next == at
        &&& texts(known@) == components
    } else {
        step matches Step::Finish(Ok(installed)) && installed@ == installed_of(
            toolchains,
            components,
        )
    }
}

/// How a package is installed: the invocation, or why there is none. The name of
/// a component is its toolchain, a `/` and the component; neither may be empty.
pub open spec fn install_step(package: PackageView) -> Result<CommandView, Failure> {
    match package.repo {
        None => Err(Failure::MissingKind),
        Some(kind) => if kind == "toolchain"@ {
            Ok(
                CommandView {
                    args: seq!["rustup"@, "toolchain"@, "install"@, package.name],
                    perms: Perms::Same,
                },
            )
        } else if kind == "component"@ {
            let slash = position_from(package.name, '/', 0);
            if 0 < slash && slash + 1 < package.name.len() {
                Ok(
                    CommandView {
                        args: seq![
                            "rustup"@,
                            "component"@,
                            "add"@,
                            "--toolchain"@,
                            package.name.subrange(0, slash),
                            package.name.subrange(slash + 1, package.name.len() as int),
                        ],
                        perms: Perms::Same,
                    },
                )
            } else {
                Err(Failure::MalformedComponent)
            }
        } else {
            Err(Failure::UnknownKind)
        },
    }
}

/// A sequence of invocations to run one after the other, none after one that
/// failed, and the failure in which the run then ends if it is to end in one.
#[derive(Debug)]
pub struct Plan {
    pub commands: Vec<Command>,
    pub failure: Option<Failure>,
}

/// A `Plan` as plain values.
pub struct PlanView {
    pub commands: Seq<CommandView>,
    pub failure: Option<Failure>,
}

impl View for Plan {
    type V = PlanView;

    open spec fn view(&self) -> PlanView {
        PlanView { commands: commands(self.commands@), failure: self.failure }
    }
}

/// How the run of a plan ends, given whether all of its invocations that were run
/// have succeeded: in the failure of an invocation, else in the failure that the
/// plan ends in, else well.
pub open spec fn result_of(plan: PlanView, succeeded: bool) -> Result<(), Failure> {
    if !succeeded {
        Err(Failure::CommandFailed)
    } else {
        match plan.failure {
            Some(failure) => Err(failure),
            None => Ok(()),
        }
    }
}

impl Plan {
    /// How the run of the plan ends, as `result_of` says.
    pub fn result(&self, succeeded: bool) -> (r: Result<(), Failure>)
        ensures
            r == result_of(self@, succeeded),
    {
        if !succeeded {
            Err(Failure::CommandFailed)
        } else {
            match self.failure {
                Some(failure) => Err(failure),
                None => Ok(()),
            }
        }
    }
}

/// `plan` with one step more. A plan that ends in a failure takes no more steps;
/// a step may be to do nothing.
pub open spec fn extend(plan: PlanView, step: Option<Result<CommandView, Failure>>) -> PlanView {
    if plan.failure is Some {
        plan
    } else {
        match step {
            None => plan,
            Some(Ok(command)) => PlanView {
                commands: plan.commands.push(command),
                failure: None,
            },
            Some(Err(failure)) => PlanView { commands: plan.commands, failure: Some(failure) },
        }
    }
}

/// The plan that installs `packages` one after the other.
pub open spec fn install_plan_of(packages: Seq<PackageView>) -> PlanView
    decreases packages.len(),
{
    if packages.len() == 0 {
        PlanView { commands: Seq::empty(), failure: None }
    } else {
        extend(install_plan_of(packages.drop_last()), Some(install_step(packages.last())))
    }
}

/// How a toolchain is removed in the first pass of a removal; packages of other
/// kinds are left alone in that pass.
pub open spec fn remove_toolchain_step(package: PackageView) -> Option<Result<CommandView, Failure>> {
    match package.repo {
        None => Some(Err(Failure::MissingKind)),
        Some(kind) => if kind == "toolchain"@ {
            Some(
                Ok(
                    CommandView {
                        args: seq!["rustup"@, "toolchain"@, "uninstall"@, package.name],
                        perms: Perms::Same,
                    },
                ),
            )
        } else {
            None
        },
    }
}

/// The names of the toolchains among `packages`.
pub open spec fn toolchains_among(packages: Seq<PackageView>) -> Seq<Seq<char>>
    decreases packages.len(),
{
    if packages.len() == 0 {
        Seq::empty()
    } else if packages.last().repo == Some("toolchain"@) {
        toolchains_among(packages.drop_last()).push(packages.last().name)
    } else {
        toolchains_among(packages.drop_last())
    }
}

/// The toolchain that a component belongs to: what stands before the first `/` of
/// its name.
pub open spec fn owner_of(name: Seq<char>) -> Seq<char> {
    name.subrange(0, position_from(name, '/', 0))
}

/// How a component is removed in the second pass of a removal, once the
/// toolchains `removed` are gone: not at all if its toolchain is among them, for
/// that took the component with it. The component is what stands between the
/// first `/` of the name and the next; a name without a toolchain before the `/`
/// or without a component behind it is a failure. Packages of other kinds are left
/// alone.
pub open spec fn remove_component_step(package: PackageView, removed: Seq<Seq<char>>) -> Option<
    Result<CommandView, Failure>,
> {
    match package.repo {
        None => Some(Err(Failure::MissingKind)),
        Some(kind) => if kind == "component"@ && !removed.contains(owner_of(package.name)) {
            let slash = position_from(package.name, '/', 0);
            if 0 < slash && slash + 1 < position_from(package.name, '/', slash + 1) {
                Some(
                    Ok(
                        CommandView {
                            args: seq![
                                "rustup"@,
                                "component"@,
                                "remove"@,
                                "--toolchain"@,
                                package.name.subrange(0, slash),
                                package.name.subrange(
                                    slash + 1,
                                    position_from(package.name, '/', slash + 1),
                                ),
                            ],
                            perms: Perms::Same,
                        },
                    ),
                )
            } else {
                Some(Err(Failure::MalformedComponent))
            }
        } else {
            None
        },
    }
}

/// The first pass of a removal over `packages`: the toolchains.
pub open spec fn toolchain_pass(packages: Seq<PackageView>) -> PlanView
    decreases packages.len(),
{
    if packages.len() == 0 {
        PlanView { commands: Seq::empty(), failure: None }
    } else {
        extend(toolchain_pass(packages.drop_last()), remove_toolchain_step(packages.last()))
    }
}

/// The second pass of a removal over `packages`, which goes on from `plan`: the
/// components whose toolchain is not among `removed`.
pub open spec fn component_pass(
    plan: PlanView,
    packages: Seq<PackageView>,
    removed: Seq<Seq<char>>,
) -> PlanView
    decreases packages.len(),
{
    if packages.len() == 0 {
        plan
    } else {
        extend(
            component_pass(plan, packages.drop_last(), removed),
            remove_component_step(packages.last(), removed),
        )
    }
}

/// The plan that removes `packages`: first every toolchain, then every component
/// that did not go with its toolchain.
pub open spec fn remove_plan_of(packages: Seq<PackageView>) -> PlanView {
    component_pass(toolchain_pass(packages), packages, toolchains_among(packages))
}

/// The names of the toolchains among `packages` hold the name of each of them.
pub proof fn lemma_toolchains_among(packages: Seq<PackageView>, i: int)
    requires
        0 <= i < packages.len(),
        packages[i].repo == Some("toolchain"@),
    ensures
        toolchains_among(packages).contains(packages[i].name),
    decreases packages.len(),
{
    let rest = packages.drop_last();
    if i == packages.len() - 1 {
        let names = toolchains_among(packages);
        assert(names == toolchains_among(rest).push(packages[i].name));
        assert(names[names.len() - 1] == packages[i].name);
    } else {
        assert(rest[i] == packages[i]);
        lemma_toolchains_among(rest, i);
        let before = toolchains_among(rest);
        let at = choose|k: int| 0 <= k < before.len() && before[k] == packages[i].name;
        let names = toolchains_among(packages);
        assert(names[at] == before[at]);
    }
}

/// Where a toolchain and one of its components are removed in one call, the
/// component is not removed by an invocation of its own.
pub proof fn lemma_component_goes_with_its_toolchain(packages: Seq<PackageView>, i: int, j: int)
    requires
        0 <= i < packages.len(),
        0 <= j < packages.len(),
        packages[i].repo == Some("toolchain"@),
        packages[j].repo == Some("component"@),
        owner_of(packages[j].name) == packages[i].name,
    ensures
        remove_component_step(packages[j], toolchains_among(packages)) is None,
{
    lemma_toolchains_among(packages, i);
}

/// The second pass of a removal takes nothing back: what the plan held before it
/// is still the beginning of the plan after it.
pub proof fn lemma_component_pass_extends(
    plan: PlanView,
    packages: Seq<PackageView>,
    removed: Seq<Seq<char>>,
)
    ensures
        plan.commands.len() <= component_pass(plan, packages, removed).commands.len(),
        component_pass(plan, packages, removed).commands.take(plan.commands.len() as int)
            == plan.commands,
        plan.failure is Some ==> component_pass(plan, packages, removed) == plan,
    decreases packages.len(),
{
    if packages.len() > 0 {
        lemma_component_pass_extends(plan, packages.drop_last(), removed);
        let before = component_pass(plan, packages.drop_last(), removed);
        let after = component_pass(plan, packages, removed);
        assert(after.commands.take(plan.commands.len() as int) =~= before.commands.take(
            plan.commands.len() as int,
        ));
    } else {
        assert(plan.commands.take(plan.commands.len() as int) =~= plan.commands);
    }
}

/// Every toolchain is removed before any component: the plan of a removal begins
/// with the whole first pass.
pub proof fn lemma_toolchains_first(packages: Seq<PackageView>)
    ensures
        remove_plan_of(packages).commands.take(toolchain_pass(packages).commands.len() as int)
            == toolchain_pass(packages).commands,
{
    lemma_component_pass_extends(toolchain_pass(packages), packages, toolchains_among(packages));
}

/// Whether `list` holds `text`.
pub fn contains_text(list: &Vec<String>, text: &str) -> (b: bool)
    ensures
        b == texts(list@).contains(text@),
{
    let mut i: usize = 0;
    while i < list.len()
        invariant
            i <= list.len(),
            forall|j: int| 0 <= j < i ==> texts(list@)[j] != text@,
        decreases list.len() - i,
    {
        match rank(list[i].as_str(), text) {
            Rank::Same => {
                assert(texts(list@)[i as int] == text@);
                return true;
            },
            _ => {},
        }
        i += 1;
    }
    false
}

/// The backend, with the packages that it is to manage.
#[derive(Debug)]
pub struct Rustup {
    pub packages: NameSet,
}

impl Rustup {
    /// The invocation that asks rustup for its version. Where it fails rustup is
    /// taken to be absent.
    pub fn version() -> (command: Command)
        ensures
            command@ == version_command(),
    {
        let command = invocation(BINARY, &["--version"], Perms::Same);
        assert(command@.args =~= version_command().args);
        command
    }

    /// The backend with no packages to manage.
    pub fn new() -> (rustup: Self)
        ensures
            rustup.packages@ == Set::<Seq<char>>::empty(),
    {
        Self { packages: NameSet::new() }
    }

    fn continue_query(toolchains: Vec<String>, at: usize, components: Vec<String>) -> (step: Step<
        Querying,
        Result<NameSet, Failure>,
    >)
        ensures
            query_continues(step, texts(toolchains@), at as int, texts(components@)),
    {
        if at < toolchains.len() {
            let mut command = invocation(
                BINARY,
                get_info_switches(Repotype::Component),
                Perms::Same,
            );
            push_arg(&mut command.args, toolchains[at].as_str());
            assert(command@.args =~= component_list_command(texts(toolchains@)[at as int]).args);
            Step::Capture(command, Querying::ListingComponents { toolchains, at, components })
        } else {
            let mut installed = NameSet::new();
            let ghost names = texts(toolchains@);
            let ghost parts = texts(components@);
            let mut i: usize = 0;
            while i < toolchains.len()
                invariant
                    i <= toolchains.len(),
                    names == texts(toolchains@),
                    installed@ == installed_of(names.take(i as int), Seq::empty()),
                decreases toolchains.len() - i,
            {
                installed.insert(tag("toolchain", toolchains[i].as_str()));
                proof {
                    let before = names.take(i as int);
                    let after = names.take(i + 1);
                    assert(after[i as int] == names[i as int]);
                    assert forall|identifier: Seq<char>|
                        installed@.contains(identifier) <==> installed_of(
                            after,
                            Seq::empty(),
                        ).contains(identifier) by {
                        if installed_of(before, Seq::empty()).contains(identifier) {
                            let j = choose|j: int|
                                0 <= j < before.len() && identifier == tagged(
                                    "toolchain"@,
                                    #[trigger] before[j],
                                );
                            assert(after[j] == before[j]);
                        }
                        if installed_of(after, Seq::empty()).contains(identifier) {
                            let j = choose|j: int|
                                0 <= j < after.len() && identifier == tagged(
                                    "toolchain"@,
                                    #[trigger] after[j],
                                );
                            if j < i {
                                assert(before[j] == after[j]);
                            }
                        }
                    }
                    assert(installed@ =~= installed_of(after, Seq::empty()));
                }
                i += 1;
            }
            assert(names.take(toolchains.len() as int) =~= names);
            let mut k: usize = 0;
            assert(parts.take(0) =~= Seq::<Seq<char>>::empty());
            while k < components.len()
                invariant
                    k <= components.len(),
                    parts == texts(components@),
                    installed@ == installed_of(names, parts.take(k as int)),
                decreases components.len() - k,
            {
                installed.insert(tag("component", components[k].as_str()));
                proof {
                    let before = parts.take(k as int);
                    let after = parts.take(k + 1);
                    assert(after[k as int] == parts[k as int]);
                    assert forall|identifier: Seq<char>|
                        installed@.contains(identifier) <==> installed_of(names, after).contains(
                            identifier,
                        ) by {
                        if installed_of(names, before).contains(identifier) {
                            if exists|j: int|
                                0 <= j < before.len() && identifier == tagged(
                                    "component"@,
                                    #[trigger] before[j],
                                ) {
                                let j = choose|j: int|
                                    0 <= j < before.len() && identifier == tagged(
                                        "component"@,
                                        #[trigger] before[j],
                                    );
                                assert(after[j] == before[j]);
                            }
                        }
                        if installed_of(names, after).contains(identifier) {
                            if exists|j: int|
                                0 <= j < after.len() && identifier == tagged(
                                    "component"@,
                                    #[trigger] after[j],
                                ) {
                                let j = choose|j: int|
                                    0 <= j < after.len() && identifier == tagged(
                                        "component"@,
                                        #[trigger] after[j],
                                    );
                                if j < k {
                                    assert(before[j] == after[j]);
                                }
                            }
                        }
                    }
                    assert(installed@ =~= installed_of(names, after));
                }
                k += 1;
            }
            assert(parts.take(components.len() as int) =~= parts);
            Step::Finish(Ok(installed))
        }
    }

    /// Begins to ask rustup for everything that is installed: the toolchains first,
    /// then the components of each toolchain.
    pub fn get_all_installed_packages(&self) -> (step: Step<Querying, Result<NameSet, Failure>>)
        ensures
            step matches Step::Capture(command, Querying::ListingToolchains) && command@
                == toolchain_list_command(),
    {
        let command = invocation(BINARY, get_info_switches(Repotype::Toolchain), Perms::Same);
        assert(command@.args =~= toolchain_list_command().args);
        Step::Capture(command, Querying::ListingToolchains)
    }

    /// With rustup everything that is installed was installed explicitly.
    pub fn get_explicitly_installed_packages(&self) -> (step: Step<
        Querying,
        Result<NameSet, Failure>,
    >)
        ensures
            step matches Step::Capture(command, Querying::ListingToolchains) && command@
                == toolchain_list_command(),
    {
        self.get_all_installed_packages()
    }

    /// Goes on with the query now that the `output` of what was asked for last is
    /// known. What rustup printed is read whatever its exit status was. A line of a
    /// component listing that names no component ends the query with that failure.
    pub fn resume_get_all_installed_packages(&self, state: Querying, output: &Output) -> (step:
        Step<Querying, Result<NameSet, Failure>>)
        ensures
            match state {
                Querying::ListingToolchains => query_continues(
                    step,
                    toolchains_of(lines_of(output.stdout@)),
                    0,
                    Seq::empty(),
                ),
                Querying::ListingComponents { toolchains, at, components } => if at
                    < toolchains.len() {
                    match components_of(lines_of(output.stdout@), toolchains@[at as int]@) {
                        Some(found) => query_continues(
                            step,
                            texts(toolchains@),
                            at + 1,
                            texts(components@) + found,
                        ),
                        None => step matches Step::Finish(Err(e)) && e
                            == Failure::UnknownComponent,
                    }
                } else {
                    step matches Step::Finish(Err(e)) && e == Failure::Mismatch
                },
            },
    {
        match state {
            Querying::ListingToolchains => {
                let toolchains = parse_toolchains(output.stdout.as_str());
                let components: Vec<String> = Vec::new();
                assert(texts(components@) =~= Seq::<Seq<char>>::empty());
                Rustup::continue_query(toolchains, 0, components)
            },
            Querying::ListingComponents { toolchains, at, components } => {
                if at < toolchains.len() {
                    let mut components = components;
                    match parse_components(
                        output.stdout.as_str(),
                        toolchains[at].as_str(),
                        &mut components,
                    ) {
                        Ok(_) => Rustup::continue_query(toolchains, at + 1, components),
                        Err(e) => Step::Finish(Err(e)),
                    }
                } else {
                    Step::Finish(Err(Failure::Mismatch))
                }
            },
        }
    }

    /// rustup cannot mark a package as installed for the sake of others.
    pub fn make_dependency(&self, packages: &Vec<Package>) -> (r: Result<(), Failure>)
        ensures
            r matches Err(e) && e == Failure::NotSupported,
    {
        Err(Failure::NotSupported)
    }

    /// The plan that installs `packages`, one invocation for each, in their order.
    /// A package without a kind, of a kind that rustup does not manage, or a
    /// component whose name is not a toolchain, a `/` and a component ends the plan
    /// in a failure; what stands before it in the plan is still to be run.
    pub fn install_packages(&self, packages: &Vec<Package>) -> (plan: Plan)
        ensures
            plan@ == install_plan_of(packages_view(packages@)),
    {
        let mut plan = Plan { commands: Vec::new(), failure: None };
        let ghost all = packages_view(packages@);
        let mut i: usize = 0;
        assert(all.take(0) =~= Seq::<PackageView>::empty());
        assert(plan@.commands =~= Seq::<CommandView>::empty());
        while i < packages.len()
            invariant
                i <= packages.len(),
                all == packages_view(packages@),
                plan@ == install_plan_of(all.take(i as int)),
            decreases packages.len() - i,
        {
            proof {
                assert(all.take(i + 1).drop_last() =~= all.take(i as int));
                assert(all.take(i + 1).last() == packages@[i as int]@);
            }
            if plan.failure.is_none() {
                let package = &packages[i];
                match Rustup::install_command(package) {
                    Ok(command) => {
                        let ghost before = plan@.commands;
                        plan.commands.push(command);
                        assert(plan@.commands =~= before.push(command@));
                    },
                    Err(failure) => {
                        plan.failure = Some(failure);
                    },
                }
            }
            i += 1;
        }
        assert(all.take(packages.len() as int) =~= all);
        plan
    }

    /// The invocation that installs one package, or why there is none.
    pub fn install_command(package: &Package) -> (r: Result<Command, Failure>)
        ensures
            match install_step(package@) {
                Ok(command) => r matches Ok(c) && c@ == command,
                Err(failure) => r matches Err(e) && e == failure,
            },
    {
        let kind = match &package.repo {
            Some(kind) => kind,
            None => {
                return Err(Failure::MissingKind);
            },
        };
        match rank(kind.as_str(), "toolchain") {
            Rank::Same => {
                let mut command = invocation(
                    BINARY,
                    get_install_switches(Repotype::Toolchain),
                    Perms::Same,
                );
                push_arg(&mut command.args, package.name.as_str());
                assert(command@.args =~= install_step(package@)->Ok_0.args);
                return Ok(command);
            },
            _ => {},
        }
        match rank(kind.as_str(), "component") {
            Rank::Same => {
                let chars = to_chars(package.name.as_str());
                let slash = find_from(&chars, '/', 0);
                if 0 < slash && slash < chars.len() && slash + 1 < chars.len() {
                    let mut command = invocation(
                        BINARY,
                        get_install_switches(Repotype::Component),
                        Perms::Same,
                    );
                    let toolchain = text_of(&chars, 0, slash);
                    let component = text_of(&chars, slash + 1, chars.len());
                    push_arg(&mut command.args, toolchain.as_str());
                    push_arg(&mut command.args, component.as_str());
                    assert(command@.args =~= install_step(package@)->Ok_0.args);
                    Ok(command)
                } else {
                    Err(Failure::MalformedComponent)
                }
            },
            _ => Err(Failure::UnknownKind),
        }
    }

    /// The invocation of the first pass of a removal for one package, if there is
    /// one, or why the removal fails at it.
    pub fn remove_toolchain_command(package: &Package) -> (r: Option<Result<Command, Failure>>)
        ensures
            match remove_toolchain_step(package@) {
                None => r is None,
                Some(Ok(command)) => r matches Some(Ok(c)) && c@ == command,
                Some(Err(failure)) => r matches Some(Err(e)) && e == failure,
            },
    {
        let kind = match &package.repo {
            Some(kind) => kind,
            None => {
                return Some(Err(Failure::MissingKind));
            },
        };
        match rank(kind.as_str(), "toolchain") {
            Rank::Same => {
                let mut command = invocation(
                    BINARY,
                    get_remove_switches(Repotype::Toolchain),
                    Perms::Same,
                );
                push_arg(&mut command.args, package.name.as_str());
                assert(command@.args =~= remove_toolchain_step(package@)->0->Ok_0.args);
                Some(Ok(command))
            },
            _ => None,
        }
    }

    /// The invocation of the second pass of a removal for one package, if there is
    /// one, or why the removal fails at it. `removed` are the toolchains that the
    /// first pass removes.
    pub fn remove_component_command(package: &Package, removed: &Vec<String>) -> (r: Option<
        Result<Command, Failure>,
    >)
        ensures
            match remove_component_step(package@, texts(removed@)) {
                None => r is None,
                Some(Ok(command)) => r matches Some(Ok(c)) && c@ == command,
                Some(Err(failure)) => r matches Some(Err(e)) && e == failure,
            },
    {
        let kind = match &package.repo {
            Some(kind) => kind,
            None => {
                return Some(Err(Failure::MissingKind));
            },
        };
        match rank(kind.as_str(), "component") {
            Rank::Same => {},
            _ => {
                return None;
            },
        }
        let chars = to_chars(package.name.as_str());
        let slash = find_from(&chars, '/', 0);
        let toolchain = text_of(&chars, 0, slash);
        if contains_text(removed, toolchain.as_str()) {
            return None;
        }
        if 0 < slash && slash < chars.len() && slash + 1 < find_from(&chars, '/', slash + 1) {
            let end = find_from(&chars, '/', slash + 1);
            let component = text_of(&chars, slash + 1, end);
            let mut command = invocation(
                BINARY,
                get_remove_switches(Repotype::Component),
                Perms::Same,
            );
            push_arg(&mut command.args, toolchain.as_str());
            push_arg(&mut command.args, component.as_str());
            assert(command@.args =~= remove_component_step(
                package@,
                texts(removed@),
            )->0->Ok_0.args);
            Some(Ok(command))
        } else {
            Some(Err(Failure::MalformedComponent))
        }
    }

    /// The plan that removes `packages` in two passes over them. The first pass
    /// removes every toolchain. The second removes every component, but for those
    /// whose toolchain the first pass removes: they are gone with it. A package
    /// without a kind, or a component whose name is not a toolchain, a `/` and a
    /// component, ends the plan in a failure; what stands before it in the plan is
    /// still to be run.
    pub fn remove_packages(&self, packages: &Vec<Package>) -> (plan: Plan)
        ensures
            plan@ == remove_plan_of(packages_view(packages@)),
    {
        let mut plan = Plan { commands: Vec::new(), failure: None };
        let mut removed: Vec<String> = Vec::new();
        let ghost all = packages_view(packages@);
        let mut i: usize = 0;
        assert(all.take(0) =~= Seq::<PackageView>::empty());
        assert(plan@.commands =~= Seq::<CommandView>::empty());
        assert(texts(removed@) =~= Seq::<Seq<char>>::empty());
        while i < packages.len()
            invariant
                i <= packages.len(),
                all == packages_view(packages@),
                plan@ == toolchain_pass(all.take(i as int)),
                plan.failure is None ==> texts(removed@) == toolchains_among(all.take(i as int)),
            decreases packages.len() - i,
        {
            proof {
                assert(all.take(i + 1).drop_last() =~= all.take(i as int));
                assert(all.take(i + 1).last() == packages@[i as int]@);
            }
            if plan.failure.is_none() {
                let package = &packages[i];
                match Rustup::remove_toolchain_command(package) {
                    None => {},
                    Some(Ok(command)) => {
                        let ghost before = plan@.commands;
                        plan.commands.push(command);
                        assert(plan@.commands =~= before.push(command@));
                        push_text(&mut removed, package.name.clone());
                    },
                    Some(Err(failure)) => {
                        plan.failure = Some(failure);
                    },
                }
            }
            i += 1;
        }
        assert(all.take(packages.len() as int) =~= all);
        let ghost first = plan@;
        let ghost gone = toolchains_among(all);
        let mut k: usize = 0;
        while k < packages.len()
            invariant
                k <= packages.len(),
                all == packages_view(packages@),
                first == toolchain_pass(all),
                gone == toolchains_among(all),
                plan@ == component_pass(first, all.take(k as int), gone),
                plan.failure is None ==> texts(removed@) == gone,
            decreases packages.len() - k,
        {
            proof {
                assert(all.take(k + 1).drop_last() =~= all.take(k as int));
                assert(all.take(k + 1).last() == packages@[k as int]@);
            }
            if plan.failure.is_none() {
                let package = &packages[k];
                match Rustup::remove_component_command(package, &removed) {
                    None => {},
                    Some(Ok(command)) => {
                        let ghost before = plan@.commands;
                        plan.commands.push(command);
                        assert(plan@.commands =~= before.push(command@));
                    },
                    Some(Err(failure)) => {
                        plan.failure = Some(failure);
                    },
                }
            }
            k += 1;
        }
        assert(all.take(packages.len() as int) =~= all);
        plan
    }
}

} // verus!
