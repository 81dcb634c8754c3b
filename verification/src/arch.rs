//! The backend for the system package manager of the Arch family, whose
//! repositories know named groups of packages.

use crate::config::Config;
use crate::package_map::{
    ascending, entries_of, has_key, index_of_key, lemma_to_map_at, names_of, to_map, NameSet,
    PackageMap,
};
use crate::failure::Failure;
use crate::process::{invocation, push_arg, push_args, Command, CommandView, Output, Perms, Step};
use crate::text::{lemma_precedes_trichotomy, lines, lines_of, precedes, push_text, texts};
use vstd::prelude::*;

verus! {

/// The backend itself; it holds no state.
#[derive(Debug, Copy, Clone, Default, PartialEq, Eq, PartialOrd, Ord)]
pub struct Arch;

/// What is known of an installed package: the manager tells nothing that is needed.
#[derive(Debug, Clone)]
pub struct ArchQueryInfo {}

impl View for ArchQueryInfo {
    type V = ();

    open spec fn view(&self) -> () {
        ()
    }
}

/// How a package is to be installed: together with these optional dependencies.
#[derive(Debug, PartialEq, Eq, PartialOrd, Ord)]
pub struct ArchInstallOptions {
    pub optional_deps: Vec<String>,
}

/// `ArchInstallOptions` as plain values.
pub struct ArchInstallOptionsView {
    pub optional_deps: Seq<Seq<char>>,
}

impl View for ArchInstallOptions {
    type V = ArchInstallOptionsView;

    open spec fn view(&self) -> ArchInstallOptionsView {
        ArchInstallOptionsView { optional_deps: texts(self.optional_deps@) }
    }
}

/// The options of a package that was declared without any.
pub open spec fn default_options() -> ArchInstallOptionsView {
    ArchInstallOptionsView { optional_deps: Seq::empty() }
}

impl Default for ArchInstallOptions {
    fn default() -> (options: Self)
        ensures
            options@ == default_options(),
    {
        let options = ArchInstallOptions { optional_deps: Vec::new() };
        assert(options@.optional_deps =~= Seq::<Seq<char>>::empty());
        options
    }
}

impl Clone for ArchInstallOptions {
    fn clone(&self) -> (options: Self)
        ensures
            options@ == self@,
    {
        let mut optional_deps: Vec<String> = Vec::new();
        let mut i: usize = 0;
        while i < self.optional_deps.len()
            invariant
                i <= self.optional_deps.len(),
                texts(optional_deps@) == texts(self.optional_deps@).take(i as int),
            decreases self.optional_deps.len() - i,
        {
            let dependency = self.optional_deps[i].clone();
            assert(dependency@ == texts(self.optional_deps@)[i as int]);
            push_text(&mut optional_deps, dependency);
            assert(texts(optional_deps@) =~= texts(self.optional_deps@).take(i + 1));
            i += 1;
        }
        assert(texts(self.optional_deps@).take(self.optional_deps@.len() as int) =~= texts(
            self.optional_deps@,
        ));
        ArchInstallOptions { optional_deps }
    }
}

/// Something that the operator should be told about the desired packages.
#[derive(Debug, Clone, PartialEq, Eq)]
pub enum Diagnostic {
    /// An entry for `package` was there already when the group `group` brought it.
    GroupOverride { package: String, group: String },
    /// An entry for `package` was there already when the package itself came.
    EntryOverride { package: String },
    /// An entry for `dependency` was there already when `package` brought it as
    /// one of its optional dependencies.
    DependencyOverride { dependency: String, package: String },
    /// `package` is not among the packages that can be installed, and was dropped.
    Unavailable { package: String },
}

/// A `Diagnostic` as plain values.
pub enum DiagnosticView {
    GroupOverride { package: Seq<char>, group: Seq<char> },
    EntryOverride { package: Seq<char> },
    DependencyOverride { dependency: Seq<char>, package: Seq<char> },
    Unavailable { package: Seq<char> },
}

impl View for Diagnostic {
    type V = DiagnosticView;

    open spec fn view(&self) -> DiagnosticView {
        match self {
            Diagnostic::GroupOverride { package, group } => DiagnosticView::GroupOverride {
                package: package@,
                group: group@,
            },
            Diagnostic::EntryOverride { package } => DiagnosticView::EntryOverride {
                package: package@,
            },
            Diagnostic::DependencyOverride { dependency, package } => {
                DiagnosticView::DependencyOverride { dependency: dependency@, package: package@ }
            },
            Diagnostic::Unavailable { package } => DiagnosticView::Unavailable {
                package: package@,
            },
        }
    }
}

/// The diagnostics that a vector of them stands for.
pub open spec fn notes(v: Seq<Diagnostic>) -> Seq<DiagnosticView> {
    Seq::new(v.len(), |i: int| v[i]@)
}

/// The desired packages while they are being normalized, with what has been noted
/// on the way.
pub struct Draft {
    pub packages: Map<Seq<char>, ArchInstallOptionsView>,
    pub diagnostics: Seq<DiagnosticView>,
}

/// `draft` with `options` held for `name`. Where something was held for `name`
/// before, it is gone and `note` is added to the diagnostics, once.
pub open spec fn insert_noting(
    draft: Draft,
    name: Seq<char>,
    options: ArchInstallOptionsView,
    note: DiagnosticView,
) -> Draft {
    Draft {
        packages: draft.packages.insert(name, options),
        diagnostics: if draft.packages.contains_key(name) {
            draft.diagnostics.push(note)
        } else {
            draft.diagnostics
        },
    }
}

/// `draft` after the members of `group` have been inserted one after the other,
/// each with the options of the group.
pub open spec fn with_members(
    draft: Draft,
    members: Seq<Seq<char>>,
    options: ArchInstallOptionsView,
    group: Seq<char>,
) -> Draft
    decreases members.len(),
{
    if members.len() == 0 {
        draft
    } else {
        insert_noting(
            with_members(draft, members.drop_last(), options, group),
            members.last(),
            options,
            DiagnosticView::GroupOverride { package: members.last(), group },
        )
    }
}

/// `draft` after the entry of `group`, if there is one, has been replaced by the
/// members of the group.
pub open spec fn expand_group_of(draft: Draft, group: Seq<char>, members: Seq<Seq<char>>) -> Draft {
    if draft.packages.contains_key(group) {
        with_members(
            Draft { packages: draft.packages.remove(group), diagnostics: draft.diagnostics },
            members,
            draft.packages[group],
            group,
        )
    } else {
        draft
    }
}

/// `draft` after the optional dependencies of `package` have been inserted one
/// after the other, each without options.
pub open spec fn with_dependencies(draft: Draft, dependencies: Seq<Seq<char>>, package: Seq<char>) -> Draft
    decreases dependencies.len(),
{
    if dependencies.len() == 0 {
        draft
    } else {
        insert_noting(
            with_dependencies(draft, dependencies.drop_last(), package),
            dependencies.last(),
            default_options(),
            DiagnosticView::DependencyOverride { dependency: dependencies.last(), package },
        )
    }
}

/// What `entries` come to when, one entry after the other, the package is inserted
/// with its options and then each of its optional dependencies without any;
/// `diagnostics` is what had been noted before.
pub open spec fn flattened(
    entries: Seq<(Seq<char>, ArchInstallOptionsView)>,
    diagnostics: Seq<DiagnosticView>,
) -> Draft
    decreases entries.len(),
{
    if entries.len() == 0 {
        Draft { packages: Map::empty(), diagnostics }
    } else {
        let entry = entries.last();
        with_dependencies(
            insert_noting(
                flattened(entries.drop_last(), diagnostics),
                entry.0,
                entry.1,
                DiagnosticView::EntryOverride { package: entry.0 },
            ),
            entry.1.optional_deps,
            entry.0,
        )
    }
}

/// `draft` with the optional dependencies of its entries made entries of their own.
pub open spec fn flatten_of(draft: Draft) -> Draft {
    flattened(entries_of(draft.packages), draft.diagnostics)
}

/// One note for each of `names` that is not `available`, in the order of `names`.
pub open spec fn unavailable_notes(names: Seq<Seq<char>>, available: Set<Seq<char>>) -> Seq<
    DiagnosticView,
>
    decreases names.len(),
{
    if names.len() == 0 {
        Seq::empty()
    } else {
        let rest = unavailable_notes(names.drop_last(), available);
        if available.contains(names.last()) {
            rest
        } else {
            rest.push(DiagnosticView::Unavailable { package: names.last() })
        }
    }
}

/// `draft` without the entries whose names are not `available`, each of them noted.
pub open spec fn retain_of(draft: Draft, available: Set<Seq<char>>) -> Draft {
    Draft {
        packages: draft.packages.restrict(available),
        diagnostics: draft.diagnostics + unavailable_notes(
            names_of(entries_of(draft.packages)),
            available,
        ),
    }
}

/// Holds `options` for `name` from now on. Where something was held for `name`
/// before, the new options replace it and `note` is added to `diagnostics`, once;
/// otherwise nothing is noted.
pub fn insert_with_diagnostic(
    packages: &mut PackageMap<ArchInstallOptions>,
    name: String,
    options: ArchInstallOptions,
    note: Diagnostic,
    diagnostics: &mut Vec<Diagnostic>,
)
    ensures
        final(packages)@ == old(packages)@.insert(name@, options@),
        final(packages)@[name@] == options@,
        old(packages)@.contains_key(name@) ==> notes(final(diagnostics)@) == notes(
            old(diagnostics)@,
        ).push(note@),
        !old(packages)@.contains_key(name@) ==> notes(final(diagnostics)@) == notes(
            old(diagnostics)@,
        ),
        (Draft { packages: final(packages)@, diagnostics: notes(final(diagnostics)@) })
            == insert_noting(
            (Draft { packages: old(packages)@, diagnostics: notes(old(diagnostics)@) }),
            name@,
            options@,
            note@,
        ),
{
    let overridden = packages.insert(name, options).is_some();
    if overridden {
        diagnostics.push(note);
        assert(notes(diagnostics@) =~= notes(old(diagnostics)@).push(note@));
    }
}

impl Arch {
    /// Replaces the entry of `group`, if `packages` has one, by the members of the
    /// group, each with the options that the group was desired with.
    pub fn expand_group(
        packages: &mut PackageMap<ArchInstallOptions>,
        group: &str,
        members: &Vec<String>,
        diagnostics: &mut Vec<Diagnostic>,
    )
        ensures
            (Draft { packages: final(packages)@, diagnostics: notes(final(diagnostics)@) })
                == expand_group_of(
                (Draft { packages: old(packages)@, diagnostics: notes(old(diagnostics)@) }),
                group@,
                texts(members@),
            ),
    {
        match packages.remove(group) {
            None => {
                assert(packages@ =~= old(packages)@);
            },
            Some(options) => {
                let ghost start = Draft {
                    packages: packages@,
                    diagnostics: notes(diagnostics@),
                };
                let ghost all = texts(members@);
                let mut i: usize = 0;
                assert(all.take(0) =~= Seq::<Seq<char>>::empty());
                while i < members.len()
                    invariant
                        i <= members.len(),
                        all == texts(members@),
                        (Draft { packages: packages@, diagnostics: notes(diagnostics@) })
                            == with_members(start, all.take(i as int), options@, group@),
                    decreases members.len() - i,
                {
                    let note = Diagnostic::GroupOverride {
                        package: members[i].clone(),
                        group: group.to_owned(),
                    };
                    proof {
                        assert(all.take(i + 1).drop_last() =~= all.take(i as int));
                        assert(all.take(i + 1).last() == all[i as int]);
                    }
                    insert_with_diagnostic(
                        packages,
                        members[i].clone(),
                        options.clone(),
                        note,
                        diagnostics,
                    );
                    i += 1;
                }
                assert(all.take(members.len() as int) =~= all);
            },
        }
    }

    /// Makes every optional dependency of an entry an entry of its own, without
    /// options. The entries themselves keep the options that they have.
    pub fn flatten_optional_deps(
        packages: &PackageMap<ArchInstallOptions>,
        diagnostics: &mut Vec<Diagnostic>,
    ) -> (flat: PackageMap<ArchInstallOptions>)
        ensures
            (Draft { packages: flat@, diagnostics: notes(final(diagnostics)@) }) == flatten_of(
                (Draft { packages: packages@, diagnostics: notes(old(diagnostics)@) }),
            ),
    {
        let mut flat: PackageMap<ArchInstallOptions> = PackageMap::new();
        let n = packages.len();
        let ghost entries = packages.entries();
        let ghost before = notes(diagnostics@);
        let mut i: usize = 0;
        assert(entries.take(0) =~= Seq::<(Seq<char>, ArchInstallOptionsView)>::empty());
        while i < n
            invariant
                i <= n,
                n == entries.len(),
                entries == packages.entries(),
                (Draft { packages: flat@, diagnostics: notes(diagnostics@) }) == flattened(
                    entries.take(i as int),
                    before,
                ),
            decreases n - i,
        {
            let package = packages.key(i);
            let options = packages.value(i);
            proof {
                assert(entries.take(i + 1).drop_last() =~= entries.take(i as int));
                assert(entries.take(i + 1).last() == entries[i as int]);
            }
            insert_with_diagnostic(
                &mut flat,
                package.clone(),
                options.clone(),
                Diagnostic::EntryOverride { package: package.clone() },
                diagnostics,
            );
            let ghost inserted = Draft { packages: flat@, diagnostics: notes(diagnostics@) };
            let ghost dependencies = texts(options.optional_deps@);
            let mut j: usize = 0;
            assert(dependencies.take(0) =~= Seq::<Seq<char>>::empty());
            while j < options.optional_deps.len()
                invariant
                    j <= options.optional_deps.len(),
                    dependencies == texts(options.optional_deps@),
                    (Draft { packages: flat@, diagnostics: notes(diagnostics@) })
                        == with_dependencies(inserted, dependencies.take(j as int), package@),
                decreases options.optional_deps.len() - j,
            {
                let dependency = &options.optional_deps[j];
                proof {
                    assert(dependencies.take(j + 1).drop_last() =~= dependencies.take(j as int));
                    assert(dependencies.take(j + 1).last() == dependencies[j as int]);
                }
                insert_with_diagnostic(
                    &mut flat,
                    dependency.clone(),
                    ArchInstallOptions::default(),
                    Diagnostic::DependencyOverride {
                        dependency: dependency.clone(),
                        package: package.clone(),
                    },
                    diagnostics,
                );
                j += 1;
            }
            assert(dependencies.take(options.optional_deps.len() as int) =~= dependencies);
            i += 1;
        }
        assert(entries.take(n as int) =~= entries);
        flat
    }

    /// Drops every entry whose name is not among the packages that can be
    /// installed, and notes each of them.
    pub fn retain_available(
        packages: &mut PackageMap<ArchInstallOptions>,
        available: &NameSet,
        diagnostics: &mut Vec<Diagnostic>,
    )
        ensures
            (Draft { packages: final(packages)@, diagnostics: notes(final(diagnostics)@) })
                == retain_of(
                (Draft { packages: old(packages)@, diagnostics: notes(old(diagnostics)@) }),
                available@,
            ),
    {
        let n = packages.len();
        let ghost initial = packages@;
        let ghost entries = packages.entries();
        let ghost names = names_of(entries);
        let ghost before = notes(diagnostics@);
        let mut candidates: Vec<String> = Vec::new();
        let mut i: usize = 0;
        while i < n
            invariant
                i <= n,
                n == entries.len(),
                entries == packages.entries(),
                names == names_of(entries),
                texts(candidates@) == names.take(i as int),
            decreases n - i,
        {
            let candidate = packages.key(i).clone();
            assert(candidate@ == names[i as int]);
            push_text(&mut candidates, candidate);
            assert(texts(candidates@) =~= names.take(i + 1));
            i += 1;
        }
        assert(names.take(n as int) =~= names);
        let mut k: usize = 0;
        assert(names.take(0) =~= Seq::<Seq<char>>::empty());
        assert(before + Seq::<DiagnosticView>::empty() =~= before);
        while k < candidates.len()
            invariant
                k <= candidates.len(),
                candidates.len() == entries.len(),
                texts(candidates@) == names,
                names == names_of(entries),
                ascending(entries),
                initial == to_map(entries),
                notes(diagnostics@) == before + unavailable_notes(names.take(k as int), available@),
                forall|name: Seq<char>|
                    packages@.contains_key(name) <==> initial.contains_key(name) && (
                    available@.contains(name) || !has_key(entries.take(k as int), name)),
                forall|name: Seq<char>| #[trigger]
                    packages@.contains_key(name) ==> packages@[name] == initial[name],
            decreases candidates.len() - k,
        {
            let name = &candidates[k];
            let ghost kept = packages@;
            let ghost seen = entries.take(k as int);
            let ghost seen_next = entries.take(k + 1);
            proof {
                assert(name@ == texts(candidates@)[k as int]);
                assert(names[k as int] == entries[k as int].0);
                assert(names.take(k + 1).drop_last() =~= names.take(k as int));
                assert(names.take(k + 1).last() == names[k as int]);
                assert forall|key: Seq<char>| has_key(seen_next, key) <==> (has_key(seen, key)
                    || key == name@) by {
                    if has_key(seen_next, key) {
                        let j = index_of_key(seen_next, key);
                        if j < k {
                            assert(seen[j] == seen_next[j]);
                        }
                    }
                    if has_key(seen, key) {
                        let j = index_of_key(seen, key);
                        assert(seen_next[j] == seen[j]);
                    }
                    assert(seen_next[k as int] == entries[k as int]);
                }
            }
            if !available.contains(name.as_str()) {
                packages.remove(name.as_str());
                let ghost noted = notes(diagnostics@);
                diagnostics.push(Diagnostic::Unavailable { package: name.clone() });
                assert(notes(diagnostics@) =~= noted.push(
                    DiagnosticView::Unavailable { package: name@ },
                ));
                assert(before + unavailable_notes(names.take(k as int), available@).push(
                    DiagnosticView::Unavailable { package: name@ },
                ) =~= notes(diagnostics@));
            }
            proof {
                assert forall|key: Seq<char>|
                    packages@.contains_key(key) <==> initial.contains_key(key) && (
                    available@.contains(key) || !has_key(seen_next, key)) by {
                    assert(kept.contains_key(key) <==> initial.contains_key(key) && (
                    available@.contains(key) || !has_key(seen, key)));
                    assert(has_key(seen_next, key) <==> (has_key(seen, key) || key == name@));
                }
                assert forall|key: Seq<char>| #[trigger] packages@.contains_key(key) implies packages@[key]
                    == initial[key] by {
                    assert(kept.contains_key(key));
                }
            }
            k += 1;
        }
        proof {
            assert(names.take(candidates.len() as int) =~= names);
            assert(entries.take(candidates.len() as int) =~= entries);
            assert(packages@ =~= initial.restrict(available@));
        }
    }
}

/// The invocation that asks the manager for its version.
pub open spec fn version_command(manager: Seq<char>) -> CommandView {
    CommandView { args: seq![manager] + seq!["--version"@], perms: Perms::Same }
}

/// The invocation that lists the names of the groups.
pub open spec fn groups_command(manager: Seq<char>) -> CommandView {
    CommandView {
        args: seq![manager] + seq!["--sync"@, "--groups"@, "--quiet"@],
        perms: Perms::Same,
    }
}

/// The invocation that lists the members of `group`.
pub open spec fn members_command(manager: Seq<char>, group: Seq<char>) -> CommandView {
    CommandView {
        args: (seq![manager] + seq!["--sync"@, "--groups"@, "--quiet"@]).push(group),
        perms: Perms::Same,
    }
}

/// The invocation that lists every package that can be installed.
pub open spec fn list_command(manager: Seq<char>) -> CommandView {
    CommandView {
        args: seq![manager] + seq!["--sync"@, "--list"@, "--quiet"@],
        perms: Perms::Same,
    }
}

/// The invocation that lists the packages that were installed explicitly.
pub open spec fn explicit_command(manager: Seq<char>) -> CommandView {
    CommandView {
        args: seq![manager] + seq!["--query"@, "--explicit"@, "--quiet"@],
        perms: Perms::Same,
    }
}

/// The optional dependencies of all `entries`, in the order of the entries.
pub open spec fn all_dependencies(entries: Seq<(Seq<char>, ArchInstallOptionsView)>) -> Seq<
    Seq<char>,
>
    decreases entries.len(),
{
    if entries.len() == 0 {
        Seq::empty()
    } else {
        all_dependencies(entries.drop_last()) + entries.last().1.optional_deps
    }
}

/// The switch that spares the operator the questions of the manager, if asked for.
pub open spec fn confirm_switch(no_confirm: bool, switch: Seq<char>) -> Seq<Seq<char>> {
    if no_confirm {
        seq![switch]
    } else {
        Seq::empty()
    }
}

/// The invocation that installs `entries` as explicit: the names first, then the
/// optional dependencies that they were desired with.
pub open spec fn install_command(
    manager: Seq<char>,
    perms: Perms,
    no_confirm: bool,
    entries: Seq<(Seq<char>, ArchInstallOptionsView)>,
) -> CommandView {
    CommandView {
        args: seq![manager] + seq!["--sync"@, "--asexplicit"@] + confirm_switch(
            no_confirm,
            "--noconfirm"@,
        ) + names_of(entries) + all_dependencies(entries),
        perms,
    }
}

/// The invocation that marks `names` as installed for the sake of others.
pub open spec fn mark_command(manager: Seq<char>, perms: Perms, names: Seq<Seq<char>>) -> CommandView {
    CommandView { args: seq![manager] + seq!["--database"@, "--asdeps"@] + names, perms }
}

/// The invocation that lists the packages that nothing requires any more.
pub open spec fn orphans_command(manager: Seq<char>) -> CommandView {
    CommandView {
        args: seq![manager] + seq!["--query"@, "--deps"@, "--unrequired"@, "--quiet"@],
        perms: Perms::Same,
    }
}

/// The invocation that removes `orphans` with what only they require, saving no
/// configuration files.
pub open spec fn sweep_command(
    manager: Seq<char>,
    perms: Perms,
    no_confirm: bool,
    orphans: Seq<Seq<char>>,
) -> CommandView {
    CommandView {
        args: seq![manager] + seq!["--remove"@, "--nosave"@, "--recursive"@] + confirm_switch(
            no_confirm,
            "--noconfirm"@,
        ) + orphans,
        perms,
    }
}

/// The invocation that cleans the cache of the manager.
pub open spec fn clean_command(manager: Seq<char>) -> CommandView {
    CommandView { args: seq![manager] + seq!["-Sc"@], perms: Perms::Same }
}

/// The index of the first of `groups`, at or after `from`, that `packages` has an
/// entry for; `groups.len()` where there is none.
pub open spec fn next_group_from(
    packages: Map<Seq<char>, ArchInstallOptionsView>,
    groups: Seq<Seq<char>>,
    from: int,
) -> int
    decreases groups.len() - from,
{
    if from >= groups.len() {
        groups.len() as int
    } else if packages.contains_key(groups[from]) {
        from
    } else {
        next_group_from(packages, groups, from + 1)
    }
}

/// The desired packages in normal form, with what was noted on the way.
#[derive(Debug)]
pub struct Normalized {
    pub packages: PackageMap<ArchInstallOptions>,
    pub diagnostics: Vec<Diagnostic>,
}

/// Where the normalization of the desired packages stands: what was asked of the
/// manager last, and what is known so far.
pub enum Normalizing {
    /// The version was asked for.
    Probing { packages: PackageMap<ArchInstallOptions> },
    /// The names of the groups were asked for.
    ListingGroups { packages: PackageMap<ArchInstallOptions> },
    /// The members of `group` were asked for; the groups from `groups[next]` on
    /// are still to be looked at.
    ListingMembers {
        packages: PackageMap<ArchInstallOptions>,
        group: String,
        groups: Vec<String>,
        next: usize,
        diagnostics: Vec<Diagnostic>,
    },
    /// The packages that can be installed were asked for; groups and optional
    /// dependencies are dealt with.
    ListingPackages { packages: PackageMap<ArchInstallOptions>, diagnostics: Vec<Diagnostic> },
}

/// What follows once `draft` holds the expansion of all groups before
/// `groups[from]`: the members of the next group that has an entry are asked for,
/// or, where no group is left, the optional dependencies are flattened and the
/// packages that can be installed are asked for.
pub open spec fn expansion_continues(
    step: Step<Normalizing, Result<Normalized, Failure>>,
    draft: Draft,
    groups: Seq<Seq<char>>,
    from: int,
    manager: Seq<char>,
) -> bool {
    let at = next_group_from(draft.packages, groups, from);
    if at < groups.len() {
        &&& step matches Step::Capture(
            command,
            Normalizing::ListingMembers { packages, group, groups: rest, next, diagnostics },
        )
        &&& command@ == members_command(manager, groups[at])
        &&& packages@ == draft.packages
        &&& group@ == groups[at]
        &&& texts(rest@) == groups
        &&& next == at + 1
        &&& notes(diagnostics@) == draft.diagnostics
    } else {
        &&& step matches Step::Capture(command, Normalizing::ListingPackages { packages, diagnostics })
        &&& command@ == list_command(manager)
        &&& (Draft { packages: packages@, diagnostics: notes(diagnostics@) }) == flatten_of(draft)
    }
}

/// How far the removal of packages has come: what was asked of the manager last.
#[derive(Debug, Clone, Copy, PartialEq, Eq, Structural)]
pub enum Removing {
    /// The packages were to be marked as installed for the sake of others.
    Marking,
    /// The packages that nothing requires any more were asked for.
    ListingOrphans,
    /// Those packages were to be removed.
    Sweeping,
}

impl Arch {
    /// The invocation that asks the manager for its version. Where it fails the
    /// manager is taken to be absent.
    pub fn version(config: &Config) -> (command: Command)
        ensures
            command@ == version_command(config.arch_package_manager.command@),
    {
        let command = invocation(
            config.arch_package_manager.as_command(),
            &["--version"],
            Perms::Same,
        );
        assert(command@.args =~= version_command(config.arch_package_manager.command@).args);
        command
    }

    fn continue_expansion(
        packages: PackageMap<ArchInstallOptions>,
        groups: Vec<String>,
        from: usize,
        diagnostics: Vec<Diagnostic>,
        config: &Config,
    ) -> (step: Step<Normalizing, Result<Normalized, Failure>>)
        ensures
            expansion_continues(
                step,
                (Draft { packages: packages@, diagnostics: notes(diagnostics@) }),
                texts(groups@),
                from as int,
                config.arch_package_manager.command@,
            ),
    {
        let mut at: usize = from;
        while at < groups.len() && !packages.contains_key(groups[at].as_str())
            invariant
                from <= at,
                next_group_from(packages@, texts(groups@), from as int) == next_group_from(
                    packages@,
                    texts(groups@),
                    at as int,
                ),
            decreases groups.len() - at,
        {
            at += 1;
        }
        let manager = config.arch_package_manager.as_command();
        if at < groups.len() {
            let mut command = invocation(manager, &["--sync", "--groups", "--quiet"], Perms::Same);
            let group = groups[at].clone();
            push_arg(&mut command.args, group.as_str());
            assert(group@ == texts(groups@)[at as int]);
            assert(command@.args =~= members_command(manager@, group@).args);
            Step::Capture(
                command,
                Normalizing::ListingMembers { packages, group, groups, next: at + 1, diagnostics },
            )
        } else {
            let mut diagnostics = diagnostics;
            let flat = Arch::flatten_optional_deps(&packages, &mut diagnostics);
            let command = invocation(manager, &["--sync", "--list", "--quiet"], Perms::Same);
            assert(command@.args =~= list_command(manager@).args);
            Step::Capture(command, Normalizing::ListingPackages { packages: flat, diagnostics })
        }
    }

    /// Begins to bring the desired packages into normal form: groups replaced by
    /// their members, optional dependencies made entries of their own, and what
    /// cannot be installed dropped. The first thing to do is to ask the manager for
    /// its version.
    pub fn map_managed_packages(packages: PackageMap<ArchInstallOptions>, config: &Config) -> (step:
        Step<Normalizing, Result<Normalized, Failure>>)
        ensures
            step matches Step::Capture(command, Normalizing::Probing { packages: kept })
                && command@ == version_command(config.arch_package_manager.command@) && kept@
                == packages@,
    {
        Step::Capture(Arch::version(config), Normalizing::Probing { packages })
    }

    /// Goes on with the normalization now that the `output` of what was asked for
    /// last is known.
    ///
    /// Without a version the manager is absent and the normal form is empty, which
    /// is no failure. Any other invocation that fails ends the normalization with
    /// that failure. The groups are looked at in the order in which the manager
    /// lists them, and the members of a group are asked for only if the packages
    /// have an entry for it at that moment.
    pub fn resume_map_managed_packages(state: Normalizing, output: &Output, config: &Config) -> (step:
        Step<Normalizing, Result<Normalized, Failure>>)
        ensures
            match state {
                Normalizing::Probing { packages } => if output.success {
                    step matches Step::Capture(command, Normalizing::ListingGroups { packages: kept })
                        && command@ == groups_command(config.arch_package_manager.command@)
                        && kept@ == packages@
                } else {
                    step matches Step::Finish(Ok(normalized)) && normalized.packages@ == Map::<
                        Seq<char>,
                        ArchInstallOptionsView,
                    >::empty() && notes(normalized.diagnostics@) == Seq::<DiagnosticView>::empty()
                },
                Normalizing::ListingGroups { packages } => if output.success {
                    expansion_continues(
                        step,
                        (Draft { packages: packages@, diagnostics: Seq::empty() }),
                        lines_of(output.stdout@),
                        0,
                        config.arch_package_manager.command@,
                    )
                } else {
                    step matches Step::Finish(Err(error)) && error == Failure::CommandFailed
                },
                Normalizing::ListingMembers { packages, group, groups, next, diagnostics } => if output.success {
                    expansion_continues(
                        step,
                        expand_group_of(
                            (Draft { packages: packages@, diagnostics: notes(diagnostics@) }),
                            group@,
                            lines_of(output.stdout@),
                        ),
                        texts(groups@),
                        next as int,
                        config.arch_package_manager.command@,
                    )
                } else {
                    step matches Step::Finish(Err(error)) && error == Failure::CommandFailed
                },
                Normalizing::ListingPackages { packages, diagnostics } => if output.success {
                    step matches Step::Finish(Ok(normalized)) && (Draft {
                        packages: normalized.packages@,
                        diagnostics: notes(normalized.diagnostics@),
                    }) == retain_of(
                        (Draft { packages: packages@, diagnostics: notes(diagnostics@) }),
                        lines_of(output.stdout@).to_set(),
                    )
                } else {
                    step matches Step::Finish(Err(error)) && error == Failure::CommandFailed
                },
            },
    {
        match state {
            Normalizing::Probing { packages } => {
                if output.success {
                    let command = invocation(
                        config.arch_package_manager.as_command(),
                        &["--sync", "--groups", "--quiet"],
                        Perms::Same,
                    );
                    assert(command@.args =~= groups_command(
                        config.arch_package_manager.command@,
                    ).args);
                    Step::Capture(command, Normalizing::ListingGroups { packages })
                } else {
                    let diagnostics: Vec<Diagnostic> = Vec::new();
                    assert(notes(diagnostics@) =~= Seq::<DiagnosticView>::empty());
                    Step::Finish(Ok(Normalized { packages: PackageMap::new(), diagnostics }))
                }
            },
            Normalizing::ListingGroups { packages } => {
                if output.success {
                    let groups = lines(output.stdout.as_str());
                    let diagnostics: Vec<Diagnostic> = Vec::new();
                    assert(notes(diagnostics@) =~= Seq::<DiagnosticView>::empty());
                    Arch::continue_expansion(packages, groups, 0, diagnostics, config)
                } else {
                    Step::Finish(Err(Failure::CommandFailed))
                }
            },
            Normalizing::ListingMembers { packages, group, groups, next, diagnostics } => {
                if output.success {
                    let members = lines(output.stdout.as_str());
                    let mut packages = packages;
                    let mut diagnostics = diagnostics;
                    Arch::expand_group(&mut packages, group.as_str(), &members, &mut diagnostics);
                    Arch::continue_expansion(packages, groups, next, diagnostics, config)
                } else {
                    Step::Finish(Err(Failure::CommandFailed))
                }
            },
            Normalizing::ListingPackages { packages, diagnostics } => {
                if output.success {
                    let available = NameSet::from_names(&lines(output.stdout.as_str()));
                    let mut packages = packages;
                    let mut diagnostics = diagnostics;
                    Arch::retain_available(&mut packages, &available, &mut diagnostics);
                    Step::Finish(Ok(Normalized { packages, diagnostics }))
                } else {
                    Step::Finish(Err(Failure::CommandFailed))
                }
            },
        }
    }

    /// The invocation that lists the packages that were installed explicitly.
    pub fn explicit_listing(config: &Config) -> (command: Command)
        ensures
            command@ == explicit_command(config.arch_package_manager.command@),
    {
        let command = invocation(
            config.arch_package_manager.as_command(),
            &["--query", "--explicit", "--quiet"],
            Perms::Same,
        );
        assert(command@.args =~= explicit_command(config.arch_package_manager.command@).args);
        command
    }

    /// The installed packages, from what `explicit_listing` printed: one package
    /// for each line. No listing stands for an absent manager, which has nothing
    /// installed.
    pub fn query_installed_packages(listing: Option<&str>) -> (installed: PackageMap<ArchQueryInfo>)
        ensures
            installed@.dom() == match listing {
                Some(text) => lines_of(text@).to_set(),
                None => Set::<Seq<char>>::empty(),
            },
    {
        let mut installed: PackageMap<ArchQueryInfo> = PackageMap::new();
        match listing {
            None => {},
            Some(text) => {
                let names = lines(text);
                let ghost all = texts(names@);
                let mut i: usize = 0;
                assert(all.take(0).to_set() =~= Set::<Seq<char>>::empty());
                while i < names.len()
                    invariant
                        i <= names.len(),
                        all == texts(names@),
                        installed@.dom() == all.take(i as int).to_set(),
                    decreases names.len() - i,
                {
                    installed.insert(names[i].clone(), ArchQueryInfo {  });
                    proof {
                        assert(all.take(i + 1) =~= all.take(i as int).push(all[i as int]));
                        all.take(i as int).lemma_push_to_set_commute(all[i as int]);
                        assert(installed@.dom() =~= all.take(i + 1).to_set());
                    }
                    i += 1;
                }
                assert(all.take(names.len() as int) =~= all);
            },
        }
        installed
    }

    /// The invocation that installs `packages` as explicit, or none where there is
    /// nothing to install.
    pub fn install_packages(
        packages: &PackageMap<ArchInstallOptions>,
        no_confirm: bool,
        config: &Config,
    ) -> (command: Option<Command>)
        ensures
            packages.entries().len() == 0 ==> command is None,
            packages.entries().len() > 0 ==> (command matches Some(c) && c@ == install_command(
                config.arch_package_manager.command@,
                config.arch_package_manager.perms,
                no_confirm,
                packages.entries(),
            )),
    {
        let n = packages.len();
        if n == 0 {
            return None;
        }
        let manager = config.arch_package_manager.as_command();
        let mut command = invocation(
            manager,
            &["--sync", "--asexplicit"],
            config.arch_package_manager.change_perms(),
        );
        if no_confirm {
            push_arg(&mut command.args, "--noconfirm");
        }
        let ghost entries = packages.entries();
        let ghost head = seq![manager@] + seq!["--sync"@, "--asexplicit"@] + confirm_switch(
            no_confirm,
            "--noconfirm"@,
        );
        assert(texts(command.args@) =~= head + names_of(entries).take(0));
        let mut i: usize = 0;
        while i < n
            invariant
                i <= n,
                n == entries.len(),
                entries == packages.entries(),
                texts(command.args@) == head + names_of(entries).take(i as int),
                command.perms == config.arch_package_manager.perms,
            decreases n - i,
        {
            let ghost before = texts(command.args@);
            push_arg(&mut command.args, packages.key(i).as_str());
            assert(before.push(entries[i as int].0) =~= head + names_of(entries).take(i + 1));
            i += 1;
        }
        assert(names_of(entries).take(n as int) =~= names_of(entries));
        let ghost named = head + names_of(entries);
        let mut k: usize = 0;
        assert(entries.take(0) =~= Seq::<(Seq<char>, ArchInstallOptionsView)>::empty());
        assert(named + Seq::<Seq<char>>::empty() =~= named);
        while k < n
            invariant
                k <= n,
                n == entries.len(),
                entries == packages.entries(),
                texts(command.args@) == named + all_dependencies(entries.take(k as int)),
                command.perms == config.arch_package_manager.perms,
            decreases n - k,
        {
            let ghost before = texts(command.args@);
            let options = packages.value(k);
            push_args(&mut command.args, &options.optional_deps);
            proof {
                assert(entries.take(k + 1).drop_last() =~= entries.take(k as int));
                assert(entries.take(k + 1).last() == entries[k as int]);
                assert(before + texts(options.optional_deps@) =~= named + all_dependencies(
                    entries.take(k + 1),
                ));
            }
            k += 1;
        }
        assert(entries.take(n as int) =~= entries);
        Some(command)
    }

    /// Begins the removal of `packages`. They are not removed at once: they are
    /// marked as installed for the sake of others, and then everything that nothing
    /// requires any more is removed. With nothing to remove nothing is done.
    pub fn remove_packages(packages: &NameSet, config: &Config) -> (step: Step<
        Removing,
        Result<(), Failure>,
    >)
        ensures
            packages.names().len() == 0 ==> (step matches Step::Finish(Ok(_))),
            packages.names().len() > 0 ==> (step matches Step::Run(command, Removing::Marking)
                && command@ == mark_command(
                config.arch_package_manager.command@,
                config.arch_package_manager.perms,
                packages.names(),
            )),
    {
        let n = packages.len();
        if n == 0 {
            return Step::Finish(Ok(()));
        }
        let manager = config.arch_package_manager.as_command();
        let mut command = invocation(
            manager,
            &["--database", "--asdeps"],
            config.arch_package_manager.change_perms(),
        );
        let ghost head = seq![manager@] + seq!["--database"@, "--asdeps"@];
        let ghost names = packages.names();
        assert(texts(command.args@) =~= head + names.take(0));
        let mut i: usize = 0;
        while i < n
            invariant
                i <= n,
                n == names.len(),
                names == packages.names(),
                texts(command.args@) == head + names.take(i as int),
                command.perms == config.arch_package_manager.perms,
            decreases n - i,
        {
            let ghost before = texts(command.args@);
            push_arg(&mut command.args, packages.name(i).as_str());
            assert(before.push(names[i as int]) =~= head + names.take(i + 1));
            i += 1;
        }
        assert(names.take(n as int) =~= names);
        Step::Run(command, Removing::Marking)
    }

    /// Goes on with the removal now that the `output` of what was asked for last is
    /// known. The order is fixed: mark, list what nothing requires, remove what was
    /// listed. An invocation that fails ends the removal with that failure.
    pub fn resume_remove_packages(
        state: Removing,
        output: &Output,
        no_confirm: bool,
        config: &Config,
    ) -> (step: Step<Removing, Result<(), Failure>>)
        ensures
            !output.success ==> (step matches Step::Finish(Err(error)) && error
                == Failure::CommandFailed),
            output.success ==> match state {
                Removing::Marking => step matches Step::Capture(command, Removing::ListingOrphans)
                    && command@ == orphans_command(config.arch_package_manager.command@),
                Removing::ListingOrphans => step matches Step::Run(command, Removing::Sweeping)
                    && command@ == sweep_command(
                    config.arch_package_manager.command@,
                    config.arch_package_manager.perms,
                    no_confirm,
                    lines_of(output.stdout@),
                ),
                Removing::Sweeping => step matches Step::Finish(Ok(_)),
            },
    {
        if !output.success {
            return Step::Finish(Err(Failure::CommandFailed));
        }
        let manager = config.arch_package_manager.as_command();
        match state {
            Removing::Marking => {
                let command = invocation(
                    manager,
                    &["--query", "--deps", "--unrequired", "--quiet"],
                    Perms::Same,
                );
                assert(command@.args =~= orphans_command(manager@).args);
                Step::Capture(command, Removing::ListingOrphans)
            },
            Removing::ListingOrphans => {
                let mut command = invocation(
                    manager,
                    &["--remove", "--nosave", "--recursive"],
                    config.arch_package_manager.change_perms(),
                );
                if no_confirm {
                    push_arg(&mut command.args, "--noconfirm");
                }
                let orphans = lines(output.stdout.as_str());
                let ghost before = texts(command.args@);
                assert(before =~= seq![manager@] + seq!["--remove"@, "--nosave"@, "--recursive"@]
                    + confirm_switch(no_confirm, "--noconfirm"@));
                push_args(&mut command.args, &orphans);
                Step::Run(command, Removing::Sweeping)
            },
            Removing::Sweeping => Step::Finish(Ok(())),
        }
    }

    /// The invocation that cleans the cache of the manager, or none where the
    /// manager is absent, in which case there is nothing to clean.
    pub fn clean_cache(reachable: bool, config: &Config) -> (command: Option<Command>)
        ensures
            !reachable ==> command is None,
            reachable ==> (command matches Some(c) && c@ == clean_command(
                config.arch_package_manager.command@,
            )),
    {
        if reachable {
            let command = invocation(
                config.arch_package_manager.as_command(),
                &["-Sc"],
                Perms::Same,
            );
            assert(command@.args =~= clean_command(config.arch_package_manager.command@).args);
            Some(command)
        } else {
            None
        }
    }
}

/// What inserting the members of a group comes to: every member is held with the
/// options of the group, and nothing else has changed.
pub proof fn lemma_with_members(
    draft: Draft,
    members: Seq<Seq<char>>,
    options: ArchInstallOptionsView,
    group: Seq<char>,
)
    ensures
        forall|name: Seq<char>|
            #![trigger with_members(draft, members, options, group).packages.contains_key(name)]
            with_members(draft, members, options, group).packages.contains_key(name) <==> (
            draft.packages.contains_key(name) || members.contains(name)),
        forall|name: Seq<char>|
            #![trigger with_members(draft, members, options, group).packages[name]]
            members.contains(name) ==> with_members(draft, members, options, group).packages[name]
                == options,
        forall|name: Seq<char>|
            #![trigger with_members(draft, members, options, group).packages[name]]
            !members.contains(name) ==> with_members(draft, members, options, group).packages[name]
                == draft.packages[name],
    decreases members.len(),
{
    if members.len() > 0 {
        let rest = members.drop_last();
        lemma_with_members(draft, rest, options, group);
        let before = with_members(draft, rest, options, group).packages;
        let after = with_members(draft, members, options, group).packages;
        assert(after == before.insert(members.last(), options));
        assert forall|name: Seq<char>| members.contains(name) <==> (rest.contains(name) || name
            == members.last()) by {
            if members.contains(name) {
                let i = choose|i: int| 0 <= i < members.len() && members[i] == name;
                if i < rest.len() {
                    assert(rest[i] == name);
                }
            }
            if rest.contains(name) {
                let i = choose|i: int| 0 <= i < rest.len() && rest[i] == name;
                assert(members[i] == name);
            }
            assert(members[members.len() - 1] == members.last());
        }
        assert forall|name: Seq<char>|
            #![trigger after.contains_key(name)]
            after.contains_key(name) <==> (draft.packages.contains_key(name) || members.contains(
                name,
            )) by {
            assert(before.contains_key(name) <==> (draft.packages.contains_key(name)
                || rest.contains(name)));
        }
        assert forall|name: Seq<char>| #![trigger after[name]] members.contains(name) implies after[name]
            == options by {
            if name != members.last() {
                assert(before[name] == options);
            }
        }
        assert forall|name: Seq<char>| #![trigger after[name]] !members.contains(name) implies after[name]
            == draft.packages[name] by {
            assert(before[name] == draft.packages[name]);
        }
    }
}

/// A desired entry that names a group is replaced by the members of the group,
/// each held with the options that the group was desired with. The entry of the
/// group itself is gone, unless the group is one of its own members, and the other
/// entries are as they were.
pub proof fn lemma_group_replaced_by_members(
    draft: Draft,
    group: Seq<char>,
    members: Seq<Seq<char>>,
)
    requires
        draft.packages.contains_key(group),
    ensures
        forall|name: Seq<char>|
            #![trigger expand_group_of(draft, group, members).packages.contains_key(name)]
            members.contains(name) ==> expand_group_of(draft, group, members).packages.contains_key(
                name,
            ) && expand_group_of(draft, group, members).packages[name] == draft.packages[group],
        !members.contains(group) ==> !expand_group_of(draft, group, members).packages.contains_key(
            group,
        ),
        forall|name: Seq<char>|
            #![trigger expand_group_of(draft, group, members).packages.contains_key(name)]
            !members.contains(name) && name != group ==> (expand_group_of(
                draft,
                group,
                members,
            ).packages.contains_key(name) <==> draft.packages.contains_key(name)) && expand_group_of(
                draft,
                group,
                members,
            ).packages[name] == draft.packages[name],
{
    let start = Draft { packages: draft.packages.remove(group), diagnostics: draft.diagnostics };
    lemma_with_members(start, members, draft.packages[group], group);
    let expanded = with_members(start, members, draft.packages[group], group).packages;
    assert forall|name: Seq<char>|
        #![trigger expanded.contains_key(name)]
        members.contains(name) implies expanded.contains_key(name) && expanded[name]
        == draft.packages[group] by {}
    assert forall|name: Seq<char>|
        #![trigger expanded.contains_key(name)]
        !members.contains(name) && name != group implies (expanded.contains_key(name)
        <==> draft.packages.contains_key(name)) && expanded[name] == draft.packages[name] by {
        assert(expanded[name] == start.packages[name]);
    }
}

/// A group that has no entry leaves the desired packages as they are.
pub proof fn lemma_group_without_entry(draft: Draft, group: Seq<char>, members: Seq<Seq<char>>)
    requires
        !draft.packages.contains_key(group),
    ensures
        expand_group_of(draft, group, members) == draft,
{
}

/// What inserting the optional dependencies of a package comes to: every one of
/// them is held without options, and nothing else has changed.
pub proof fn lemma_with_dependencies(draft: Draft, dependencies: Seq<Seq<char>>, package: Seq<char>)
    ensures
        forall|name: Seq<char>|
            #![trigger with_dependencies(draft, dependencies, package).packages.contains_key(name)]
            with_dependencies(draft, dependencies, package).packages.contains_key(name) <==> (
            draft.packages.contains_key(name) || dependencies.contains(name)),
        forall|name: Seq<char>|
            #![trigger with_dependencies(draft, dependencies, package).packages[name]]
            dependencies.contains(name) ==> with_dependencies(
                draft,
                dependencies,
                package,
            ).packages[name] == default_options(),
        forall|name: Seq<char>|
            #![trigger with_dependencies(draft, dependencies, package).packages[name]]
            !dependencies.contains(name) ==> with_dependencies(
                draft,
                dependencies,
                package,
            ).packages[name] == draft.packages[name],
    decreases dependencies.len(),
{
    if dependencies.len() > 0 {
        let rest = dependencies.drop_last();
        lemma_with_dependencies(draft, rest, package);
        let before = with_dependencies(draft, rest, package).packages;
        let after = with_dependencies(draft, dependencies, package).packages;
        assert(after == before.insert(dependencies.last(), default_options()));
        assert forall|name: Seq<char>| dependencies.contains(name) <==> (rest.contains(name)
            || name == dependencies.last()) by {
            if dependencies.contains(name) {
                let i = choose|i: int| 0 <= i < dependencies.len() && dependencies[i] == name;
                if i < rest.len() {
                    assert(rest[i] == name);
                }
            }
            if rest.contains(name) {
                let i = choose|i: int| 0 <= i < rest.len() && rest[i] == name;
                assert(dependencies[i] == name);
            }
            assert(dependencies[dependencies.len() - 1] == dependencies.last());
        }
        assert forall|name: Seq<char>|
            #![trigger after.contains_key(name)]
            after.contains_key(name) <==> (draft.packages.contains_key(name)
                || dependencies.contains(name)) by {
            assert(before.contains_key(name) <==> (draft.packages.contains_key(name)
                || rest.contains(name)));
        }
        assert forall|name: Seq<char>| #![trigger after[name]] dependencies.contains(name) implies after[name]
            == default_options() by {
            if name != dependencies.last() {
                assert(before[name] == default_options());
            }
        }
        assert forall|name: Seq<char>| #![trigger after[name]] !dependencies.contains(name) implies after[name]
            == draft.packages[name] by {
            assert(before[name] == draft.packages[name]);
        }
    }
}

/// Whether `name` is the name of one of `entries` or one of their optional
/// dependencies.
pub open spec fn named_by(entries: Seq<(Seq<char>, ArchInstallOptionsView)>, name: Seq<char>) -> bool {
    exists|i: int|
        0 <= i < entries.len() && ((#[trigger] entries[i]).0 == name
            || entries[i].1.optional_deps.contains(name))
}

/// Whether `name` is an optional dependency of one of `entries`.
pub open spec fn is_dependency(
    entries: Seq<(Seq<char>, ArchInstallOptionsView)>,
    name: Seq<char>,
) -> bool {
    exists|i: int|
        0 <= i < entries.len() && (#[trigger] entries[i]).1.optional_deps.contains(name)
}

/// After flattening, the entries are the packages and their optional dependencies.
/// A package that is no optional dependency of another keeps its options, and what
/// is only an optional dependency has none.
pub proof fn lemma_flattened(
    entries: Seq<(Seq<char>, ArchInstallOptionsView)>,
    diagnostics: Seq<DiagnosticView>,
)
    requires
        ascending(entries),
    ensures
        forall|name: Seq<char>|
            #![trigger flattened(entries, diagnostics).packages.contains_key(name)]
            flattened(entries, diagnostics).packages.contains_key(name) <==> named_by(
                entries,
                name,
            ),
        forall|i: int|
            #![trigger entries[i]]
            0 <= i < entries.len() && !is_dependency(entries, entries[i].0) ==> flattened(
                entries,
                diagnostics,
            ).packages[entries[i].0] == entries[i].1,
        forall|name: Seq<char>|
            #![trigger flattened(entries, diagnostics).packages[name]]
            is_dependency(entries, name) && !has_key(entries, name) ==> flattened(
                entries,
                diagnostics,
            ).packages[name] == default_options(),
    decreases entries.len(),
{
    if entries.len() > 0 {
        let rest = entries.drop_last();
        let entry = entries.last();
        let last = entries.len() - 1;
        assert forall|i: int, j: int| 0 <= i < j < rest.len() implies precedes(
            (#[trigger] rest[i]).0,
            (#[trigger] rest[j]).0,
        ) by {
            assert(rest[i] == entries[i]);
            assert(rest[j] == entries[j]);
        }
        lemma_flattened(rest, diagnostics);
        let before = flattened(rest, diagnostics);
        let inserted = insert_noting(
            before,
            entry.0,
            entry.1,
            DiagnosticView::EntryOverride { package: entry.0 },
        );
        lemma_with_dependencies(inserted, entry.1.optional_deps, entry.0);
        let after = flattened(entries, diagnostics).packages;
        assert(after == with_dependencies(inserted, entry.1.optional_deps, entry.0).packages);
        assert(entries[last] == entry);
        assert forall|name: Seq<char>| named_by(entries, name) <==> (named_by(rest, name) || name
            == entry.0 || entry.1.optional_deps.contains(name)) by {
            if named_by(entries, name) {
                let i = choose|i: int|
                    0 <= i < entries.len() && ((#[trigger] entries[i]).0 == name
                        || entries[i].1.optional_deps.contains(name));
                if i < rest.len() {
                    assert(rest[i] == entries[i]);
                    assert(named_by(rest, name));
                }
            }
            if named_by(rest, name) {
                let i = choose|i: int|
                    0 <= i < rest.len() && ((#[trigger] rest[i]).0 == name
                        || rest[i].1.optional_deps.contains(name));
                assert(entries[i] == rest[i]);
            }
        }
        assert forall|name: Seq<char>| is_dependency(entries, name) <==> (is_dependency(
            rest,
            name,
        ) || entry.1.optional_deps.contains(name)) by {
            if is_dependency(entries, name) {
                let i = choose|i: int|
                    0 <= i < entries.len() && (#[trigger] entries[i]).1.optional_deps.contains(
                        name,
                    );
                if i < rest.len() {
                    assert(rest[i] == entries[i]);
                    assert(is_dependency(rest, name));
                }
            }
            if is_dependency(rest, name) {
                let i = choose|i: int|
                    0 <= i < rest.len() && (#[trigger] rest[i]).1.optional_deps.contains(name);
                assert(entries[i] == rest[i]);
            }
        }
        assert forall|name: Seq<char>|
            #![trigger after.contains_key(name)]
            after.contains_key(name) <==> named_by(entries, name) by {
            assert(inserted.packages.contains_key(name) <==> (before.packages.contains_key(name)
                || name == entry.0));
            assert(before.packages.contains_key(name) <==> named_by(rest, name));
        }
        assert forall|i: int|
            #![trigger entries[i]]
            0 <= i < entries.len() && !is_dependency(entries, entries[i].0) implies after[entries[i].0]
            == entries[i].1 by {
            let name = entries[i].0;
            assert(after[name] == inserted.packages[name]);
            if i < last {
                lemma_precedes_trichotomy(name, entry.0);
                assert(rest[i] == entries[i]);
                assert(before.packages[rest[i].0] == rest[i].1);
            }
        }
        assert forall|name: Seq<char>|
            #![trigger after[name]]
            is_dependency(entries, name) && !has_key(entries, name) implies after[name]
            == default_options() by {
            if !entry.1.optional_deps.contains(name) {
                assert(after[name] == inserted.packages[name]);
                assert(name != entry.0);
                if has_key(rest, name) {
                    let i = index_of_key(rest, name);
                    assert(entries[i] == rest[i]);
                }
                assert(before.packages[name] == default_options());
            }
        }
    }
}

/// Inserting the members of a group leaves the packages finitely many.
pub proof fn lemma_with_members_finite(
    draft: Draft,
    members: Seq<Seq<char>>,
    options: ArchInstallOptionsView,
    group: Seq<char>,
)
    requires
        draft.packages.dom().finite(),
    ensures
        with_members(draft, members, options, group).packages.dom().finite(),
    decreases members.len(),
{
    if members.len() > 0 {
        lemma_with_members_finite(draft, members.drop_last(), options, group);
    }
}

/// A member of a group has the options of the group in the normal form, if it can
/// be installed and is no optional dependency of an entry.
pub proof fn lemma_member_inherits_group_options(
    draft: Draft,
    group: Seq<char>,
    members: Seq<Seq<char>>,
    available: Set<Seq<char>>,
    member: Seq<char>,
)
    requires
        draft.packages.dom().finite(),
        draft.packages.contains_key(group),
        members.contains(member),
        available.contains(member),
        !is_dependency(entries_of(expand_group_of(draft, group, members).packages), member),
    ensures
        retain_of(
            flatten_of(expand_group_of(draft, group, members)),
            available,
        ).packages.contains_key(member),
        retain_of(flatten_of(expand_group_of(draft, group, members)), available).packages[member]
            == draft.packages[group],
{
    let expanded = expand_group_of(draft, group, members);
    lemma_group_replaced_by_members(draft, group, members);
    lemma_with_members_finite(
        (Draft { packages: draft.packages.remove(group), diagnostics: draft.diagnostics }),
        members,
        draft.packages[group],
        group,
    );
    assert(expanded.packages.contains_key(member));
    let entries = entries_of(expanded.packages);
    crate::package_map::lemma_entries_exist(expanded.packages);
    assert(has_key(entries, member));
    let i = index_of_key(entries, member);
    lemma_to_map_at(entries, i);
    lemma_flattened(entries, expanded.diagnostics);
    assert(named_by(entries, member));
    assert(flattened(entries, expanded.diagnostics).packages[entries[i].0] == entries[i].1);
}

/// Whether `note` says that what was held for `name` has been overridden.
pub open spec fn overrides(note: DiagnosticView, name: Seq<char>) -> bool {
    match note {
        DiagnosticView::GroupOverride { package, group } => package == name,
        DiagnosticView::EntryOverride { package } => package == name,
        DiagnosticView::DependencyOverride { dependency, package } => dependency == name,
        DiagnosticView::Unavailable { package } => false,
    }
}

/// How many of `notes` say that what was held for `name` has been overridden.
pub open spec fn overrides_of(notes: Seq<DiagnosticView>, name: Seq<char>) -> nat
    decreases notes.len(),
{
    if notes.len() == 0 {
        0
    } else {
        overrides_of(notes.drop_last(), name) + if overrides(notes.last(), name) {
            1nat
        } else {
            0nat
        }
    }
}

/// One insertion notes an override of `name` once if it is an insertion for
/// `name` over something held, and else not at all.
pub proof fn lemma_insert_overrides(
    draft: Draft,
    inserted: Seq<char>,
    options: ArchInstallOptionsView,
    note: DiagnosticView,
    name: Seq<char>,
)
    ensures
        overrides_of(insert_noting(draft, inserted, options, note).diagnostics, name)
            == overrides_of(draft.diagnostics, name) + if draft.packages.contains_key(inserted)
            && overrides(note, name) {
            1nat
        } else {
            0nat
        },
{
    if draft.packages.contains_key(inserted) {
        assert(draft.diagnostics.push(note).drop_last() =~= draft.diagnostics);
    }
}

/// Inserting the members of a group, of which `name` is one at most once, notes
/// an override of `name` once if `name` was held and is a member, and else not at
/// all.
pub proof fn lemma_with_members_overrides(
    draft: Draft,
    members: Seq<Seq<char>>,
    options: ArchInstallOptionsView,
    group: Seq<char>,
    name: Seq<char>,
)
    requires
        forall|i: int, j: int|
            0 <= i < members.len() && 0 <= j < members.len() && #[trigger] members[i] == name
                && #[trigger] members[j] == name ==> i == j,
    ensures
        overrides_of(with_members(draft, members, options, group).diagnostics, name)
            == overrides_of(draft.diagnostics, name) + if draft.packages.contains_key(name)
            && members.contains(name) {
            1nat
        } else {
            0nat
        },
    decreases members.len(),
{
    if members.len() > 0 {
        let rest = members.drop_last();
        let last = members.last();
        let end = members.len() - 1;
        assert(members[end] == last);
        assert forall|i: int, j: int|
            0 <= i < rest.len() && 0 <= j < rest.len() && #[trigger] rest[i] == name
                && #[trigger] rest[j] == name implies i == j by {
            assert(members[i] == rest[i]);
            assert(members[j] == rest[j]);
        }
        lemma_with_members_overrides(draft, rest, options, group, name);
        lemma_with_members(draft, rest, options, group);
        let before = with_members(draft, rest, options, group);
        let note = DiagnosticView::GroupOverride { package: last, group };
        lemma_insert_overrides(before, last, options, note, name);
        assert(before.packages.contains_key(name) <==> (draft.packages.contains_key(name)
            || rest.contains(name)));
        if rest.contains(name) {
            let i = choose|i: int| 0 <= i < rest.len() && rest[i] == name;
            assert(members[i] == name);
            assert(last != name);
        }
        if members.contains(name) && last != name {
            let i = choose|i: int| 0 <= i < members.len() && members[i] == name;
            assert(rest[i] == name);
        }
    }
}

/// Inserting optional dependencies of which `name` is none notes no override of
/// `name`.
pub proof fn lemma_with_dependencies_overrides(
    draft: Draft,
    dependencies: Seq<Seq<char>>,
    package: Seq<char>,
    name: Seq<char>,
)
    requires
        !dependencies.contains(name),
    ensures
        overrides_of(with_dependencies(draft, dependencies, package).diagnostics, name)
            == overrides_of(draft.diagnostics, name),
    decreases dependencies.len(),
{
    if dependencies.len() > 0 {
        let rest = dependencies.drop_last();
        let last = dependencies.last();
        assert(dependencies[dependencies.len() - 1] == last);
        if rest.contains(name) {
            let i = choose|i: int| 0 <= i < rest.len() && rest[i] == name;
            assert(dependencies[i] == name);
        }
        lemma_with_dependencies_overrides(draft, rest, package, name);
        lemma_insert_overrides(
            with_dependencies(draft, rest, package),
            last,
            default_options(),
            DiagnosticView::DependencyOverride { dependency: last, package },
            name,
        );
    }
}

/// Flattening notes no override of a name that is no optional dependency of an
/// entry.
pub proof fn lemma_flattened_overrides(
    entries: Seq<(Seq<char>, ArchInstallOptionsView)>,
    diagnostics: Seq<DiagnosticView>,
    name: Seq<char>,
)
    requires
        ascending(entries),
        !is_dependency(entries, name),
    ensures
        overrides_of(flattened(entries, diagnostics).diagnostics, name) == overrides_of(
            diagnostics,
            name,
        ),
    decreases entries.len(),
{
    if entries.len() > 0 {
        let rest = entries.drop_last();
        let entry = entries.last();
        let end = entries.len() - 1;
        assert(entries[end] == entry);
        assert forall|i: int, j: int| 0 <= i < j < rest.len() implies precedes(
            (#[trigger] rest[i]).0,
            (#[trigger] rest[j]).0,
        ) by {
            assert(rest[i] == entries[i]);
            assert(rest[j] == entries[j]);
        }
        if is_dependency(rest, name) {
            let i = choose|i: int|
                0 <= i < rest.len() && (#[trigger] rest[i]).1.optional_deps.contains(name);
            assert(entries[i] == rest[i]);
        }
        lemma_flattened_overrides(rest, diagnostics, name);
        lemma_flattened(rest, diagnostics);
        let before = flattened(rest, diagnostics);
        let note = DiagnosticView::EntryOverride { package: entry.0 };
        lemma_insert_overrides(before, entry.0, entry.1, note, name);
        if entry.0 == name && before.packages.contains_key(name) {
            assert(named_by(rest, name));
            let i = choose|i: int|
                0 <= i < rest.len() && ((#[trigger] rest[i]).0 == name
                    || rest[i].1.optional_deps.contains(name));
            assert(entries[i] == rest[i]);
            lemma_precedes_trichotomy(entries[i].0, entry.0);
        }
        lemma_with_dependencies_overrides(
            insert_noting(before, entry.0, entry.1, note),
            entry.1.optional_deps,
            entry.0,
            name,
        );
    }
}

/// Dropping what cannot be installed notes no override.
pub proof fn lemma_unavailable_overrides(
    diagnostics: Seq<DiagnosticView>,
    names: Seq<Seq<char>>,
    available: Set<Seq<char>>,
    name: Seq<char>,
)
    ensures
        overrides_of(diagnostics + unavailable_notes(names, available), name) == overrides_of(
            diagnostics,
            name,
        ),
    decreases names.len(),
{
    if names.len() == 0 {
        assert(diagnostics + unavailable_notes(names, available) =~= diagnostics);
    } else {
        lemma_unavailable_overrides(diagnostics, names.drop_last(), available, name);
        let rest = unavailable_notes(names.drop_last(), available);
        if !available.contains(names.last()) {
            let note = DiagnosticView::Unavailable { package: names.last() };
            assert(diagnostics + rest.push(note) =~= (diagnostics + rest).push(note));
            assert((diagnostics + rest).push(note).drop_last() =~= diagnostics + rest);
        }
    }
}

/// Where a package is desired by itself and as the member of a desired group, the
/// normalization notes the override of the package exactly once: when the group
/// brings it. This holds of a package that the group lists once, that is not the
/// group itself, and that is no optional dependency of an entry.
pub proof fn lemma_member_overridden_once(
    draft: Draft,
    group: Seq<char>,
    members: Seq<Seq<char>>,
    available: Set<Seq<char>>,
    member: Seq<char>,
)
    requires
        draft.packages.dom().finite(),
        draft.packages.contains_key(group),
        draft.packages.contains_key(member),
        member != group,
        members.contains(member),
        forall|i: int, j: int|
            0 <= i < members.len() && 0 <= j < members.len() && #[trigger] members[i] == member
                && #[trigger] members[j] == member ==> i == j,
        !is_dependency(entries_of(expand_group_of(draft, group, members).packages), member),
    ensures
        overrides_of(
            retain_of(flatten_of(expand_group_of(draft, group, members)), available).diagnostics,
            member,
        ) == overrides_of(draft.diagnostics, member) + 1,
{
    let start = Draft { packages: draft.packages.remove(group), diagnostics: draft.diagnostics };
    let expanded = expand_group_of(draft, group, members);
    lemma_with_members_overrides(start, members, draft.packages[group], group, member);
    lemma_with_members_finite(start, members, draft.packages[group], group);
    crate::package_map::lemma_entries_exist(expanded.packages);
    let entries = entries_of(expanded.packages);
    lemma_flattened_overrides(entries, expanded.diagnostics, member);
    let flat = flatten_of(expanded);
    lemma_unavailable_overrides(
        flat.diagnostics,
        names_of(entries_of(flat.packages)),
        available,
        member,
    );
}

/// A name that is not among the packages that can be installed is not in the
/// normal form, and every name of the normal form was an entry before.
pub proof fn lemma_only_available_retained(draft: Draft, available: Set<Seq<char>>)
    ensures
        forall|name: Seq<char>|
            #![trigger retain_of(draft, available).packages.contains_key(name)]
            retain_of(draft, available).packages.contains_key(name) <==> (available.contains(name)
                && draft.packages.contains_key(name)),
        forall|name: Seq<char>|
            #![trigger retain_of(draft, available).packages[name]]
            retain_of(draft, available).packages.contains_key(name) ==> retain_of(
                draft,
                available,
            ).packages[name] == draft.packages[name],
{
}

} // verus!
