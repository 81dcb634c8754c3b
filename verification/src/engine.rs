//! What has to change for the installed packages of one backend to match the
//! desired ones, and the order of the steps that bring the change about.

use crate::package_map::{has_key, NameSet, PackageMap};
use vstd::prelude::*;

verus! {

/// The entries to install: those desired whose names are not installed.
pub open spec fn to_install_of<O, Q>(desired: Map<Seq<char>, O>, installed: Map<Seq<char>, Q>) -> Map<
    Seq<char>,
    O,
> {
    desired.remove_keys(installed.dom())
}

/// The names to remove: those installed and not desired.
pub open spec fn to_remove_of<O, Q>(desired: Map<Seq<char>, O>, installed: Map<Seq<char>, Q>) -> Set<
    Seq<char>,
> {
    installed.dom().difference(desired.dom())
}

/// The names that are installed once the two action sets have been carried out on
/// what was installed before.
pub open spec fn names_after(
    installed: Set<Seq<char>>,
    to_install: Set<Seq<char>>,
    to_remove: Set<Seq<char>>,
) -> Set<Seq<char>> {
    installed.union(to_install).difference(to_remove)
}

/// The two action sets never share a name. The names to install are the desired
/// names without the installed ones, the names to remove the installed names
/// without the desired ones.
pub proof fn lemma_actions_disjoint<O, Q>(desired: Map<Seq<char>, O>, installed: Map<Seq<char>, Q>)
    ensures
        to_install_of(desired, installed).dom().disjoint(to_remove_of(desired, installed)),
        to_install_of(desired, installed).dom() == desired.dom().difference(installed.dom()),
        to_remove_of(desired, installed) == installed.dom().difference(desired.dom()),
        forall|name: Seq<char>| #[trigger]
            to_install_of(desired, installed).contains_key(name) ==> to_install_of(
                desired,
                installed,
            )[name] == desired[name],
{
    assert(to_install_of(desired, installed).dom() =~= desired.dom().difference(installed.dom()));
}

/// Reconciling is idempotent: once the action sets of one run have been carried
/// out, a second run against the same desired map finds nothing to install and
/// nothing to remove.
pub proof fn lemma_reconcile_idempotent<O, Q>(
    desired: Map<Seq<char>, O>,
    installed: Map<Seq<char>, Q>,
    installed_after: Map<Seq<char>, Q>,
)
    requires
        installed_after.dom() == names_after(
            installed.dom(),
            to_install_of(desired, installed).dom(),
            to_remove_of(desired, installed),
        ),
    ensures
        to_install_of(desired, installed_after) == Map::<Seq<char>, O>::empty(),
        to_remove_of(desired, installed_after) == Set::<Seq<char>>::empty(),
{
    assert(installed_after.dom() =~= desired.dom()) by {
        assert forall|name: Seq<char>| installed_after.dom().contains(name) <==> desired.dom().contains(
            name,
        ) by {
            if desired.dom().contains(name) && !installed.dom().contains(name) {
                assert(to_install_of(desired, installed).dom().contains(name));
            }
        }
    }
    assert(to_install_of(desired, installed_after) =~= Map::<Seq<char>, O>::empty());
    assert(to_remove_of(desired, installed_after) =~= Set::<Seq<char>>::empty());
}

/// What one backend has to install and to remove.
pub struct Actions<O: View> {
    pub to_install: PackageMap<O>,
    pub to_remove: NameSet,
}

/// Compares the desired packages of a backend with the installed ones. What is to
/// install keeps the options that it was desired with.
pub fn diff<O: View, Q: View>(desired: PackageMap<O>, installed: &PackageMap<Q>) -> (actions:
    Actions<O>)
    ensures
        actions.to_install@ == to_install_of(desired@, installed@),
        actions.to_remove@ == to_remove_of(desired@, installed@),
{
    let mut to_install = desired;
    let mut to_remove = NameSet::new();
    let n = installed.len();
    let ghost entries = installed.entries();
    let mut i: usize = 0;
    while i < n
        invariant
            i <= n,
            n == entries.len(),
            entries == installed.entries(),
            installed@ == crate::package_map::to_map(entries),
            crate::package_map::ascending(entries),
            forall|name: Seq<char>|
                to_install@.contains_key(name) <==> desired@.contains_key(name) && !has_key(
                    entries.take(i as int),
                    name,
                ),
            forall|name: Seq<char>| #[trigger]
                to_install@.contains_key(name) ==> to_install@[name] == desired@[name],
            forall|name: Seq<char>|
                to_remove@.contains(name) <==> has_key(entries.take(i as int), name)
                    && !desired@.contains_key(name),
        decreases n - i,
    {
        let name = installed.key(i);
        let ghost seen = entries.take(i as int);
        let ghost seen_next = entries.take(i + 1);
        assert forall|k: Seq<char>| has_key(seen_next, k) <==> (has_key(seen, k) || k
            == name@) by {
            if has_key(seen_next, k) {
                let j = crate::package_map::index_of_key(seen_next, k);
                if j < i {
                    assert(seen[j] == seen_next[j]);
                }
            }
            if has_key(seen, k) {
                let j = crate::package_map::index_of_key(seen, k);
                assert(seen_next[j] == seen[j]);
            }
            assert(seen_next[i as int] == entries[i as int]);
        }
        assert(!has_key(seen, name@)) by {
            if has_key(seen, name@) {
                let j = crate::package_map::index_of_key(seen, name@);
                assert(seen[j] == entries[j]);
                crate::package_map::lemma_key_unique(entries, j, i as int);
            }
        }
        if to_install.remove(name.as_str()).is_none() {
            to_remove.insert(name.clone());
        }
        i += 1;
    }
    proof {
        assert(entries.take(n as int) =~= entries);
        assert(to_install@ =~= to_install_of(desired@, installed@));
        assert(to_remove@ =~= to_remove_of(desired@, installed@));
    }
    Actions { to_install, to_remove }
}

/// The steps of reconciling one backend, in their fixed order.
#[derive(Clone, Copy, Debug, PartialEq, Eq, Structural)]
pub enum Phase {
    Version,
    Normalize,
    Query,
    Diff,
    Install,
    Remove,
    Clean,
    Done,
}

/// The step that follows `phase`, given whether `phase` succeeded. A backend whose
/// version cannot be had is skipped, which is no failure; any other step that
/// fails ends the run of this backend.
pub open spec fn next_phase_of(phase: Phase, succeeded: bool) -> Phase {
    if !succeeded {
        Phase::Done
    } else {
        match phase {
            Phase::Version => Phase::Normalize,
            Phase::Normalize => Phase::Query,
            Phase::Query => Phase::Diff,
            Phase::Diff => Phase::Install,
            Phase::Install => Phase::Remove,
            Phase::Remove => Phase::Clean,
            Phase::Clean => Phase::Done,
            Phase::Done => Phase::Done,
        }
    }
}

/// Whether ending `phase` without success is a failure of the backend's run.
pub open spec fn is_failure(phase: Phase, succeeded: bool) -> bool {
    !succeeded && phase != Phase::Version && phase != Phase::Done
}

/// The step to take after `phase`, and whether the backend's run has failed.
pub fn next_phase(phase: Phase, succeeded: bool) -> (r: (Phase, bool))
    ensures
        r.0 == next_phase_of(phase, succeeded),
        r.1 == is_failure(phase, succeeded),
{
    if !succeeded {
        let failed = match phase {
            Phase::Version => false,
            Phase::Done => false,
            _ => true,
        };
        (Phase::Done, failed)
    } else {
        let next = match phase {
            Phase::Version => Phase::Normalize,
            Phase::Normalize => Phase::Query,
            Phase::Query => Phase::Diff,
            Phase::Diff => Phase::Install,
            Phase::Install => Phase::Remove,
            Phase::Remove => Phase::Clean,
            Phase::Clean => Phase::Done,
            Phase::Done => Phase::Done,
        };
        (next, false)
    }
}

} // verus!
