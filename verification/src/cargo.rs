//! The backend for Cargo, which keeps a ledger of what it has installed.

use crate::json::{
    find_member, from_value, items_view, lemma_view, member_of, members_view, parse_value, parsed,
    Json, JsonView,
};
use crate::package_map::{NameSet, PackageMap};
use crate::process::{commands, invocation, push_arg, push_args, Command, CommandView, Perms};
use crate::text::{find_from, position_from, push_text, text_of, texts, to_chars};
use vstd::prelude::*;

verus! {

/// The backend itself; it holds no state.
#[derive(Debug, Copy, Clone, Default, PartialEq, Eq, PartialOrd, Ord)]
pub struct Cargo;

/// What the ledger tells of an installed package.
#[derive(Debug, Default, PartialEq, Eq, PartialOrd, Ord)]
pub struct CargoQueryInfo {
    pub version: String,
    pub git: Option<String>,
    pub all_features: bool,
    pub no_default_features: bool,
    pub features: Vec<String>,
}

/// `CargoQueryInfo` as plain values.
pub struct CargoQueryInfoView {
    pub version: Seq<char>,
    pub git: Option<Seq<char>>,
    pub all_features: bool,
    pub no_default_features: bool,
    pub features: Seq<Seq<char>>,
}

/// The text that an optional string stands for.
pub open spec fn optional_text(s: Option<String>) -> Option<Seq<char>> {
    match s {
        Some(s) => Some(s@),
        None => None,
    }
}

impl View for CargoQueryInfo {
    type V = CargoQueryInfoView;

    open spec fn view(&self) -> CargoQueryInfoView {
        CargoQueryInfoView {
            version: self.version@,
            git: optional_text(self.git),
            all_features: self.all_features,
            no_default_features: self.no_default_features,
            features: texts(self.features@),
        }
    }
}

/// How a package is to be installed: from which git repository, if from one, and
/// with which features.
#[derive(Debug, PartialEq, Eq, PartialOrd, Ord)]
pub struct CargoInstallOptions {
    pub git: Option<String>,
    pub all_features: bool,
    pub no_default_features: bool,
    pub features: Vec<String>,
}

/// `CargoInstallOptions` as plain values.
pub struct CargoInstallOptionsView {
    pub git: Option<Seq<char>>,
    pub all_features: bool,
    pub no_default_features: bool,
    pub features: Seq<Seq<char>>,
}

impl View for CargoInstallOptions {
    type V = CargoInstallOptionsView;

    open spec fn view(&self) -> CargoInstallOptionsView {
        CargoInstallOptionsView {
            git: optional_text(self.git),
            all_features: self.all_features,
            no_default_features: self.no_default_features,
            features: texts(self.features@),
        }
    }
}

impl Default for CargoInstallOptions {
    fn default() -> (options: Self)
        ensures
            options@ == (CargoInstallOptionsView {
                git: None,
                all_features: false,
                no_default_features: false,
                features: Seq::empty(),
            }),
    {
        let options = CargoInstallOptions {
            git: None,
            all_features: false,
            no_default_features: false,
            features: Vec::new(),
        };
        assert(options@.features =~= Seq::<Seq<char>>::empty());
        options
    }
}

/// Why a ledger could not be read. Where an entry is at fault, its place among the
/// entries is told.
#[derive(Debug, Clone, Copy, PartialEq, Eq, Structural)]
pub enum LedgerError {
    /// The text is no JSON document.
    Syntax,
    /// The document is no object with a member `installs`.
    MissingInstalls,
    /// The member `installs` is no object.
    InstallsNotObject,
    /// The value of the entry is no object.
    NotAnObject(usize),
    /// The key of the entry is not made of name, version and source.
    MalformedKey(usize),
    /// The entry has no boolean member `all_features`.
    AllFeatures(usize),
    /// The entry has no boolean member `no_default_features`.
    NoDefaultFeatures(usize),
    /// The entry has no member `features` that is an array of strings.
    Features(usize),
}

/// The three parts of a key of the ledger, `<name> <version> <source>`: what
/// stands before the first space, between the first and the second, and after the
/// second.
pub open spec fn split_key_of(key: Seq<char>) -> Option<(Seq<char>, Seq<char>, Seq<char>)> {
    let first = position_from(key, ' ', 0);
    if first >= key.len() {
        None
    } else {
        let second = position_from(key, ' ', first + 1);
        if second >= key.len() {
            None
        } else {
            Some(
                (
                    key.subrange(0, first),
                    key.subrange(first + 1, second),
                    key.subrange(second + 1, key.len() as int),
                ),
            )
        }
    }
}

/// What a source begins with if the package comes from a git repository.
pub open spec fn git_marker() -> Seq<char> {
    seq!['(', 'g', 'i', 't', '+']
}

/// The repository that a source names: for a source that begins with the git
/// marker, what stands between the marker and the revision, which begins at the
/// first `#`; all that follows the marker where there is no revision.
pub open spec fn git_of(source: Seq<char>) -> Option<Seq<char>> {
    if source.len() >= 5 && source.subrange(0, 5) == git_marker() {
        Some(source.subrange(5, position_from(source, '#', 5)))
    } else {
        None
    }
}

/// The strings that `items` are, if all of them are strings.
pub open spec fn texts_of(items: Seq<JsonView>) -> Option<Seq<Seq<char>>>
    decreases items.len(),
{
    if items.len() == 0 {
        Some(Seq::empty())
    } else {
        match (texts_of(items.drop_last()), items.last()) {
            (Some(rest), JsonView::Text(s)) => Some(rest.push(s)),
            _ => None,
        }
    }
}

/// What one entry of the ledger says: the name of the package and what is known
/// of it. `index` is the place of the entry, told where the entry is at fault.
pub open spec fn entry_of(key: Seq<char>, value: JsonView, index: usize) -> Result<
    (Seq<char>, CargoQueryInfoView),
    LedgerError,
> {
    match value {
        JsonView::Object(fields) => match split_key_of(key) {
            None => Err(LedgerError::MalformedKey(index)),
            Some((name, version, source)) => match member_of(fields, "all_features"@) {
                Some(JsonView::Bool(all_features)) => match member_of(
                    fields,
                    "no_default_features"@,
                ) {
                    Some(JsonView::Bool(no_default_features)) => match member_of(
                        fields,
                        "features"@,
                    ) {
                        Some(JsonView::Array(items)) => match texts_of(items) {
                            Some(features) => Ok(
                                (
                                    name,
                                    CargoQueryInfoView {
                                        version,
                                        git: git_of(source),
                                        all_features,
                                        no_default_features,
                                        features,
                                    },
                                ),
                            ),
                            None => Err(LedgerError::Features(index)),
                        },
                        _ => Err(LedgerError::Features(index)),
                    },
                    _ => Err(LedgerError::NoDefaultFeatures(index)),
                },
                _ => Err(LedgerError::AllFeatures(index)),
            },
        },
        _ => Err(LedgerError::NotAnObject(index)),
    }
}

/// What the entries of the ledger say, taken one after the other: a later entry
/// for a name replaces an earlier one, and the first entry at fault decides.
pub open spec fn installs_of(entries: Seq<(Seq<char>, JsonView)>) -> Result<
    Map<Seq<char>, CargoQueryInfoView>,
    LedgerError,
>
    decreases entries.len(),
{
    if entries.len() == 0 {
        Ok(Map::empty())
    } else {
        match installs_of(entries.drop_last()) {
            Err(e) => Err(e),
            Ok(map) => match entry_of(
                entries.last().0,
                entries.last().1,
                (entries.len() - 1) as usize,
            ) {
                Err(e) => Err(e),
                Ok((name, info)) => Ok(map.insert(name, info)),
            },
        }
    }
}

/// The installed packages that a ledger tells of.
pub open spec fn ledger_of(json: JsonView) -> Result<Map<Seq<char>, CargoQueryInfoView>, LedgerError> {
    match json {
        JsonView::Object(top) => match member_of(top, "installs"@) {
            None => Err(LedgerError::MissingInstalls),
            Some(JsonView::Object(entries)) => installs_of(entries),
            Some(_) => Err(LedgerError::InstallsNotObject),
        },
        _ => Err(LedgerError::MissingInstalls),
    }
}

/// Whether `result` is what `expected` says: the same packages with the same
/// information, or the same failure.
pub open spec fn agrees(
    result: Result<PackageMap<CargoQueryInfo>, LedgerError>,
    expected: Result<Map<Seq<char>, CargoQueryInfoView>, LedgerError>,
) -> bool {
    match expected {
        Ok(map) => result matches Ok(packages) && packages@ == map,
        Err(e) => result matches Err(x) && x == e,
    }
}

/// The switches that name the git repository to install from.
pub open spec fn git_switch(git: Option<Seq<char>>) -> Seq<Seq<char>> {
    match git {
        Some(url) => seq!["--git"@, url],
        None => Seq::empty(),
    }
}

/// `switch` if it is asked for.
pub open spec fn flag(on: bool, switch: Seq<char>) -> Seq<Seq<char>> {
    if on {
        seq![switch]
    } else {
        Seq::empty()
    }
}

/// The switch that lists the features, if there are any.
pub open spec fn features_switch(features: Seq<Seq<char>>) -> Seq<Seq<char>> {
    if features.len() > 0 {
        seq!["--features"@] + features
    } else {
        Seq::empty()
    }
}

/// The invocation that installs the package `name` with `options`.
pub open spec fn install_command(name: Seq<char>, options: CargoInstallOptionsView) -> CommandView {
    CommandView {
        args: seq!["cargo"@, "install"@] + git_switch(options.git) + flag(
            options.all_features,
            "--all-features"@,
        ) + flag(options.no_default_features, "--no-default-features"@) + features_switch(
            options.features,
        ) + seq![name],
        perms: Perms::Same,
    }
}

/// The invocations that install `entries`, one for each.
pub open spec fn install_commands(entries: Seq<(Seq<char>, CargoInstallOptionsView)>) -> Seq<
    CommandView,
> {
    Seq::new(entries.len(), |i: int| install_command(entries[i].0, entries[i].1))
}

/// The invocation that uninstalls `names`.
pub open spec fn uninstall_command(names: Seq<Seq<char>>) -> CommandView {
    CommandView { args: seq!["cargo"@, "uninstall"@] + names, perms: Perms::Same }
}

/// The invocation that asks Cargo for its version.
pub open spec fn version_command() -> CommandView {
    CommandView { args: seq!["cargo"@, "--version"@], perms: Perms::Same }
}

/// The invocation that asks the cache helper for its version.
pub open spec fn cache_probe_command() -> CommandView {
    CommandView { args: seq!["cargo-cache"@, "-V"@], perms: Perms::Same }
}

/// The invocation that has the cache helper clean the cache.
pub open spec fn clean_command() -> CommandView {
    CommandView { args: seq!["cargo"@, "cache"@, "-a"@], perms: Perms::Same }
}

/// Splits a key of the ledger into name, version and source.
pub fn split_key(key: &str) -> (r: Option<(String, String, String)>)
    ensures
        match split_key_of(key@) {
            None => r is None,
            Some((name, version, source)) => r matches Some(parts) && parts.0@ == name
                && parts.1@ == version && parts.2@ == source,
        },
{
    let chars = to_chars(key);
    let first = find_from(&chars, ' ', 0);
    if first >= chars.len() {
        return None;
    }
    let second = find_from(&chars, ' ', first + 1);
    if second >= chars.len() {
        return None;
    }
    let name = text_of(&chars, 0, first);
    let version = text_of(&chars, first + 1, second);
    let source = text_of(&chars, second + 1, chars.len());
    Some((name, version, source))
}

/// The git repository that a source of the ledger names, if it names one.
pub fn git_source(source: &str) -> (r: Option<String>)
    ensures
        optional_text(r) == git_of(source@),
{
    let chars = to_chars(source);
    if chars.len() >= 5 && chars[0] == '(' && chars[1] == 'g' && chars[2] == 'i' && chars[3]
        == 't' && chars[4] == '+' {
        assert(chars@.subrange(0, 5) =~= git_marker());
        let hash = find_from(&chars, '#', 5);
        Some(text_of(&chars, 5, hash))
    } else {
        proof {
            if chars.len() >= 5 {
                let head = chars@.subrange(0, 5);
                assert(head[0] == chars@[0] && head[1] == chars@[1] && head[2] == chars@[2]
                    && head[3] == chars@[3] && head[4] == chars@[4]);
                assert(git_marker()[0] == '(' && git_marker()[1] == 'g' && git_marker()[2] == 'i'
                    && git_marker()[3] == 't' && git_marker()[4] == '+');
            }
        }
        None
    }
}

/// The strings that the items of an array are, if all of them are strings.
pub fn feature_list(items: &Vec<Json>) -> (r: Option<Vec<String>>)
    ensures
        match texts_of(items_view(items@)) {
            Some(features) => r matches Some(list) && texts(list@) == features,
            None => r is None,
        },
{
    let mut list: Vec<String> = Vec::new();
    let ghost all = items_view(items@);
    let mut i: usize = 0;
    assert(all.take(0) =~= Seq::<JsonView>::empty());
    assert(texts(list@) =~= Seq::<Seq<char>>::empty());
    while i < items.len()
        invariant
            i <= items.len(),
            all == items_view(items@),
            texts_of(all.take(i as int)) == Some(texts(list@)),
        decreases items.len() - i,
    {
        proof {
            assert(all.take(i + 1).drop_last() =~= all.take(i as int));
            assert(all.take(i + 1).last() == items@[i as int]@);
        }
        match &items[i] {
            Json::Text(s) => {
                push_text(&mut list, s.clone());
            },
            _ => {
                proof {
                    lemma_texts_of_prefix(all, i + 1);
                }
                return None;
            },
        }
        i += 1;
    }
    assert(all.take(items.len() as int) =~= all);
    Some(list)
}

/// Where a beginning of `items` holds something other than a string, so does the
/// whole.
pub proof fn lemma_texts_of_prefix(items: Seq<JsonView>, n: int)
    requires
        0 <= n <= items.len(),
        texts_of(items.take(n)) is None,
    ensures
        texts_of(items) is None,
    decreases items.len() - n,
{
    if n < items.len() {
        assert(items.take(n + 1).drop_last() =~= items.take(n));
        lemma_texts_of_prefix(items, n + 1);
    } else {
        assert(items.take(n) =~= items);
    }
}

/// Reads one entry of the ledger.
pub fn entry(key: &str, value: &Json, index: usize) -> (r: Result<
    (String, CargoQueryInfo),
    LedgerError,
>)
    ensures
        match entry_of(key@, value@, index) {
            Ok((name, info)) => r matches Ok(pair) && pair.0@ == name && pair.1@ == info,
            Err(e) => r matches Err(x) && x == e,
        },
{
    proof {
        lemma_view(*value);
    }
    let fields = match value {
        Json::Object(fields) => fields,
        _ => {
            return Err(LedgerError::NotAnObject(index));
        },
    };
    let (name, version, source) = match split_key(key) {
        Some(parts) => parts,
        None => {
            return Err(LedgerError::MalformedKey(index));
        },
    };
    let git = git_source(source.as_str());
    let all_features = match find_member(fields, "all_features") {
        Some(Json::Bool(b)) => *b,
        _ => {
            return Err(LedgerError::AllFeatures(index));
        },
    };
    let no_default_features = match find_member(fields, "no_default_features") {
        Some(Json::Bool(b)) => *b,
        _ => {
            return Err(LedgerError::NoDefaultFeatures(index));
        },
    };
    let features = match find_member(fields, "features") {
        Some(Json::Array(items)) => {
            proof {
                lemma_view(Json::Array(*items));
            }
            match feature_list(items) {
                Some(features) => features,
                None => {
                    return Err(LedgerError::Features(index));
                },
            }
        },
        _ => {
            return Err(LedgerError::Features(index));
        },
    };
    Ok((name, CargoQueryInfo { version, git, all_features, no_default_features, features }))
}

/// The installed packages that the ledger `json` tells of. The entries are read in
/// the order in which the document holds them; a later entry for a name replaces
/// an earlier one, and the first entry at fault ends the reading.
pub fn packages_from_ledger(json: &Json) -> (r: Result<PackageMap<CargoQueryInfo>, LedgerError>)
    ensures
        agrees(r, ledger_of(json@)),
{
    proof {
        lemma_view(*json);
    }
    let top = match json {
        Json::Object(top) => top,
        _ => {
            return Err(LedgerError::MissingInstalls);
        },
    };
    let entries = match find_member(top, "installs") {
        None => {
            return Err(LedgerError::MissingInstalls);
        },
        Some(Json::Object(entries)) => {
            proof {
                lemma_view(Json::Object(*entries));
            }
            entries
        },
        Some(_) => {
            return Err(LedgerError::InstallsNotObject);
        },
    };
    let ghost all = members_view(entries@);
    let mut packages: PackageMap<CargoQueryInfo> = PackageMap::new();
    let mut i: usize = 0;
    assert(all.take(0) =~= Seq::<(Seq<char>, JsonView)>::empty());
    while i < entries.len()
        invariant
            i <= entries.len(),
            all == members_view(entries@),
            ledger_of(json@) == installs_of(all),
            installs_of(all.take(i as int)) == Ok::<
                Map<Seq<char>, CargoQueryInfoView>,
                LedgerError,
            >(packages@),
        decreases entries.len() - i,
    {
        proof {
            assert(all.take(i + 1).drop_last() =~= all.take(i as int));
            assert(all.take(i + 1).last() == all[i as int]);
        }
        match entry(entries[i].0.as_str(), &entries[i].1, i) {
            Ok((name, info)) => {
                packages.insert(name, info);
            },
            Err(e) => {
                proof {
                    assert(installs_of(all.take(i + 1)) == Err::<
                        Map<Seq<char>, CargoQueryInfoView>,
                        LedgerError,
                    >(e));
                    lemma_installs_of_prefix(all, i + 1);
                }
                return Err(e);
            },
        }
        i += 1;
    }
    assert(all.take(entries.len() as int) =~= all);
    Ok(packages)
}

/// The failure of a beginning of the entries is the failure of them all.
pub proof fn lemma_installs_of_prefix(entries: Seq<(Seq<char>, JsonView)>, n: int)
    requires
        0 <= n <= entries.len(),
        installs_of(entries.take(n)) is Err,
    ensures
        installs_of(entries) == installs_of(entries.take(n)),
    decreases entries.len() - n,
{
    if n < entries.len() {
        assert(entries.take(n + 1).drop_last() =~= entries.take(n));
        lemma_installs_of_prefix(entries, n + 1);
    } else {
        assert(entries.take(n) =~= entries);
    }
}

/// The installed packages that the text of a ledger tells of.
pub fn extract_packages(contents: &str) -> (r: Result<PackageMap<CargoQueryInfo>, LedgerError>)
    ensures
        match parsed(contents@) {
            Some(json) => agrees(r, ledger_of(json)),
            None => r matches Err(e) && e == LedgerError::Syntax,
        },
{
    match parse_value(contents) {
        Ok(value) => {
            let json = from_value(value);
            packages_from_ledger(&json)
        },
        Err(_) => Err(LedgerError::Syntax),
    }
}

impl Cargo {
    /// Every desired package is taken to be installable: the packages are in
    /// normal form as they are.
    pub fn map_managed_packages(packages: PackageMap<CargoInstallOptions>) -> (normal: PackageMap<
        CargoInstallOptions,
    >)
        ensures
            normal@ == packages@,
            normal.entries() == packages.entries(),
    {
        packages
    }

    /// The installed packages. Without a version Cargo is absent and nothing is
    /// installed; without a ledger nothing has been installed yet. Neither is a
    /// failure. A ledger that cannot be read is one.
    pub fn query_installed_packages(reachable: bool, ledger: Option<&str>) -> (r: Result<
        PackageMap<CargoQueryInfo>,
        LedgerError,
    >)
        ensures
            !reachable || ledger is None ==> (r matches Ok(packages) && packages@ == Map::<
                Seq<char>,
                CargoQueryInfoView,
            >::empty()),
            reachable && ledger is Some ==> match parsed(ledger->0@) {
                Some(json) => agrees(r, ledger_of(json)),
                None => r matches Err(e) && e == LedgerError::Syntax,
            },
    {
        if !reachable {
            return Ok(PackageMap::new());
        }
        match ledger {
            None => Ok(PackageMap::new()),
            Some(contents) => extract_packages(contents),
        }
    }

    /// The invocations that install `packages`, one for each package, in the order
    /// of the names. They are to be run one after the other, and none after one
    /// that failed.
    pub fn install_packages(packages: &PackageMap<CargoInstallOptions>) -> (plan: Vec<Command>)
        ensures
            commands(plan@) == install_commands(packages.entries()),
    {
        let n = packages.len();
        let ghost entries = packages.entries();
        let mut plan: Vec<Command> = Vec::new();
        let mut i: usize = 0;
        while i < n
            invariant
                i <= n,
                n == entries.len(),
                entries == packages.entries(),
                commands(plan@) == install_commands(entries).take(i as int),
            decreases n - i,
        {
            let name = packages.key(i);
            let options = packages.value(i);
            let mut command = invocation("cargo", &["install"], Perms::Same);
            assert(texts(command.args@) =~= seq!["cargo"@, "install"@]);
            match &options.git {
                Some(url) => {
                    push_arg(&mut command.args, "--git");
                    push_arg(&mut command.args, url.as_str());
                    assert(texts(command.args@) =~= seq!["cargo"@, "install"@] + git_switch(
                        options@.git,
                    ));
                },
                None => {
                    assert(texts(command.args@) =~= seq!["cargo"@, "install"@] + git_switch(
                        options@.git,
                    ));
                },
            }
            let ghost with_git = texts(command.args@);
            if options.all_features {
                push_arg(&mut command.args, "--all-features");
            }
            assert(texts(command.args@) =~= with_git + flag(
                options.all_features,
                "--all-features"@,
            ));
            let ghost with_all = texts(command.args@);
            if options.no_default_features {
                push_arg(&mut command.args, "--no-default-features");
            }
            assert(texts(command.args@) =~= with_all + flag(
                options.no_default_features,
                "--no-default-features"@,
            ));
            let ghost with_default = texts(command.args@);
            if options.features.len() > 0 {
                push_arg(&mut command.args, "--features");
                push_args(&mut command.args, &options.features);
            }
            assert(texts(command.args@) =~= with_default + features_switch(options@.features));
            let ghost with_features = texts(command.args@);
            push_arg(&mut command.args, name.as_str());
            assert(texts(command.args@) =~= with_features + seq![name@]);
            assert(command@ == install_command(entries[i as int].0, entries[i as int].1));
            let ghost before = commands(plan@);
            plan.push(command);
            assert(commands(plan@) =~= before.push(command@));
            assert(before.push(command@) =~= install_commands(entries).take(i + 1));
            i += 1;
        }
        assert(install_commands(entries).take(n as int) =~= install_commands(entries));
        plan
    }

    /// The invocation that uninstalls `packages`, or none where there is nothing
    /// to uninstall.
    pub fn remove_packages(packages: &NameSet) -> (command: Option<Command>)
        ensures
            packages.names().len() == 0 ==> command is None,
            packages.names().len() > 0 ==> (command matches Some(c) && c@ == uninstall_command(
                packages.names(),
            )),
    {
        let n = packages.len();
        if n == 0 {
            return None;
        }
        let mut command = invocation("cargo", &["uninstall"], Perms::Same);
        let ghost names = packages.names();
        let ghost head = seq!["cargo"@, "uninstall"@];
        assert(texts(command.args@) =~= head + names.take(0));
        let mut i: usize = 0;
        while i < n
            invariant
                i <= n,
                n == names.len(),
                names == packages.names(),
                texts(command.args@) == head + names.take(i as int),
                command.perms == Perms::Same,
            decreases n - i,
        {
            let ghost before = texts(command.args@);
            push_arg(&mut command.args, packages.name(i).as_str());
            assert(before.push(names[i as int]) =~= head + names.take(i + 1));
            i += 1;
        }
        assert(names.take(n as int) =~= names);
        Some(command)
    }

    /// The invocation that asks the cache helper for its version. Where it fails
    /// the helper is absent.
    pub fn cache_probe() -> (command: Command)
        ensures
            command@ == cache_probe_command(),
    {
        let command = invocation("cargo-cache", &["-V"], Perms::Same);
        assert(command@.args =~= cache_probe_command().args);
        command
    }

    /// The invocation that cleans the cache, or none where the cache helper is
    /// absent, in which case nothing is cleaned and nothing has failed.
    pub fn clean_cache(helper_present: bool) -> (command: Option<Command>)
        ensures
            !helper_present ==> command is None,
            helper_present ==> (command matches Some(c) && c@ == clean_command()),
    {
        if helper_present {
            let command = invocation("cargo", &["cache", "-a"], Perms::Same);
            assert(command@.args =~= clean_command().args);
            Some(command)
        } else {
            None
        }
    }

    /// The invocation that asks Cargo for its version. Where it fails Cargo is
    /// taken to be absent.
    pub fn version() -> (command: Command)
        ensures
            command@ == version_command(),
    {
        let command = invocation("cargo", &["--version"], Perms::Same);
        assert(command@.args =~= version_command().args);
        command
    }
}

} // verus!
