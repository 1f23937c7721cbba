//! The package databases as the commands read them.

use crate::aur::optional_text;
use crate::command::{repo_matches_source, Source};
use crate::text::texts;
use vstd::prelude::*;

verus! {

/// A package of a repository, or an installed one.
#[derive(Debug)]
pub struct Package {
    pub name: String,
    pub version: String,
    pub description: Option<String>,
    /// The names of the packages that it depends on.
    pub depends: Vec<String>,
}

/// A repository and its packages.
#[derive(Debug)]
pub struct SyncDatabase {
    pub name: String,
    pub packages: Vec<Package>,
}

/// The installed packages and the registered repositories, in the order of their registration.
#[derive(Debug)]
pub struct Databases {
    pub local: Vec<Package>,
    pub sync: Vec<SyncDatabase>,
}

/// The texts that a package holds.
#[verifier::ext_equal]
pub struct PackageModel {
    pub name: Seq<char>,
    pub version: Seq<char>,
    pub description: Option<Seq<char>>,
    pub depends: Seq<Seq<char>>,
}

/// The texts that a repository holds.
#[verifier::ext_equal]
pub struct SyncModel {
    pub name: Seq<char>,
    pub packages: Seq<PackageModel>,
}

/// The texts that the databases hold.
#[verifier::ext_equal]
pub struct DatabasesModel {
    pub local: Seq<PackageModel>,
    pub sync: Seq<SyncModel>,
}

/// The texts that a list of packages holds.
pub open spec fn package_models(packages: Seq<Package>) -> Seq<PackageModel> {
    Seq::new(packages.len(), |i: int| packages[i]@)
}

/// The texts that a list of repositories holds.
pub open spec fn sync_models(databases: Seq<SyncDatabase>) -> Seq<SyncModel> {
    Seq::new(databases.len(), |i: int| databases[i]@)
}

impl View for Package {
    type V = PackageModel;

    open spec fn view(&self) -> PackageModel {
        PackageModel {
            name: self.name@,
            version: self.version@,
            description: optional_text(self.description),
            depends: texts(self.depends@),
        }
    }
}

impl View for SyncDatabase {
    type V = SyncModel;

    open spec fn view(&self) -> SyncModel {
        SyncModel { name: self.name@, packages: package_models(self.packages@) }
    }
}

impl View for Databases {
    type V = DatabasesModel;

    open spec fn view(&self) -> DatabasesModel {
        DatabasesModel {
            local: package_models(self.local@),
            sync: sync_models(self.sync@),
        }
    }
}

/// The first package of that name.
pub open spec fn lookup(packages: Seq<PackageModel>, name: Seq<char>) -> Option<PackageModel>
    decreases packages.len(),
{
    if packages.len() == 0 {
        None
    } else if packages[0].name == name {
        Some(packages[0])
    } else {
        lookup(packages.drop_first(), name)
    }
}

/// The first package of that name in the first repository that a source allows and that has one,
/// with the name of the repository.
pub open spec fn sync_lookup(sync: Seq<SyncModel>, name: Seq<char>, source: Source) -> Option<
    (Seq<char>, PackageModel),
>
    decreases sync.len(),
{
    if sync.len() == 0 {
        None
    } else if source != Source::Aur && lookup(sync[0].packages, name) is Some {
        Some((sync[0].name, lookup(sync[0].packages, name)->0))
    } else {
        sync_lookup(sync.drop_first(), name, source)
    }
}

impl DatabasesModel {
    /// Whether a package of that name is installed.
    pub open spec fn installed(self, name: Seq<char>) -> bool {
        lookup(self.local, name) is Some
    }

    /// Whether a package of that name is installed or in an Arch repository.
    pub open spec fn provides(self, name: Seq<char>) -> bool {
        self.installed(name) || sync_lookup(self.sync, name, Source::Arch) is Some
    }
}

/// Finds the package of that name in a list.
pub fn find_package<'a>(packages: &'a Vec<Package>, name: &str) -> (r: Option<&'a Package>)
    ensures
        r is Some <==> lookup(package_models(packages@), name@) is Some,
        r is Some ==> lookup(package_models(packages@), name@) == Some(r->0@),
{
    let ghost all = package_models(packages@);
    let wanted = name.to_owned();
    let mut i: usize = 0;
    assert(all.skip(0) =~= all);
    while i < packages.len()
        invariant
            i <= packages@.len(),
            wanted@ == name@,
            all == package_models(packages@),
            lookup(all, name@) == lookup(all.skip(i as int), name@),
        decreases packages@.len() - i,
    {
        assert(all.skip(i as int)[0] == packages@[i as int]@);
        if packages[i].name == wanted {
            return Some(&packages[i]);
        }
        assert(all.skip(i as int).drop_first() =~= all.skip(i + 1));
        i += 1;
    }
    None
}

/// Finds a package in the repositories that a source allows; the first repository that has it
/// wins.
pub fn find_sync_pkg<'a>(sync: &'a Vec<SyncDatabase>, name: &str, source: Source) -> (r: Option<
    (&'a str, &'a Package),
>)
    ensures
        r is Some <==> sync_lookup(sync_models(sync@), name@, source) is Some,
        r is Some ==> sync_lookup(sync_models(sync@), name@, source) == Some(
            ((r->0).0@, (r->0).1@),
        ),
{
    let ghost all = sync_models(sync@);
    let mut i: usize = 0;
    assert(all.skip(0) =~= all);
    while i < sync.len()
        invariant
            i <= sync@.len(),
            all == sync_models(sync@),
            sync_lookup(all, name@, source) == sync_lookup(all.skip(i as int), name@, source),
        decreases sync@.len() - i,
    {
        assert(all.skip(i as int)[0] == sync@[i as int]@);
        assert(all.skip(i as int).drop_first() =~= all.skip(i + 1));
        if repo_matches_source(sync[i].name.as_str(), source) {
            if let Some(package) = find_package(&sync[i].packages, name) {
                return Some((sync[i].name.as_str(), package));
            }
        }
        i += 1;
    }
    None
}

/// Whether a package of that name is installed.
pub fn is_installed(local: &Vec<Package>, name: &str) -> (r: bool)
    ensures
        r == (lookup(package_models(local@), name@) is Some),
{
    find_package(local, name).is_some()
}

/// The message for databases that could not be opened.
pub fn open_failure(reason: &str) -> (r: String)
    ensures
        r@ == "failed to initialize libalpm: "@ + reason@,
{
    String::from_str("failed to initialize libalpm: ").concat(reason)
}

/// A package is found by its name: the first of that name, and none only where there is none.
pub proof fn lookup_finds_the_first(packages: Seq<PackageModel>, name: Seq<char>)
    ensures
        match lookup(packages, name) {
            Some(found) => found.name == name && exists|i: int|
                0 <= i < packages.len() && #[trigger] packages[i] == found && forall|j: int|
                    0 <= j < i ==> (#[trigger] packages[j]).name != name,
            None => forall|i: int| 0 <= i < packages.len() ==> (#[trigger] packages[i]).name
                != name,
        },
    decreases packages.len(),
{
    if packages.len() > 0 {
        if packages[0].name == name {
            assert(packages[0] == lookup(packages, name)->0);
        } else {
            let rest = packages.drop_first();
            lookup_finds_the_first(rest, name);
            match lookup(rest, name) {
                Some(found) => {
                    let i = choose|i: int|
                        0 <= i < rest.len() && #[trigger] rest[i] == found && forall|j: int|
                            0 <= j < i ==> (#[trigger] rest[j]).name != name;
                    assert(packages[i + 1] == found);
                    assert forall|j: int| 0 <= j < i + 1 implies (#[trigger] packages[j]).name
                        != name by {
                        if j > 0 {
                            assert(rest[j - 1] == packages[j]);
                        }
                    }
                },
                None => {
                    assert forall|i: int| 0 <= i < packages.len() implies (
                    #[trigger] packages[i]).name != name by {
                        if i > 0 {
                            assert(rest[i - 1] == packages[i]);
                        }
                    }
                },
            }
        }
    }
}

/// A package is found in the first repository that has one of its name, and none only where no
/// repository has; the AUR is no repository.
pub proof fn sync_lookup_finds_the_first(sync: Seq<SyncModel>, name: Seq<char>, source: Source)
    ensures
        match sync_lookup(sync, name, source) {
            Some((repository, found)) => source != Source::Aur && found.name == name && exists|
                d: int,
                i: int,
            |
                0 <= d < sync.len() && 0 <= i < sync[d].packages.len() && sync[d].name == repository
                    && #[trigger] sync[d].packages[i] == found && (forall|e: int, j: int|
                    0 <= e < d && 0 <= j < sync[e].packages.len() ==> (
                    #[trigger] sync[e].packages[j]).name != name) && (forall|j: int|
                    0 <= j < i ==> (#[trigger] sync[d].packages[j]).name != name),
            None => source == Source::Aur || forall|d: int, i: int|
                0 <= d < sync.len() && 0 <= i < sync[d].packages.len() ==> (
                #[trigger] sync[d].packages[i]).name != name,
        },
    decreases sync.len(),
{
    if sync.len() > 0 {
        let rest = sync.drop_first();
        let first = sync[0].packages;
        lookup_finds_the_first(first, name);
        sync_lookup_finds_the_first(rest, name, source);
        if source != Source::Aur && lookup(first, name) is Some {
            let found = lookup(first, name)->0;
            let i = choose|i: int|
                0 <= i < first.len() && #[trigger] first[i] == found && forall|j: int|
                    0 <= j < i ==> (#[trigger] first[j]).name != name;
            assert(sync[0].packages[i] == found);
        } else if source != Source::Aur {
            match sync_lookup(rest, name, source) {
                Some((repository, found)) => {
                    let (d, i) = choose|d: int, i: int|
                        0 <= d < rest.len() && 0 <= i < rest[d].packages.len() && rest[d].name
                            == repository && #[trigger] rest[d].packages[i] == found && (forall|
                            e: int,
                            j: int,
                        |
                            0 <= e < d && 0 <= j < rest[e].packages.len() ==> (
                            #[trigger] rest[e].packages[j]).name != name) && (forall|j: int|
                            0 <= j < i ==> (#[trigger] rest[d].packages[j]).name != name);
                    assert(sync[d + 1] == rest[d]);
                    assert(sync[d + 1].packages[i] == found);
                    assert forall|e: int, j: int|
                        0 <= e < d + 1 && 0 <= j < sync[e].packages.len() implies (
                    #[trigger] sync[e].packages[j]).name != name by {
                        if e > 0 {
                            assert(rest[e - 1] == sync[e]);
                            assert(rest[e - 1].packages[j].name != name);
                        }
                    }
                    assert forall|j: int| 0 <= j < i implies (
                    #[trigger] sync[d + 1].packages[j]).name != name by {
                        assert(rest[d].packages[j].name != name);
                    }
                },
                None => {
                    assert forall|d: int, i: int|
                        0 <= d < sync.len() && 0 <= i < sync[d].packages.len() implies (
                    #[trigger] sync[d].packages[i]).name != name by {
                        if d > 0 {
                            assert(rest[d - 1] == sync[d]);
                            assert(rest[d - 1].packages[i].name != name);
                        }
                    }
                },
            }
        }
    }
}

/// The texts of a package are those of its fields.
pub proof fn package_texts_are_its_fields(package: Package)
    ensures
        package@.name == package.name@,
        package@.version == package.version@,
        package.description is Some ==> package@.description == Some(package.description->0@),
        package.description is None ==> package@.description is None,
        package@.depends == texts(package.depends@),
{
}

/// The databases hold the packages that are installed and those of the repositories, each in its
/// place.
pub proof fn databases_hold_every_package(databases: Databases)
    ensures
        databases@.local.len() == databases.local@.len(),
        forall|i: int|
            0 <= i < databases.local@.len() ==> #[trigger] databases@.local[i]
                == databases.local@[i]@,
        databases@.sync.len() == databases.sync@.len(),
        forall|d: int|
            0 <= d < databases.sync@.len() ==> (#[trigger] databases@.sync[d]).name
                == databases.sync@[d].name@ && databases@.sync[d].packages.len()
                == databases.sync@[d].packages@.len(),
        forall|d: int, i: int|
            0 <= d < databases.sync@.len() && 0 <= i < databases.sync@[d].packages@.len()
                ==> #[trigger] databases@.sync[d].packages[i]
                == databases.sync@[d].packages@[i]@,
{
}

} // verus!
