//! Installing a package file that the user has.

use crate::database::{
    find_package, lookup, lookup_finds_the_first, package_models, Package, PackageModel,
};
use crate::paths::{is_absolute, join_path, joined_path, relative_part_stays_below};
use crate::style::{note, notice, paint, painted, Colour};
use crate::text::{ends_with, same};
use vstd::prelude::*;

verus! {

/// Where the search for a package file stands.
#[derive(Debug)]
pub enum PathStep {
    /// The current directory has to be known.
    FindDirectory,
    /// It has to be known whether there is anything at this path.
    Look(String),
    /// The file is at this path.
    Found(String),
    /// There is no such file, with this message.
    Failed(String),
}

/// The step, with its texts.
pub enum PathModel {
    FindDirectory,
    Look(Seq<char>),
    Found(Seq<char>),
    Failed(Seq<char>),
}

impl View for PathStep {
    type V = PathModel;

    open spec fn view(&self) -> PathModel {
        match self {
            PathStep::FindDirectory => PathModel::FindDirectory,
            PathStep::Look(path) => PathModel::Look(path@),
            PathStep::Found(path) => PathModel::Found(path@),
            PathStep::Failed(message) => PathModel::Failed(message@),
        }
    }
}

/// Whether a path names a package file.
pub open spec fn names_package_file(path: Seq<char>) -> bool {
    ".pkg.tar.zst"@.is_suffix_of(path)
}

/// Where the search stands once the full path is known.
pub open spec fn looked(path: Seq<char>, exists: Option<bool>) -> PathModel {
    match exists {
        None => PathModel::Look(path),
        Some(true) => PathModel::Found(path),
        Some(false) => PathModel::Failed("local package '"@ + path + "' does not exist"@),
    }
}

/// Where the search for the package file at `path` stands, by what is known of the current
/// directory and of what is at the full path.
pub open spec fn path_search(
    path: Seq<char>,
    directory: Option<Result<Seq<char>, Seq<char>>>,
    exists: Option<bool>,
) -> PathModel {
    if !names_package_file(path) {
        PathModel::Failed("--local expects a .pkg.tar.zst file"@)
    } else if "/"@.is_prefix_of(path) {
        looked(path, exists)
    } else {
        match directory {
            None => PathModel::FindDirectory,
            Some(Err(reason)) => PathModel::Failed(
                "failed to get current directory: "@ + reason,
            ),
            Some(Ok(base)) => looked(joined_path(base, path), exists),
        }
    }
}

/// The result, with its texts.
pub open spec fn result_texts(result: Result<String, String>) -> Result<Seq<char>, Seq<char>> {
    match result {
        Ok(text) => Ok(text@),
        Err(reason) => Err(reason@),
    }
}

/// The optional result, with its texts.
pub open spec fn known_texts(known: Option<Result<String, String>>) -> Option<
    Result<Seq<char>, Seq<char>>,
> {
    match known {
        Some(result) => Some(result_texts(result)),
        None => None,
    }
}

/// Finds the package file at `path`, by what is known so far of the current directory and of what
/// is at the full path.
pub fn resolve_local_pkg_path(
    path: &str,
    directory: &Option<Result<String, String>>,
    exists: Option<bool>,
) -> (r: PathStep)
    ensures
        r@ == path_search(path@, known_texts(*directory), exists),
{
    if !ends_with(path, ".pkg.tar.zst") {
        return PathStep::Failed(String::from_str("--local expects a .pkg.tar.zst file"));
    }
    let full = if is_absolute(path) {
        path.to_owned()
    } else {
        match directory {
            None => {
                return PathStep::FindDirectory;
            },
            Some(Err(reason)) => {
                return PathStep::Failed(
                    String::from_str("failed to get current directory: ").concat(reason.as_str()),
                );
            },
            Some(Ok(base)) => join_path(base.as_str(), path),
        }
    };
    match exists {
        None => PathStep::Look(full),
        Some(there) => if there {
            PathStep::Found(full)
        } else {
            PathStep::Failed(
                String::from_str("local package '").concat(full.as_str()).concat(
                    "' does not exist",
                ),
            )
        },
    }
}

/// The line that tells where a package file is.
pub fn source_line(path: &str) -> (r: String)
    ensures
        r@ == "===> Source path: "@ + path@,
{
    String::from_str("===> Source path: ").concat(path)
}

/// What a package file holds.
#[derive(Debug)]
pub struct LoadedPackage {
    pub name: String,
    pub version: String,
}

/// What is done with a package file.
#[derive(Debug)]
pub enum LocalStep {
    /// It cannot be used, with this message.
    Failed(String),
    /// There is nothing to do; this line says so.
    Installed(String),
    /// It can be installed; this line says so, and the user has to agree.
    Confirm(String),
}

/// The step, with its texts.
pub enum LocalModel {
    Failed(Seq<char>),
    Installed(Seq<char>),
    Confirm(Seq<char>),
}

impl View for LocalStep {
    type V = LocalModel;

    open spec fn view(&self) -> LocalModel {
        match self {
            LocalStep::Failed(message) => LocalModel::Failed(message@),
            LocalStep::Installed(line) => LocalModel::Installed(line@),
            LocalStep::Confirm(line) => LocalModel::Confirm(line@),
        }
    }
}

/// Whether exactly this version of a package is installed.
pub open spec fn has_version(
    local: Seq<PackageModel>,
    name: Seq<char>,
    version: Seq<char>,
) -> bool {
    lookup(local, name) matches Some(installed) && installed.version == version
}

/// What is done with a package file: only a version that is installed already is left alone.
pub open spec fn local_step(
    local: Seq<PackageModel>,
    path: Seq<char>,
    loaded: Result<LoadedPackage, String>,
) -> LocalModel {
    match loaded {
        Err(reason) => LocalModel::Failed(
            "failed to load local package '"@ + path + "': "@ + reason@,
        ),
        Ok(package) => if has_version(local, package.name@, package.version@) {
            LocalModel::Installed(
                notice(
                    Colour::Cyan,
                    package.name@ + " "@ + package.version@ + " is already installed"@,
                ),
            )
        } else {
            LocalModel::Confirm(
                notice(
                    Colour::Green,
                    "Installing local package "@ + painted(Colour::Yellow, package.name@) + " "@
                        + package.version@,
                ),
            )
        },
    }
}

/// Decides what is done with the package file at `path`, by what loading it brought.
pub fn install_local_package(
    local: &Vec<Package>,
    path: &str,
    loaded: &Result<LoadedPackage, String>,
) -> (r: LocalStep)
    ensures
        r@ == local_step(package_models(local@), path@, *loaded),
{
    match loaded {
        Err(reason) => LocalStep::Failed(
            String::from_str("failed to load local package '").concat(path).concat("': ").concat(
                reason.as_str(),
            ),
        ),
        Ok(package) => {
            if let Some(installed) = find_package(local, package.name.as_str()) {
                if same(installed.version.as_str(), package.version.as_str()) {
                    let message = package.name.clone().concat(" ").concat(
                        package.version.as_str(),
                    ).concat(" is already installed");
                    return LocalStep::Installed(note(Colour::Cyan, message.as_str()));
                }
            }
            let message = String::from_str("Installing local package ").concat(
                paint(Colour::Yellow, package.name.as_str()).as_str(),
            ).concat(" ").concat(package.version.as_str());
            LocalStep::Confirm(note(Colour::Green, message.as_str()))
        },
    }
}

/// A file that is found is a package file, at the path itself or below the current directory, and
/// was seen there.
pub proof fn found_file_is_a_package_file(
    path: Seq<char>,
    directory: Option<Result<Seq<char>, Seq<char>>>,
    exists: Option<bool>,
)
    requires
        path_search(path, directory, exists) is Found,
    ensures
        ({
            let file = path_search(path, directory, exists)->Found_0;
            &&& exists == Some(true)
            &&& names_package_file(file)
            &&& path.is_suffix_of(file)
            &&& file != path ==> (directory matches Some(Ok(base)) && base.is_prefix_of(file))
        }),
{
    reveal_strlit(".pkg.tar.zst");
    let file = path_search(path, directory, exists)->Found_0;
    if !"/"@.is_prefix_of(path) {
        relative_part_stays_below(directory->0->Ok_0, path);
        assert(".pkg.tar.zst"@ =~= file.subrange(file.len() - 12, file.len() as int)) by {
            assert forall|i: int| 0 <= i < 12 implies ".pkg.tar.zst"@[i] == file[file.len() - 12
                + i] by {
                let suffix = path.subrange(path.len() - 12, path.len() as int);
                assert(suffix[i] == path[path.len() - 12 + i]);
                let tail = file.subrange(file.len() - path.len(), file.len() as int);
                assert(tail[path.len() - 12 + i] == file[file.len() - 12 + i]);
            }
        }
    } else {
        assert(path =~= path.subrange(0, path.len() as int));
    }
}

/// Once the directory and what is at the full path are known, the search has ended.
pub proof fn path_search_ends(
    path: Seq<char>,
    directory: Result<Seq<char>, Seq<char>>,
    exists: bool,
)
    ensures
        ({
            let end = path_search(path, Some(directory), Some(exists));
            end is Found || end is Failed
        }),
{
}

/// A file is looked for only under a name that ends as those of packages do. An absolute path is
/// looked at as it is, a relative one below the current directory, and what is said of it names that
/// full path.
pub proof fn full_path_is_looked_at(
    stem: Seq<char>,
    base: Seq<char>,
    reason: Seq<char>,
    directory: Option<Result<Seq<char>, Seq<char>>>,
    exists: Option<bool>,
)
    ensures
        ({
            let path = stem + ".pkg.tar.zst"@;
            let absolute = stem.len() > 0 && stem[0] == '/';
            let full = if absolute {
                path
            } else {
                joined_path(base, path)
            };
            let known = if absolute {
                directory
            } else {
                Some(Ok(base))
            };
            &&& path_search(path, known, None) == PathModel::Look(full)
            &&& path_search(path, known, Some(true)) == PathModel::Found(full)
            &&& path_search(path, known, Some(false)) == PathModel::Failed(
                "local package '"@ + full + "' does not exist"@,
            )
            &&& !absolute ==> path_search(path, None, exists) is FindDirectory
            &&& !absolute ==> path_search(path, Some(Err(reason)), exists) == PathModel::Failed(
                "failed to get current directory: "@ + reason,
            )
        }),
{
    reveal_strlit("/");
    reveal_strlit(".pkg.tar.zst");
    let end = ".pkg.tar.zst"@;
    let path = stem + end;
    assert(path.subrange(path.len() - end.len(), path.len() as int) =~= end);
    if stem.len() > 0 && stem[0] == '/' {
        assert(path.subrange(0, 1) =~= "/"@);
    } else if "/"@.is_prefix_of(path) {
        assert(path.subrange(0, 1)[0] == '/');
        assert(path[0] == '/');
    }
}

/// A path with any other end is refused, whatever is there.
pub proof fn other_files_are_refused(
    path: Seq<char>,
    directory: Option<Result<Seq<char>, Seq<char>>>,
    exists: Option<bool>,
)
    requires
        forall|stem: Seq<char>| path != #[trigger] (stem + ".pkg.tar.zst"@),
    ensures
        path_search(path, directory, exists) == PathModel::Failed(
            "--local expects a .pkg.tar.zst file"@,
        ),
{
    let end = ".pkg.tar.zst"@;
    if end.is_suffix_of(path) {
        let stem = path.subrange(0, path.len() - end.len());
        assert(stem + end =~= path);
    }
}

/// A package file is left alone exactly if the installed package of its name has its version. Else
/// the user is asked, and what is said names the package and the version that the file holds.
pub proof fn only_the_same_version_is_left_alone(
    local: Seq<PackageModel>,
    path: Seq<char>,
    package: LoadedPackage,
    reason: String,
)
    ensures
        local_step(local, path, Err(reason)) == LocalModel::Failed(
            "failed to load local package '"@ + path + "': "@ + reason@,
        ),
        ({
            let step = local_step(local, path, Ok(package));
            let same = exists|k: int|
                0 <= k < local.len() && (#[trigger] local[k]).name == package.name@
                    && local[k].version == package.version@ && forall|j: int|
                    0 <= j < k ==> (#[trigger] local[j]).name != package.name@;
            &&& same ==> step == LocalModel::Installed(
                painted(Colour::Cyan, "==>"@) + " "@ + (package.name@ + " "@ + package.version@
                    + " is already installed"@),
            )
            &&& !same ==> step == LocalModel::Confirm(
                painted(Colour::Green, "==>"@) + " "@ + ("Installing local package "@ + painted(
                    Colour::Yellow,
                    package.name@,
                ) + " "@ + package.version@),
            )
        }),
{
    let name = package.name@;
    lookup_finds_the_first(local, name);
    if let Some(found) = lookup(local, name) {
        let i = choose|i: int|
            0 <= i < local.len() && #[trigger] local[i] == found && forall|j: int|
                0 <= j < i ==> (#[trigger] local[j]).name != name;
        assert forall|k: int|
            0 <= k < local.len() && (#[trigger] local[k]).name == name && forall|j: int|
                0 <= j < k ==> (#[trigger] local[j]).name != name implies k == i by {
            assert(local[i].name == name);
        }
    }
}

/// The texts of a search are those of the search.
pub proof fn path_step_texts_are_those_of_the_step(step: PathStep)
    ensures
        step is FindDirectory <==> step@ is FindDirectory,
        step is Look <==> step@ is Look,
        step is Found <==> step@ is Found,
        step is Failed <==> step@ is Failed,
        step is Look ==> step@->Look_0 == step->Look_0@,
        step is Found ==> step@->Found_0 == step->Found_0@,
        step is Failed ==> step@->Failed_0 == step->Failed_0@,
{
}

/// The texts of a decision are those of the decision.
pub proof fn local_step_texts_are_those_of_the_step(step: LocalStep)
    ensures
        step is Failed <==> step@ is Failed,
        step is Installed <==> step@ is Installed,
        step is Confirm <==> step@ is Confirm,
        step is Failed ==> step@->Failed_0 == step->Failed_0@,
        step is Installed ==> step@->Installed_0 == step->Installed_0@,
        step is Confirm ==> step@->Confirm_0 == step->Confirm_0@,
{
}

} // verus!
