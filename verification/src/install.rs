//! Sorting out where the packages to install come from.
//!
//! Packages that no repository has are asked for in the AUR. The replies received so far are an
//! argument here, in the order in which they were asked for.

use crate::command::Source;
use crate::database::{
    find_package, find_sync_pkg, lookup, lookup_finds_the_first, sync_lookup, Databases,
    DatabasesModel, PackageModel, SyncModel,
};
use crate::resolve::{reply_models, Fetched, Reply};
use crate::style::{note, notice, painted, Colour};
use crate::text::{lowered, texts, to_ascii_lowercase};
use vstd::prelude::*;

verus! {

/// What is to be installed.
#[derive(Debug)]
pub enum InstallRequest {
    /// The package file at this path.
    File(String),
    /// The packages that were named.
    Names,
}

/// Decides what is to be installed: a package file, or packages by name, but not both.
pub fn install_request(packages: &Vec<String>, local: Option<&str>) -> (r: Result<
    InstallRequest,
    String,
>)
    ensures
        match (local, packages@.len() == 0) {
            (Some(path), true) => r matches Ok(InstallRequest::File(file)) && file@ == path@,
            (Some(_), false) => r matches Err(message) && message@
                == "do not mix package names with --local"@,
            (None, true) => r matches Err(message) && message@
                == "no package names provided (or use --local <file.pkg.tar.zst>)"@,
            (None, false) => r == Ok::<InstallRequest, String>(InstallRequest::Names),
        },
{
    match local {
        Some(path) => if !packages.is_empty() {
            Err(String::from_str("do not mix package names with --local"))
        } else {
            Ok(InstallRequest::File(path.to_owned()))
        },
        None => if packages.is_empty() {
            Err(String::from_str("no package names provided (or use --local <file.pkg.tar.zst>)"))
        } else {
            Ok(InstallRequest::Names)
        },
    }
}

/// Where sorting out stands.
#[verifier::ext_equal]
pub struct Targets {
    /// The packages that repositories have.
    pub sync: Seq<Seq<char>>,
    /// The packages that the AUR has.
    pub aur: Seq<Seq<char>>,
    /// What was said of each package.
    pub lines: Seq<Seq<char>>,
}

/// How sorting out ended.
pub enum SortEnd {
    /// Every package has its place.
    Ready,
    /// The AUR has to be asked about this package.
    Ask(Seq<char>),
    /// A package cannot be had, with this message.
    Failed(Seq<char>),
}

/// The line for a package that is installed already.
pub open spec fn installed_line(package: PackageModel) -> Seq<char> {
    notice(Colour::Cyan, package.name + " already installed ("@ + package.version + ")"@)
}

/// The line for a package that will be installed.
pub open spec fn queued_line(name: Seq<char>, origin: Seq<char>) -> Seq<char> {
    notice(Colour::Cyan, "queued "@ + name + " from "@ + origin)
}

/// The message for the AUR source where there is no helper.
pub open spec fn no_helper_message() -> Seq<char> {
    "the AUR source requires yay or paru"@
}

/// Sorts out the packages one after another. `helper` tells whether there is one of the programs
/// that the AUR source requires.
pub open spec fn sort_out(
    databases: DatabasesModel,
    packages: Seq<Seq<char>>,
    source: Source,
    helper: bool,
    replies: Seq<Reply>,
    targets: Targets,
) -> (Targets, SortEnd)
    decreases packages.len(),
{
    if packages.len() == 0 {
        (targets, SortEnd::Ready)
    } else {
        let name = lowered(packages[0]);
        let others = packages.drop_first();
        match (lookup(databases.local, name), sync_lookup(databases.sync, name, source)) {
            (Some(installed), _) => sort_out(
                databases,
                others,
                source,
                helper,
                replies,
                Targets { lines: targets.lines.push(installed_line(installed)), ..targets },
            ),
            (None, Some((repository, _))) => sort_out(
                databases,
                others,
                source,
                helper,
                replies,
                Targets {
                    sync: targets.sync.push(name),
                    lines: targets.lines.push(queued_line(name, repository)),
                    ..targets
                },
            ),
            (None, None) => if source == Source::Arch {
                (
                    targets,
                    SortEnd::Failed("package '"@ + name + "' not found in sync databases"@),
                )
            } else if source == Source::Aur && !helper {
                (targets, SortEnd::Failed(no_helper_message()))
            } else if replies.len() == 0 {
                (targets, SortEnd::Ask(name))
            } else {
                match replies[0] {
                    Reply::Failed(reason) => (targets, SortEnd::Failed(reason)),
                    Reply::Missing => (
                        targets,
                        SortEnd::Failed(
                            "package '"@ + name + "' was not found in Arch repos or AUR"@,
                        ),
                    ),
                    Reply::Found(_) => sort_out(
                        databases,
                        others,
                        source,
                        helper,
                        replies.drop_first(),
                        Targets {
                            aur: targets.aur.push(name),
                            lines: targets.lines.push(queued_line(name, "AUR"@)),
                            ..targets
                        },
                    ),
                }
            },
        }
    }
}

/// Where sorting out begins.
pub open spec fn no_targets() -> Targets {
    Targets { sync: seq![], aur: seq![], lines: seq![] }
}

/// How far the replies led.
#[derive(Debug)]
pub enum SortState {
    /// Every package has its place.
    Ready,
    /// The AUR has to be asked about this package.
    Ask(String),
    /// A package cannot be had, with this message.
    Failed(String),
}

impl View for SortState {
    type V = SortEnd;

    open spec fn view(&self) -> SortEnd {
        match self {
            SortState::Ready => SortEnd::Ready,
            SortState::Ask(name) => SortEnd::Ask(name@),
            SortState::Failed(message) => SortEnd::Failed(message@),
        }
    }
}

/// Where the packages to install come from, as far as it is known.
#[derive(Debug)]
pub struct Sorted {
    /// The packages that repositories have.
    pub sync_targets: Vec<String>,
    /// The packages that the AUR has.
    pub aur_targets: Vec<String>,
    /// What is to be said of each package.
    pub lines: Vec<String>,
    /// How far the replies led.
    pub state: SortState,
}

impl Sorted {
    /// Where sorting out stands.
    pub open spec fn targets(self) -> Targets {
        Targets {
            sync: texts(self.sync_targets@),
            aur: texts(self.aur_targets@),
            lines: texts(self.lines@),
        }
    }
}

fn failure(name: &str, reason: &str) -> (r: String)
    ensures
        r@ == "package '"@ + name@ + reason@,
{
    String::from_str("package '").concat(name).concat(reason)
}

/// Sorts out where the packages to install come from: nowhere if they are installed, from the first
/// repository that has them, or else from the AUR, if the source allows it. `helper` tells whether
/// there is one of the programs that the AUR source requires.
pub fn install_packages(
    databases: &Databases,
    packages: &Vec<String>,
    source: Source,
    helper: bool,
    replies: &Vec<Fetched>,
) -> (r: Sorted)
    ensures
        (r.targets(), r.state@) == sort_out(
            databases@,
            texts(packages@),
            source,
            helper,
            reply_models(replies@),
            no_targets(),
        ),
{
    let ghost wanted = texts(packages@);
    let ghost all = reply_models(replies@);
    let ghost whole = sort_out(databases@, wanted, source, helper, all, no_targets());
    let mut r = Sorted {
        sync_targets: Vec::new(),
        aur_targets: Vec::new(),
        lines: Vec::new(),
        state: SortState::Ready,
    };
    let mut used: usize = 0;
    let mut i: usize = 0;
    assert(wanted.skip(0) =~= wanted);
    assert(all.skip(0) =~= all);
    assert(r.targets() =~= no_targets());
    while i < packages.len()
        invariant
            i <= packages@.len(),
            used <= replies@.len(),
            wanted == texts(packages@),
            all == reply_models(replies@),
            r.state is Ready,
            whole == sort_out(databases@, wanted, source, helper, all, no_targets()),
            whole == sort_out(
                databases@,
                wanted.skip(i as int),
                source,
                helper,
                all.skip(used as int),
                r.targets(),
            ),
        decreases packages@.len() - i,
    {
        let ghost held = r.targets();
        assert(wanted.skip(i as int)[0] == packages@[i as int]@);
        assert(wanted.skip(i as int).drop_first() =~= wanted.skip(i + 1));
        let name = to_ascii_lowercase(packages[i].as_str());
        i += 1;
        if let Some(installed) = find_package(&databases.local, name.as_str()) {
            let line = note(
                Colour::Cyan,
                installed.name.clone().concat(" already installed (").concat(
                    installed.version.as_str(),
                ).concat(")").as_str(),
            );
            r.lines.push(line);
            assert(r.targets() =~= (Targets { lines: held.lines.push(line@), ..held }));
            continue;
        }
        let origin = match find_sync_pkg(&databases.sync, name.as_str(), source) {
            Some((repository, _)) => Some(repository),
            None => None,
        };
        if let Some(repository) = origin {
            let line = note(
                Colour::Cyan,
                String::from_str("queued ").concat(name.as_str()).concat(" from ").concat(
                    repository,
                ).as_str(),
            );
            r.lines.push(line);
            r.sync_targets.push(name);
            assert(r.targets() =~= (Targets {
                sync: held.sync.push(name@),
                lines: held.lines.push(line@),
                ..held
            }));
            continue;
        }
        if source == Source::Arch {
            r.state = SortState::Failed(failure(name.as_str(), "' not found in sync databases"));
            assert(r.targets() =~= held);
            return r;
        }
        if source == Source::Aur && !helper {
            r.state = SortState::Failed(String::from_str("the AUR source requires yay or paru"));
            assert(r.targets() =~= held);
            return r;
        }
        if used == replies.len() {
            r.state = SortState::Ask(name);
            assert(r.targets() =~= held);
            return r;
        }
        assert(all.skip(used as int)[0] == replies@[used as int]@);
        assert(all.skip(used as int).drop_first() =~= all.skip(used + 1));
        match &replies[used] {
            Fetched::Failed(reason) => {
                r.state = SortState::Failed(reason.clone());
                assert(r.targets() =~= held);
                return r;
            },
            Fetched::Missing => {
                r.state = SortState::Failed(
                    failure(name.as_str(), "' was not found in Arch repos or AUR"),
                );
                assert(r.targets() =~= held);
                return r;
            },
            Fetched::Found(_) => {
                let line = note(
                    Colour::Cyan,
                    String::from_str("queued ").concat(name.as_str()).concat(" from ").concat(
                        "AUR",
                    ).as_str(),
                );
                r.lines.push(line);
                r.aur_targets.push(name);
                used += 1;
                assert(r.targets() =~= (Targets {
                    aur: held.aur.push(name@),
                    lines: held.lines.push(line@),
                    ..held
                }));
            },
        }
    }
    assert(wanted.skip(i as int) =~= Seq::<Seq<char>>::empty());
    r
}

/// What comes next in an installation.
#[derive(Debug)]
pub enum InstallPart {
    /// The AUR has to be asked about this package.
    Ask(String),
    /// Nothing; this line says so.
    NothingToDo(String),
    /// The packages of the repositories have to be installed.
    Repositories,
    /// The packages of the AUR have to be installed.
    Aur,
    /// Nothing: all is done.
    Done,
    /// Nothing: the installation failed, with this message.
    Failed(String),
}

/// What comes next, with its texts.
#[verifier::ext_equal]
pub enum PartModel {
    Ask(Seq<char>),
    NothingToDo(Seq<char>),
    Repositories,
    Aur,
    Done,
    Failed(Seq<char>),
}

impl View for InstallPart {
    type V = PartModel;

    open spec fn view(&self) -> PartModel {
        match self {
            InstallPart::Ask(name) => PartModel::Ask(name@),
            InstallPart::NothingToDo(line) => PartModel::NothingToDo(line@),
            InstallPart::Repositories => PartModel::Repositories,
            InstallPart::Aur => PartModel::Aur,
            InstallPart::Done => PartModel::Done,
            InstallPart::Failed(message) => PartModel::Failed(message@),
        }
    }
}

/// What comes next once the targets are sorted out as far as `end`, by what came of installing the
/// packages of the repositories and those of the AUR. The repositories come first, and the AUR only
/// if that went well.
pub open spec fn next_part(
    targets: Targets,
    end: SortEnd,
    repositories: Option<Result<(), String>>,
    aur: Option<Result<(), String>>,
) -> PartModel {
    match end {
        SortEnd::Ask(name) => PartModel::Ask(name),
        SortEnd::Failed(message) => PartModel::Failed(message),
        SortEnd::Ready => if targets.sync.len() == 0 && targets.aur.len() == 0 {
            PartModel::NothingToDo(notice(Colour::Green, "Nothing to do"@))
        } else if targets.sync.len() > 0 && !(repositories matches Some(Ok(()))) {
            match repositories {
                Some(Err(message)) => PartModel::Failed(message@),
                _ => PartModel::Repositories,
            }
        } else if targets.aur.len() > 0 && !(aur matches Some(Ok(()))) {
            match aur {
                Some(Err(message)) => PartModel::Failed(message@),
                _ => PartModel::Aur,
            }
        } else {
            PartModel::Done
        },
    }
}

/// Decides what comes next in an installation, by what came so far of its two parts.
pub fn next_installation(
    sorted: &Sorted,
    repositories: &Option<Result<(), String>>,
    aur: &Option<Result<(), String>>,
) -> (r: InstallPart)
    ensures
        r@ == next_part(sorted.targets(), sorted.state@, *repositories, *aur),
{
    match &sorted.state {
        SortState::Ask(name) => {
            return InstallPart::Ask(name.clone());
        },
        SortState::Failed(message) => {
            return InstallPart::Failed(message.clone());
        },
        SortState::Ready => {},
    }
    if sorted.sync_targets.is_empty() && sorted.aur_targets.is_empty() {
        return InstallPart::NothingToDo(note(Colour::Green, "Nothing to do"));
    }
    if !sorted.sync_targets.is_empty() {
        match repositories {
            None => {
                return InstallPart::Repositories;
            },
            Some(Err(message)) => {
                return InstallPart::Failed(message.clone());
            },
            Some(Ok(())) => {},
        }
    }
    if !sorted.aur_targets.is_empty() {
        match aur {
            None => {
                return InstallPart::Aur;
            },
            Some(Err(message)) => {
                return InstallPart::Failed(message.clone());
            },
            Some(Ok(())) => {},
        }
    }
    InstallPart::Done
}

/// The packages of the AUR come last: they are installed only once every package has its place and
/// those of the repositories, if there are any, were installed.
pub proof fn aur_comes_last(
    targets: Targets,
    end: SortEnd,
    repositories: Option<Result<(), String>>,
    aur: Option<Result<(), String>>,
)
    requires
        next_part(targets, end, repositories, aur) is Aur,
    ensures
        end is Ready,
        targets.aur.len() > 0,
        targets.sync.len() > 0 ==> (repositories matches Some(Ok(_))),
{
}

/// An installation is done only when each of its parts went well.
pub proof fn done_means_installed(
    targets: Targets,
    end: SortEnd,
    repositories: Option<Result<(), String>>,
    aur: Option<Result<(), String>>,
)
    requires
        next_part(targets, end, repositories, aur) is Done,
    ensures
        end is Ready,
        targets.sync.len() > 0 ==> (repositories matches Some(Ok(_))),
        targets.aur.len() > 0 ==> (aur matches Some(Ok(_))),
{
}

/// The Arch source never asks the AUR.
pub proof fn arch_source_never_asks(
    databases: DatabasesModel,
    packages: Seq<Seq<char>>,
    helper: bool,
    replies: Seq<Reply>,
    targets: Targets,
)
    ensures
        ({
            let (reached, end) = sort_out(
                databases,
                packages,
                Source::Arch,
                helper,
                replies,
                targets,
            );
            !(end is Ask) && reached.aur == targets.aur
        }),
    decreases packages.len(),
{
    if packages.len() > 0 {
        let name = lowered(packages[0]);
        let others = packages.drop_first();
        match (lookup(databases.local, name), sync_lookup(databases.sync, name, Source::Arch)) {
            (Some(installed), _) => arch_source_never_asks(
                databases,
                others,
                helper,
                replies,
                Targets { lines: targets.lines.push(installed_line(installed)), ..targets },
            ),
            (None, Some((repository, _))) => arch_source_never_asks(
                databases,
                others,
                helper,
                replies,
                Targets {
                    sync: targets.sync.push(name),
                    lines: targets.lines.push(queued_line(name, repository)),
                    ..targets
                },
            ),
            _ => {},
        }
    }
}

/// Whether every package in the list is one that the repositories have and that is not installed.
pub open spec fn all_in_repositories(
    databases: DatabasesModel,
    names: Seq<Seq<char>>,
    source: Source,
) -> bool {
    forall|i: int|
        0 <= i < names.len() ==> !databases.installed(#[trigger] names[i]) && sync_lookup(
            databases.sync,
            names[i],
            source,
        ) is Some
}

/// Whether every package in the list is neither installed nor in a repository.
pub open spec fn all_elsewhere(
    databases: DatabasesModel,
    names: Seq<Seq<char>>,
    source: Source,
) -> bool {
    forall|i: int|
        0 <= i < names.len() ==> !databases.installed(#[trigger] names[i]) && sync_lookup(
            databases.sync,
            names[i],
            source,
        ) is None
}

/// Every package gets its right place: what is to come from the repositories is in one of them,
/// what is to come from the AUR is in none, nothing that is installed is installed again, and
/// something is said of every package that was dealt with.
pub proof fn targets_are_in_their_places(
    databases: DatabasesModel,
    packages: Seq<Seq<char>>,
    source: Source,
    helper: bool,
    replies: Seq<Reply>,
    targets: Targets,
)
    requires
        all_in_repositories(databases, targets.sync, source),
        all_elsewhere(databases, targets.aur, source),
    ensures
        ({
            let (reached, end) = sort_out(databases, packages, source, helper, replies, targets);
            &&& all_in_repositories(databases, reached.sync, source)
            &&& all_elsewhere(databases, reached.aur, source)
            &&& end is Ready ==> reached.lines.len() == targets.lines.len() + packages.len()
        }),
    decreases packages.len(),
{
    if packages.len() > 0 {
        let name = lowered(packages[0]);
        let others = packages.drop_first();
        match (lookup(databases.local, name), sync_lookup(databases.sync, name, source)) {
            (Some(installed), _) => targets_are_in_their_places(
                databases,
                others,
                source,
                helper,
                replies,
                Targets { lines: targets.lines.push(installed_line(installed)), ..targets },
            ),
            (None, Some((repository, _))) => targets_are_in_their_places(
                databases,
                others,
                source,
                helper,
                replies,
                Targets {
                    sync: targets.sync.push(name),
                    lines: targets.lines.push(queued_line(name, repository)),
                    ..targets
                },
            ),
            (None, None) => {
                if source != Source::Arch && (source != Source::Aur || helper) && replies.len() > 0
                    && replies[0] is Found {
                    targets_are_in_their_places(
                        databases,
                        others,
                        source,
                        helper,
                        replies.drop_first(),
                        Targets {
                            aur: targets.aur.push(name),
                            lines: targets.lines.push(queued_line(name, "AUR"@)),
                            ..targets
                        },
                    );
                }
            },
        }
    }
}

/// More replies change nothing that is settled.
pub proof fn settled_targets_ignore_more_replies(
    databases: DatabasesModel,
    packages: Seq<Seq<char>>,
    source: Source,
    helper: bool,
    replies: Seq<Reply>,
    more: Seq<Reply>,
    targets: Targets,
)
    requires
        !(sort_out(databases, packages, source, helper, replies, targets).1 is Ask),
    ensures
        sort_out(databases, packages, source, helper, replies + more, targets) == sort_out(
            databases,
            packages,
            source,
            helper,
            replies,
            targets,
        ),
    decreases packages.len(),
{
    if packages.len() > 0 {
        let name = lowered(packages[0]);
        let others = packages.drop_first();
        match (lookup(databases.local, name), sync_lookup(databases.sync, name, source)) {
            (Some(installed), _) => settled_targets_ignore_more_replies(
                databases,
                others,
                source,
                helper,
                replies,
                more,
                Targets { lines: targets.lines.push(installed_line(installed)), ..targets },
            ),
            (None, Some((repository, _))) => settled_targets_ignore_more_replies(
                databases,
                others,
                source,
                helper,
                replies,
                more,
                Targets {
                    sync: targets.sync.push(name),
                    lines: targets.lines.push(queued_line(name, repository)),
                    ..targets
                },
            ),
            (None, None) => {
                if source != Source::Arch && (source != Source::Aur || helper) && replies.len()
                    > 0 {
                    assert((replies + more)[0] == replies[0]);
                    assert((replies + more).drop_first() =~= replies.drop_first() + more);
                    if replies[0] is Found {
                        settled_targets_ignore_more_replies(
                            databases,
                            others,
                            source,
                            helper,
                            replies.drop_first(),
                            more,
                            Targets {
                                aur: targets.aur.push(name),
                                lines: targets.lines.push(queued_line(name, "AUR"@)),
                                ..targets
                            },
                        );
                    }
                }
            },
        }
    }
}

/// Without a helper the AUR source installs nothing: the AUR is not asked, no package is to come
/// from anywhere, and only packages that are installed already are not refused.
pub proof fn aur_source_needs_a_helper(
    databases: DatabasesModel,
    packages: Seq<Seq<char>>,
    replies: Seq<Reply>,
    targets: Targets,
)
    ensures
        ({
            let (reached, end) = sort_out(
                databases,
                packages,
                Source::Aur,
                false,
                replies,
                targets,
            );
            &&& !(end is Ask)
            &&& reached.sync == targets.sync && reached.aur == targets.aur
            &&& end matches SortEnd::Failed(message) ==> message == no_helper_message()
            &&& end is Failed <==> exists|i: int|
                0 <= i < packages.len() && !databases.installed(lowered(#[trigger] packages[i]))
        }),
    decreases packages.len(),
{
    if packages.len() > 0 {
        let name = lowered(packages[0]);
        let others = packages.drop_first();
        lemma_no_repository_for_the_aur(databases.sync, name);
        if let Some(installed) = lookup(databases.local, name) {
            let next = Targets { lines: targets.lines.push(installed_line(installed)), ..targets };
            aur_source_needs_a_helper(databases, others, replies, next);
            assert forall|i: int|
                0 <= i < packages.len() && !databases.installed(
                    lowered(#[trigger] packages[i]),
                ) implies exists|j: int|
                0 <= j < others.len() && !databases.installed(lowered(#[trigger] others[j])) by {
                assert(others[i - 1] == packages[i]);
            }
            assert forall|j: int|
                0 <= j < others.len() && !databases.installed(
                    lowered(#[trigger] others[j]),
                ) implies exists|i: int|
                0 <= i < packages.len() && !databases.installed(
                    lowered(#[trigger] packages[i]),
                ) by {
                assert(others[j] == packages[j + 1]);
            }
        } else {
            assert(!databases.installed(lowered(packages[0])));
        }
    }
}

proof fn lemma_no_repository_for_the_aur(sync: Seq<SyncModel>, name: Seq<char>)
    ensures
        sync_lookup(sync, name, Source::Aur) is None,
    decreases sync.len(),
{
    if sync.len() > 0 {
        lemma_no_repository_for_the_aur(sync.drop_first(), name);
    }
}

/// The programs one of which the AUR source requires.
pub open spec fn helper_names() -> Seq<Seq<char>> {
    seq!["yay"@, "paru"@]
}

/// Names the programs one of which the AUR source requires.
pub fn aur_helpers() -> (r: Vec<String>)
    ensures
        texts(r@) == helper_names(),
{
    let r = vec![String::from_str("yay"), String::from_str("paru")];
    assert(texts(r@) =~= helper_names());
    r
}

/// Whether one of the programs was found.
pub fn has_aur_helper(found: &Vec<bool>) -> (r: bool)
    ensures
        r == found@.contains(true),
{
    let mut i: usize = 0;
    while i < found.len()
        invariant
            i <= found@.len(),
            forall|j: int| 0 <= j < i ==> !#[trigger] found@[j],
        decreases found@.len() - i,
    {
        if found[i] {
            assert(found@[i as int] == true);
            return true;
        }
        i += 1;
    }
    false
}

/// One more package changes nothing about those before it. If they all have their places, it gets
/// its own behind them: none if it is installed, among the packages of the repositories if one of
/// them has it, and else, if the source and the next reply allow it, among those of the AUR. What is
/// said of it names it in lower case, and where it is.
pub proof fn one_more_package_gets_its_place(
    databases: DatabasesModel,
    packages: Seq<Seq<char>>,
    package: Seq<char>,
    source: Source,
    helper: bool,
    replies: Seq<Reply>,
    targets: Targets,
)
    ensures
        sort_out(databases, Seq::empty(), source, helper, replies, targets) == (
            targets,
            SortEnd::Ready,
        ),
        ({
            let (before, end) = sort_out(databases, packages, source, helper, replies, targets);
            let after = sort_out(
                databases,
                packages.push(package),
                source,
                helper,
                replies,
                targets,
            );
            let name = lowered(package);
            let installed = lookup(databases.local, name);
            let found = sync_lookup(databases.sync, name, source);
            let used = before.aur.len() - targets.aur.len();
            let mark = painted(Colour::Cyan, "==>"@) + " "@;
            let lost = end is Ready && installed is None && found is None;
            let asked = lost && source != Source::Arch && (source == Source::Aur ==> helper);
            &&& used >= 0
            &&& !(end is Ready) ==> after == (before, end)
            &&& end is Ready && installed is Some ==> after == (
                Targets {
                    sync: before.sync,
                    aur: before.aur,
                    lines: before.lines.push(
                        mark + (name + " already installed ("@ + (installed->0).version + ")"@),
                    ),
                },
                SortEnd::Ready,
            )
            &&& end is Ready && installed is None && found is Some ==> after == (
                Targets {
                    sync: before.sync.push(name),
                    aur: before.aur,
                    lines: before.lines.push(mark + ("queued "@ + name + " from "@ + (found->0).0)),
                },
                SortEnd::Ready,
            )
            &&& lost && source == Source::Arch ==> after == (
                before,
                SortEnd::Failed("package '"@ + name + "' not found in sync databases"@),
            )
            &&& lost && source == Source::Aur && !helper ==> after == (
                before,
                SortEnd::Failed("the AUR source requires yay or paru"@),
            )
            &&& asked && used >= replies.len() ==> after == (before, SortEnd::Ask(name))
            &&& asked && used < replies.len() && replies[used] is Missing ==> after == (
                before,
                SortEnd::Failed("package '"@ + name + "' was not found in Arch repos or AUR"@),
            )
            &&& asked && used < replies.len() && replies[used] is Failed ==> after == (
                before,
                SortEnd::Failed(replies[used]->Failed_0),
            )
            &&& asked && used < replies.len() && replies[used] is Found ==> after == (
                Targets {
                    sync: before.sync,
                    aur: before.aur.push(name),
                    lines: before.lines.push(mark + ("queued "@ + name + " from "@ + "AUR"@)),
                },
                SortEnd::Ready,
            )
        }),
    decreases packages.len(),
{
    let all = packages.push(package);
    let name = lowered(package);
    lookup_finds_the_first(databases.local, name);
    reveal_with_fuel(sort_out, 2);
    if packages.len() == 0 {
        assert(all.drop_first() =~= packages);
        assert(packages =~= Seq::empty());
        assert(all[0] == package);
    } else {
        let rest = packages.drop_first();
        let first = lowered(packages[0]);
        assert(all[0] == packages[0]);
        assert(all.drop_first() =~= rest.push(package));
        match (
            lookup(databases.local, first),
            sync_lookup(databases.sync, first, source),
        ) {
            (Some(installed), _) => {
                one_more_package_gets_its_place(
                    databases,
                    rest,
                    package,
                    source,
                    helper,
                    replies,
                    Targets { lines: targets.lines.push(installed_line(installed)), ..targets },
                );
            },
            (None, Some((repository, _))) => {
                one_more_package_gets_its_place(
                    databases,
                    rest,
                    package,
                    source,
                    helper,
                    replies,
                    Targets {
                        sync: targets.sync.push(first),
                        lines: targets.lines.push(queued_line(first, repository)),
                        ..targets
                    },
                );
            },
            (None, None) => {
                if source != Source::Arch && (source == Source::Aur ==> helper) && replies.len() > 0
                    && replies[0] is Found {
                    let next = Targets {
                        aur: targets.aur.push(first),
                        lines: targets.lines.push(queued_line(first, "AUR"@)),
                        ..targets
                    };
                    one_more_package_gets_its_place(
                        databases,
                        rest,
                        package,
                        source,
                        helper,
                        replies.drop_first(),
                        next,
                    );
                    let (before, _) = sort_out(
                        databases,
                        rest,
                        source,
                        helper,
                        replies.drop_first(),
                        next,
                    );
                    let used = before.aur.len() - targets.aur.len();
                    if used - 1 < replies.drop_first().len() {
                        assert(replies.drop_first()[used - 1] == replies[used]);
                    }
                }
            },
        }
    }
}

/// The parts of an installation come in turn: nothing while a package has no place, the
/// repositories before the AUR, each only where something is to come from it and until it went
/// well, and a part that failed is the end.
pub proof fn parts_come_in_turn(
    targets: Targets,
    end: SortEnd,
    repositories: Option<Result<(), String>>,
    aur: Option<Result<(), String>>,
)
    ensures
        ({
            let part = next_part(targets, end, repositories, aur);
            let from_repositories = end is Ready && targets.sync.len() > 0;
            let settled = !from_repositories || (repositories is Some && repositories->0 is Ok);
            let from_aur = end is Ready && targets.aur.len() > 0 && settled;
            &&& end is Ask ==> part == PartModel::Ask(end->Ask_0)
            &&& end is Failed ==> part == PartModel::Failed(end->Failed_0)
            &&& end is Ready && targets.sync.len() == 0 && targets.aur.len() == 0 ==> part
                == PartModel::NothingToDo(
                painted(Colour::Green, "==>"@) + " "@ + "Nothing to do"@,
            )
            &&& from_repositories && repositories is None ==> part is Repositories
            &&& from_repositories && repositories is Some && repositories->0 is Err ==> part
                == PartModel::Failed((repositories->0)->Err_0@)
            &&& from_aur && aur is None ==> part is Aur
            &&& from_aur && aur is Some && aur->0 is Err ==> part == PartModel::Failed(
                (aur->0)->Err_0@,
            )
            &&& part is Done <==> end is Ready && targets.sync.len() + targets.aur.len() > 0
                && settled && (from_aur ==> aur is Some && aur->0 is Ok)
        }),
{
}

/// The targets are those that were sorted out, and so is how it ended.
pub proof fn sorted_targets_are_its_fields(sorted: Sorted)
    ensures
        sorted.targets().sync == texts(sorted.sync_targets@),
        sorted.targets().aur == texts(sorted.aur_targets@),
        sorted.targets().lines == texts(sorted.lines@),
        sorted.state is Ready <==> sorted.state@ is Ready,
        sorted.state is Ask <==> sorted.state@ is Ask,
        sorted.state is Failed <==> sorted.state@ is Failed,
        sorted.state is Ask ==> sorted.state@->Ask_0 == sorted.state->Ask_0@,
        sorted.state is Failed ==> sorted.state@->Failed_0 == sorted.state->Failed_0@,
{
}

/// The texts of a part are those of the part.
pub proof fn part_texts_are_those_of_the_part(part: InstallPart)
    ensures
        part is Ask <==> part@ is Ask,
        part is NothingToDo <==> part@ is NothingToDo,
        part is Repositories <==> part@ is Repositories,
        part is Aur <==> part@ is Aur,
        part is Done <==> part@ is Done,
        part is Failed <==> part@ is Failed,
        part is Ask ==> part@->Ask_0 == part->Ask_0@,
        part is NothingToDo ==> part@->NothingToDo_0 == part->NothingToDo_0@,
        part is Failed ==> part@->Failed_0 == part->Failed_0@,
{
}

/// Either of the two helpers will do for the AUR source.
pub proof fn two_helpers_are_known(name: Seq<char>)
    ensures
        helper_names().contains(name) <==> name == "yay"@ || name == "paru"@,
{
    assert(helper_names()[0] == "yay"@);
    assert(helper_names()[1] == "paru"@);
}

} // verus!
