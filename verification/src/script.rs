//! Changing the installed packages: what is done, in which order, and what is said when it fails.

use crate::aur::optional_text;
use crate::command::Source;
use crate::database::{
    find_package, find_sync_pkg, is_installed, lookup, lookup_finds_the_first, package_models,
    sync_lookup, sync_lookup_finds_the_first, sync_models, DatabasesModel, Package, PackageModel,
    SyncDatabase, SyncModel,
};
use crate::install::{all_in_repositories, no_targets, sort_out, targets_are_in_their_places};
use crate::paths::{file_name, package_name_from_pkg_file};
use crate::resolve::Reply;
use crate::style::{note, notice, paint, painted, Colour};
use crate::text::{list_contains, lowered, texts, to_ascii_lowercase};
use vstd::prelude::*;

verus! {

/// Something that is done to the package database, or said.
#[derive(Debug)]
pub enum Call {
    /// Run a program as root, with these arguments.
    Sudo { program: String, args: Vec<String> },
    /// Start a transaction.
    Start,
    /// Work out which packages have newer versions, and queue them.
    QueueUpgrades,
    /// Load the package file at this path.
    Load { path: String },
    /// Queue the package file that was loaded.
    QueueLoaded,
    /// Queue a package of a repository.
    QueueSync { repository: String, package: String },
    /// Queue an installed package for removal.
    QueueRemoval { package: String },
    /// Give up.
    Refuse,
    /// Prepare the transaction.
    Prepare,
    /// Carry the transaction out.
    Commit,
    /// End the transaction.
    Release,
    /// Show these lines.
    Say { lines: Vec<String> },
}

/// A call, and the beginning of the message if it fails.
#[derive(Debug)]
pub struct Op {
    pub call: Call,
    pub failure: String,
}

/// The call, with its texts.
#[verifier::ext_equal]
pub enum CallModel {
    Sudo { program: Seq<char>, args: Seq<Seq<char>> },
    Start,
    QueueUpgrades,
    Load { path: Seq<char> },
    QueueLoaded,
    QueueSync { repository: Seq<char>, package: Seq<char> },
    QueueRemoval { package: Seq<char> },
    Refuse,
    Prepare,
    Commit,
    Release,
    Say { lines: Seq<Seq<char>> },
}

/// The operation, with its texts.
#[verifier::ext_equal]
pub struct OpModel {
    pub call: CallModel,
    pub failure: Seq<char>,
}

impl View for Call {
    type V = CallModel;

    open spec fn view(&self) -> CallModel {
        match self {
            Call::Sudo { program, args } => CallModel::Sudo {
                program: program@,
                args: texts(args@),
            },
            Call::Start => CallModel::Start,
            Call::QueueUpgrades => CallModel::QueueUpgrades,
            Call::Load { path } => CallModel::Load { path: path@ },
            Call::QueueLoaded => CallModel::QueueLoaded,
            Call::QueueSync { repository, package } => CallModel::QueueSync {
                repository: repository@,
                package: package@,
            },
            Call::QueueRemoval { package } => CallModel::QueueRemoval { package: package@ },
            Call::Refuse => CallModel::Refuse,
            Call::Prepare => CallModel::Prepare,
            Call::Commit => CallModel::Commit,
            Call::Release => CallModel::Release,
            Call::Say { lines } => CallModel::Say { lines: texts(lines@) },
        }
    }
}

impl View for Op {
    type V = OpModel;

    open spec fn view(&self) -> OpModel {
        OpModel { call: self.call@, failure: self.failure@ }
    }
}

/// The texts that a script holds.
pub open spec fn op_models(ops: Seq<Op>) -> Seq<OpModel> {
    Seq::new(ops.len(), |i: int| ops[i]@)
}

/// An operation whose failure speaks for itself.
pub open spec fn plain(call: CallModel) -> OpModel {
    OpModel { call, failure: ""@ }
}

fn plain_op(call: Call) -> (r: Op)
    ensures
        r@ == plain(call@),
{
    Op { call, failure: String::from_str("") }
}

/// The message if the script ends with this operation, by the reason for which it failed, if it
/// did. Ending a transaction and showing lines are not judged, and giving up is always the end.
pub open spec fn verdict(op: OpModel, reason: Option<Seq<char>>) -> Option<Seq<char>> {
    match op.call {
        CallModel::Refuse => Some(op.failure),
        CallModel::Release => None,
        CallModel::Say { .. } => None,
        _ => match reason {
            Some(text) => Some(op.failure + text),
            None => None,
        },
    }
}

fn judge(op: &Op, reason: &Option<String>) -> (r: Option<String>)
    ensures
        optional_text(r) == verdict(op@, optional_text(*reason)),
{
    match &op.call {
        Call::Refuse => Some(op.failure.clone()),
        Call::Release => None,
        Call::Say { .. } => None,
        _ => match reason {
            Some(text) => Some(op.failure.clone().concat(text.as_str())),
            None => None,
        },
    }
}

/// Where a script stands.
#[derive(Debug)]
pub enum ScriptStep {
    /// The operation at this place comes next.
    Next(usize),
    /// All is done.
    Done,
    /// The script ended, with this message.
    Failed(String),
}

/// Whether the first `n` operations went well. `outcomes` tells of each whether it failed, and for
/// which reason.
pub open spec fn went_well(script: Seq<OpModel>, outcomes: Seq<Option<String>>, n: int) -> bool {
    forall|i: int|
        0 <= i < n ==> verdict(#[trigger] script[i], optional_text(outcomes[i])) is None
}

/// Decides how a script goes on after the operations whose outcomes are given: the first that
/// failed ends it.
pub fn follow_script(ops: &Vec<Op>, outcomes: &Vec<Option<String>>) -> (r: ScriptStep)
    ensures
        match r {
            ScriptStep::Next(k) => k == outcomes@.len() < ops@.len() && went_well(
                op_models(ops@),
                outcomes@,
                k as int,
            ),
            ScriptStep::Done => ops@.len() <= outcomes@.len() && went_well(
                op_models(ops@),
                outcomes@,
                ops@.len() as int,
            ),
            ScriptStep::Failed(message) => exists|k: int|
                0 <= k < ops@.len() && k < outcomes@.len() && went_well(
                    op_models(ops@),
                    outcomes@,
                    k,
                ) && #[trigger] verdict(op_models(ops@)[k], optional_text(outcomes@[k])) == Some(
                    message@,
                ),
        },
{
    let ghost script = op_models(ops@);
    let mut i: usize = 0;
    while i < ops.len() && i < outcomes.len()
        invariant
            i <= ops@.len(),
            i <= outcomes@.len(),
            script == op_models(ops@),
            went_well(script, outcomes@, i as int),
        decreases ops@.len() - i,
    {
        assert(script[i as int] == ops@[i as int]@);
        if let Some(message) = judge(&ops[i], &outcomes[i]) {
            assert(verdict(script[i as int], optional_text(outcomes@[i as int])) == Some(message@));
            return ScriptStep::Failed(message);
        }
        i += 1;
    }
    if i < ops.len() {
        ScriptStep::Next(i)
    } else {
        ScriptStep::Done
    }
}

/// The line that tells of a package being dealt with.
pub open spec fn progress_line(action: Seq<char>, package: Seq<char>) -> Seq<char> {
    notice(Colour::Green, action + " "@ + painted(Colour::Yellow, package))
}

/// The line that tells of a package being dealt with.
pub fn animate_package_progress(action: &str, package: &str) -> (r: String)
    ensures
        r@ == progress_line(action@, package@),
{
    note(
        Colour::Green,
        action.to_owned().concat(" ").concat(paint(Colour::Yellow, package).as_str()).as_str(),
    )
}

/// The lines that tell of packages being dealt with.
pub open spec fn progress_lines(action: Seq<char>, packages: Seq<Seq<char>>) -> Seq<Seq<char>> {
    Seq::new(packages.len(), |i: int| progress_line(action, packages[i]))
}

fn progress_texts(action: &str, packages: &Vec<String>) -> (r: Vec<String>)
    ensures
        texts(r@) == progress_lines(action@, texts(packages@)),
{
    let ghost all = progress_lines(action@, texts(packages@));
    let mut r: Vec<String> = Vec::new();
    let mut i: usize = 0;
    while i < packages.len()
        invariant
            i <= packages@.len(),
            all == progress_lines(action@, texts(packages@)),
            texts(r@) == all.take(i as int),
        decreases packages@.len() - i,
    {
        let ghost held = texts(r@);
        r.push(animate_package_progress(action, packages[i].as_str()));
        i += 1;
        assert(texts(r@) =~= held.push(all[i - 1]));
        assert(texts(r@) =~= all.take(i as int));
    }
    assert(all.take(i as int) =~= all);
    r
}

/// The end of a transaction: it is prepared, carried out and ended, and then `lines` are shown.
pub open spec fn conclusion(
    prepare_failure: Seq<char>,
    lines: Seq<Seq<char>>,
) -> Seq<OpModel> {
    seq![
        OpModel { call: CallModel::Prepare, failure: prepare_failure },
        OpModel { call: CallModel::Commit, failure: "transaction commit failed: "@ },
        plain(CallModel::Release),
        plain(CallModel::Say { lines }),
    ]
}

fn add_conclusion(ops: &mut Vec<Op>, prepare_failure: &str, lines: Vec<String>)
    ensures
        op_models(final(ops)@) == op_models(old(ops)@) + conclusion(
            prepare_failure@,
            texts(lines@),
        ),
{
    let ghost before = op_models(ops@);
    ops.push(Op { call: Call::Prepare, failure: prepare_failure.to_owned() });
    ops.push(Op { call: Call::Commit, failure: String::from_str("transaction commit failed: ") });
    ops.push(plain_op(Call::Release));
    ops.push(plain_op(Call::Say { lines }));
    assert(op_models(ops@) =~= before + conclusion(prepare_failure@, texts(lines@)));
}

/// What is done without root's rights: `pacman` is run as root, and then `lines` are shown.
pub open spec fn delegation(args: Seq<Seq<char>>, lines: Seq<Seq<char>>) -> Seq<OpModel> {
    seq![
        plain(CallModel::Sudo { program: "pacman"@, args }),
        plain(CallModel::Say { lines }),
    ]
}

fn delegate(args: Vec<String>, lines: Vec<String>) -> (r: Vec<Op>)
    ensures
        op_models(r@) == delegation(texts(args@), texts(lines@)),
{
    let r = vec![
        plain_op(Call::Sudo { program: String::from_str("pacman"), args }),
        plain_op(Call::Say { lines }),
    ];
    assert(op_models(r@) =~= delegation(texts(args@), texts(lines@)));
    r
}

/// What is done where the user did not agree: it is said, and nothing else.
pub open spec fn cancellation(message: Seq<char>) -> Seq<OpModel> {
    seq![plain(CallModel::Say { lines: seq![notice(Colour::Yellow, message)] })]
}

fn cancel(message: &str) -> (r: Vec<Op>)
    ensures
        op_models(r@) == cancellation(message@),
{
    let lines = vec![note(Colour::Yellow, message)];
    assert(texts(lines@) =~= seq![notice(Colour::Yellow, message@)]);
    let r = vec![plain_op(Call::Say { lines })];
    assert(op_models(r@) =~= cancellation(message@));
    r
}

/// Queues a package of a repository, or gives up if no repository has it.
pub open spec fn sync_queue_op(
    sync: Seq<SyncModel>,
    package: Seq<char>,
    source: Source,
) -> OpModel {
    match sync_lookup(sync, package, source) {
        Some((repository, _)) => OpModel {
            call: CallModel::QueueSync { repository, package },
            failure: "failed to queue '"@ + package + "' for install: "@,
        },
        None => OpModel {
            call: CallModel::Refuse,
            failure: "package '"@ + package + "' disappeared from sync databases"@,
        },
    }
}

/// Queues packages of repositories.
pub open spec fn sync_queue(
    sync: Seq<SyncModel>,
    packages: Seq<Seq<char>>,
    source: Source,
) -> Seq<OpModel> {
    Seq::new(packages.len(), |i: int| sync_queue_op(sync, packages[i], source))
}

/// The script that installs packages of repositories, if the user agreed.
pub open spec fn sync_script(
    sync: Seq<SyncModel>,
    targets: Seq<Seq<char>>,
    source: Source,
    consent: bool,
    root: bool,
) -> Seq<OpModel> {
    let lines = progress_lines("Installing"@, targets);
    if !consent {
        cancellation("Installation cancelled"@)
    } else if root {
        seq![plain(CallModel::Start)] + sync_queue(sync, targets, source) + conclusion(
            "transaction prepare failed: "@,
            lines,
        )
    } else {
        delegation(seq!["-S"@, "--needed"@] + targets, lines)
    }
}

fn prefixed(front: Vec<String>, rest: &Vec<String>) -> (r: Vec<String>)
    ensures
        texts(r@) == texts(front@) + texts(rest@),
{
    let mut r = front;
    let mut i: usize = 0;
    let ghost before = texts(r@);
    assert(before + texts(rest@).take(0) =~= before);
    while i < rest.len()
        invariant
            i <= rest@.len(),
            texts(r@) == before + texts(rest@).take(i as int),
        decreases rest@.len() - i,
    {
        let ghost held = texts(r@);
        r.push(rest[i].clone());
        i += 1;
        assert(texts(r@) =~= held.push(rest@[i - 1]@));
        assert(texts(r@) =~= before + texts(rest@).take(i as int));
    }
    assert(texts(rest@).take(i as int) =~= texts(rest@));
    r
}

/// Plans the installation of packages of repositories.
pub fn install_sync_packages(
    sync: &Vec<SyncDatabase>,
    targets: &Vec<String>,
    source: Source,
    consent: bool,
    root: bool,
) -> (r: Vec<Op>)
    ensures
        op_models(r@) == sync_script(sync_models(sync@), texts(targets@), source, consent, root),
{
    if !consent {
        return cancel("Installation cancelled");
    }
    let lines = progress_texts("Installing", targets);
    if !root {
        let front = vec![String::from_str("-S"), String::from_str("--needed")];
        assert(texts(front@) =~= seq!["-S"@, "--needed"@]);
        return delegate(prefixed(front, targets), lines);
    }
    let ghost queue = sync_queue(sync_models(sync@), texts(targets@), source);
    let mut ops: Vec<Op> = Vec::new();
    ops.push(plain_op(Call::Start));
    let mut i: usize = 0;
    assert(op_models(ops@) =~= seq![plain(CallModel::Start)] + queue.take(0));
    while i < targets.len()
        invariant
            i <= targets@.len(),
            queue == sync_queue(sync_models(sync@), texts(targets@), source),
            op_models(ops@) == seq![plain(CallModel::Start)] + queue.take(i as int),
        decreases targets@.len() - i,
    {
        let ghost held = op_models(ops@);
        let package = targets[i].as_str();
        let op = match find_sync_pkg(sync, package, source) {
            Some((repository, _)) => Op {
                call: Call::QueueSync {
                    repository: repository.to_owned(),
                    package: package.to_owned(),
                },
                failure: String::from_str("failed to queue '").concat(package).concat(
                    "' for install: ",
                ),
            },
            None => Op {
                call: Call::Refuse,
                failure: String::from_str("package '").concat(package).concat(
                    "' disappeared from sync databases",
                ),
            },
        };
        ops.push(op);
        i += 1;
        assert(op@ == queue[i - 1]);
        assert(op_models(ops@) =~= held.push(op@));
        assert(op_models(ops@) =~= seq![plain(CallModel::Start)] + queue.take(i as int));
    }
    assert(queue.take(i as int) =~= queue);
    add_conclusion(&mut ops, "transaction prepare failed: ", lines);
    ops
}

/// The name under which a package file is shown.
pub open spec fn shown_name(path: Seq<char>) -> Seq<char> {
    match file_name(path) {
        Some(name) => name,
        None => path,
    }
}

/// The names under which package files are shown.
pub open spec fn shown_names(paths: Seq<Seq<char>>) -> Seq<Seq<char>> {
    Seq::new(paths.len(), |i: int| shown_name(paths[i]))
}

/// Loads a package file that was built, and queues it.
pub open spec fn file_queue_ops(path: Seq<char>) -> Seq<OpModel> {
    seq![
        OpModel {
            call: CallModel::Load { path },
            failure: "failed to load built package '"@ + path + "': "@,
        },
        OpModel {
            call: CallModel::QueueLoaded,
            failure: "failed to queue built package '"@ + path + "': "@,
        },
    ]
}

/// Loads and queues package files one after another.
pub open spec fn file_queue(paths: Seq<Seq<char>>) -> Seq<OpModel>
    decreases paths.len(),
{
    if paths.len() == 0 {
        seq![]
    } else {
        file_queue(paths.drop_last()) + file_queue_ops(paths.last())
    }
}

/// The script that installs package files that were built.
pub open spec fn built_script(files: Seq<Seq<char>>, root: bool) -> Seq<OpModel> {
    let lines = progress_lines("Installing"@, shown_names(files));
    if root {
        seq![plain(CallModel::Start)] + file_queue(files) + conclusion(
            "transaction prepare failed: "@,
            lines,
        )
    } else {
        delegation(seq!["-U"@] + files, lines)
    }
}

/// Plans the installation of package files that were built.
pub fn install_built_local_packages(files: &Vec<String>, root: bool) -> (r: Vec<Op>)
    ensures
        op_models(r@) == built_script(texts(files@), root),
{
    let ghost paths = texts(files@);
    let mut names: Vec<String> = Vec::new();
    let mut k: usize = 0;
    while k < files.len()
        invariant
            k <= files@.len(),
            paths == texts(files@),
            texts(names@) == shown_names(paths).take(k as int),
        decreases files@.len() - k,
    {
        let ghost held = texts(names@);
        names.push(package_name_from_pkg_file(files[k].as_str()));
        k += 1;
        assert(texts(names@) =~= held.push(shown_names(paths)[k - 1]));
        assert(texts(names@) =~= shown_names(paths).take(k as int));
    }
    assert(texts(names@) =~= shown_names(paths));
    let lines = progress_texts("Installing", &names);
    if !root {
        let front = vec![String::from_str("-U")];
        assert(texts(front@) =~= seq!["-U"@]);
        return delegate(prefixed(front, files), lines);
    }
    let mut ops: Vec<Op> = Vec::new();
    ops.push(plain_op(Call::Start));
    let mut i: usize = 0;
    assert(paths.take(0) =~= Seq::<Seq<char>>::empty());
    assert(op_models(ops@) =~= seq![plain(CallModel::Start)] + file_queue(paths.take(0)));
    while i < files.len()
        invariant
            i <= files@.len(),
            paths == texts(files@),
            op_models(ops@) == seq![plain(CallModel::Start)] + file_queue(paths.take(i as int)),
        decreases files@.len() - i,
    {
        let ghost held = op_models(ops@);
        let path = files[i].as_str();
        i += 1;
        ops.push(
            Op {
                call: Call::Load { path: path.to_owned() },
                failure: String::from_str("failed to load built package '").concat(path).concat(
                    "': ",
                ),
            },
        );
        ops.push(
            Op {
                call: Call::QueueLoaded,
                failure: String::from_str("failed to queue built package '").concat(path).concat(
                    "': ",
                ),
            },
        );
        assert(op_models(ops@) =~= held + file_queue_ops(path@));
        assert(paths.take(i as int).drop_last() =~= paths.take(i - 1));
        assert(paths.take(i as int).last() == path@);
        assert(op_models(ops@) =~= seq![plain(CallModel::Start)] + file_queue(
            paths.take(i as int),
        ));
    }
    assert(paths.take(i as int) =~= paths);
    add_conclusion(&mut ops, "transaction prepare failed: ", lines);
    ops
}

/// The script that installs a package file that is loaded already, if the user agreed.
pub open spec fn local_script(
    path: Seq<char>,
    name: Seq<char>,
    consent: bool,
    root: bool,
) -> Seq<OpModel> {
    let lines = seq![progress_line("Installing"@, name)];
    if !consent {
        cancellation("Installation cancelled"@)
    } else if root {
        seq![
            plain(CallModel::Start),
            OpModel {
                call: CallModel::QueueLoaded,
                failure: "failed to queue local package for install: "@,
            },
        ] + conclusion("transaction prepare failed: "@, lines)
    } else {
        delegation(seq!["-U"@, path], lines)
    }
}

/// Plans the installation of a package file that is loaded already.
pub fn install_loaded_package(path: &str, name: &str, consent: bool, root: bool) -> (r: Vec<Op>)
    ensures
        op_models(r@) == local_script(path@, name@, consent, root),
{
    if !consent {
        return cancel("Installation cancelled");
    }
    let lines = vec![animate_package_progress("Installing", name)];
    assert(texts(lines@) =~= seq![progress_line("Installing"@, name@)]);
    if !root {
        let args = vec![String::from_str("-U"), path.to_owned()];
        assert(texts(args@) =~= seq!["-U"@, path@]);
        return delegate(args, lines);
    }
    let mut ops = vec![
        plain_op(Call::Start),
        Op {
            call: Call::QueueLoaded,
            failure: String::from_str("failed to queue local package for install: "),
        },
    ];
    assert(op_models(ops@) =~= seq![
        plain(CallModel::Start),
        OpModel {
            call: CallModel::QueueLoaded,
            failure: "failed to queue local package for install: "@,
        },
    ]);
    add_conclusion(&mut ops, "transaction prepare failed: ", lines);
    ops
}

/// The lower-case names, each once, in the order in which they first occur.
pub open spec fn removal_names(packages: Seq<Seq<char>>) -> Seq<Seq<char>>
    decreases packages.len(),
{
    if packages.len() == 0 {
        seq![]
    } else {
        let earlier = removal_names(packages.drop_last());
        let name = lowered(packages.last());
        if earlier.contains(name) {
            earlier
        } else {
            earlier.push(name)
        }
    }
}

/// Queues an installed package for removal, or gives up if it is not installed.
pub open spec fn removal_op(local: Seq<PackageModel>, package: Seq<char>) -> OpModel {
    if lookup(local, package) is Some {
        OpModel {
            call: CallModel::QueueRemoval { package },
            failure: "failed to queue '"@ + package + "' for removal: "@,
        }
    } else {
        OpModel {
            call: CallModel::Refuse,
            failure: "package '"@ + package + "' is not installed"@,
        }
    }
}

/// Queues packages for removal.
pub open spec fn removal_queue(local: Seq<PackageModel>, names: Seq<Seq<char>>) -> Seq<OpModel> {
    Seq::new(names.len(), |i: int| removal_op(local, names[i]))
}

/// The script that removes packages, if the user agreed.
pub open spec fn removal_script(
    local: Seq<PackageModel>,
    packages: Seq<Seq<char>>,
    consent: bool,
) -> Seq<OpModel> {
    let names = removal_names(packages);
    if !consent {
        cancellation("Removal cancelled"@)
    } else {
        seq![plain(CallModel::Start)] + removal_queue(local, names) + conclusion(
            "dependency check failed: "@,
            progress_lines("Deleting"@, names).push(notice(Colour::Green, "Remove complete"@)),
        )
    }
}

fn distinct_names(packages: &Vec<String>) -> (r: Vec<String>)
    ensures
        texts(r@) == removal_names(texts(packages@)),
{
    let ghost all = texts(packages@);
    let mut r: Vec<String> = Vec::new();
    let mut i: usize = 0;
    while i < packages.len()
        invariant
            i <= packages@.len(),
            all == texts(packages@),
            texts(r@) == removal_names(all.take(i as int)),
        decreases packages@.len() - i,
    {
        let ghost held = texts(r@);
        let name = to_ascii_lowercase(packages[i].as_str());
        i += 1;
        assert(all.take(i as int).drop_last() =~= all.take(i - 1));
        assert(all.take(i as int).last() == packages@[i - 1]@);
        if !list_contains(&r, name.as_str()) {
            r.push(name);
            assert(texts(r@) =~= held.push(name@));
        }
    }
    assert(all.take(i as int) =~= all);
    r
}

/// Plans the removal of packages.
pub fn uninstall_packages(local: &Vec<Package>, packages: &Vec<String>, consent: bool) -> (r: Vec<
    Op,
>)
    ensures
        op_models(r@) == removal_script(package_models(local@), texts(packages@), consent),
{
    if !consent {
        return cancel("Removal cancelled");
    }
    let names = distinct_names(packages);
    let ghost queue = removal_queue(package_models(local@), texts(names@));
    let mut ops: Vec<Op> = Vec::new();
    ops.push(plain_op(Call::Start));
    let mut i: usize = 0;
    assert(op_models(ops@) =~= seq![plain(CallModel::Start)] + queue.take(0));
    while i < names.len()
        invariant
            i <= names@.len(),
            queue == removal_queue(package_models(local@), texts(names@)),
            op_models(ops@) == seq![plain(CallModel::Start)] + queue.take(i as int),
        decreases names@.len() - i,
    {
        let ghost held = op_models(ops@);
        let package = names[i].as_str();
        let op = if is_installed(local, package) {
            Op {
                call: Call::QueueRemoval { package: package.to_owned() },
                failure: String::from_str("failed to queue '").concat(package).concat(
                    "' for removal: ",
                ),
            }
        } else {
            Op {
                call: Call::Refuse,
                failure: String::from_str("package '").concat(package).concat(
                    "' is not installed",
                ),
            }
        };
        ops.push(op);
        i += 1;
        assert(op@ == queue[i - 1]);
        assert(op_models(ops@) =~= held.push(op@));
        assert(op_models(ops@) =~= seq![plain(CallModel::Start)] + queue.take(i as int));
    }
    assert(queue.take(i as int) =~= queue);
    let mut lines = progress_texts("Deleting", &names);
    let ghost told = texts(lines@);
    lines.push(note(Colour::Green, "Remove complete"));
    assert(texts(lines@) =~= told.push(notice(Colour::Green, "Remove complete"@)));
    add_conclusion(&mut ops, "dependency check failed: ", lines);
    ops
}

/// A package that an upgrade brings.
#[derive(Debug)]
pub struct Upgrade {
    pub name: String,
    pub version: String,
}

/// The names of the packages that an upgrade brings.
pub open spec fn upgrade_names(upgrades: Seq<Upgrade>) -> Seq<Seq<char>> {
    Seq::new(upgrades.len(), |i: int| upgrades[i].name@)
}

/// The line that tells from which version to which a package goes.
pub open spec fn upgrade_line(local: Seq<PackageModel>, upgrade: Upgrade) -> Seq<char> {
    let current = match lookup(local, upgrade.name@) {
        Some(installed) => installed.version,
        None => "(new)"@,
    };
    "  - "@ + upgrade.name@ + " "@ + current + " -> "@ + upgrade.version@
}

/// The lines that tell what an upgrade brings.
pub open spec fn upgrade_lines(local: Seq<PackageModel>, upgrades: Seq<Upgrade>) -> Seq<Seq<char>> {
    Seq::new(upgrades.len(), |i: int| upgrade_line(local, upgrades[i]))
}

/// The script that finds out what can be upgraded.
pub open spec fn upgrade_search() -> Seq<OpModel> {
    seq![
        plain(CallModel::Start),
        OpModel { call: CallModel::QueueUpgrades, failure: "failed to calculate upgrades: "@ },
    ]
}

/// Plans how upgrades are found out.
pub fn find_upgrades() -> (r: Vec<Op>)
    ensures
        op_models(r@) == upgrade_search(),
{
    let r = vec![
        plain_op(Call::Start),
        Op {
            call: Call::QueueUpgrades,
            failure: String::from_str("failed to calculate upgrades: "),
        },
    ];
    assert(op_models(r@) =~= upgrade_search());
    r
}

/// The lines that tell what will be upgraded, if anything is to be brought or to be removed.
pub fn review_upgrades(local: &Vec<Package>, upgrades: &Vec<Upgrade>, removals: bool) -> (r: Option<
    Vec<String>,
>)
    ensures
        r is None <==> upgrades@.len() == 0 && !removals,
        r is Some ==> texts(r->0@) == seq![notice(Colour::Cyan, "Packages to be upgraded:"@)]
            + upgrade_lines(package_models(local@), upgrades@),
{
    if upgrades.is_empty() && !removals {
        return None;
    }
    let ghost all = upgrade_lines(package_models(local@), upgrades@);
    let ghost title = seq![notice(Colour::Cyan, "Packages to be upgraded:"@)];
    let mut lines: Vec<String> = Vec::new();
    lines.push(note(Colour::Cyan, "Packages to be upgraded:"));
    let mut i: usize = 0;
    assert(texts(lines@) =~= title + all.take(0));
    while i < upgrades.len()
        invariant
            i <= upgrades@.len(),
            all == upgrade_lines(package_models(local@), upgrades@),
            texts(lines@) == title + all.take(i as int),
        decreases upgrades@.len() - i,
    {
        let ghost held = texts(lines@);
        let upgrade = &upgrades[i];
        let start = String::from_str("  - ").concat(upgrade.name.as_str()).concat(" ");
        let line = match find_package(local, upgrade.name.as_str()) {
            Some(installed) => start.concat(installed.version.as_str()),
            None => start.concat("(new)"),
        };
        let line = line.concat(" -> ").concat(upgrade.version.as_str());
        lines.push(line);
        i += 1;
        assert(line@ == all[i - 1]);
        assert(texts(lines@) =~= held.push(line@));
        assert(texts(lines@) =~= title + all.take(i as int));
    }
    assert(all.take(i as int) =~= all);
    Some(lines)
}

/// Leaves a transaction as it is, and says so.
pub open spec fn retreat(line: Seq<char>) -> Seq<OpModel> {
    seq![plain(CallModel::Release), plain(CallModel::Say { lines: seq![line] })]
}

fn retreat_with(line: String) -> (r: Vec<Op>)
    ensures
        op_models(r@) == retreat(line@),
{
    let lines = vec![line];
    assert(texts(lines@) =~= seq![line@]);
    let r = vec![plain_op(Call::Release), plain_op(Call::Say { lines })];
    assert(op_models(r@) =~= retreat(line@));
    r
}

/// The script that ends an upgrade: `consent` is missing where there was nothing to ask about.
pub open spec fn upgrade_script(names: Seq<Seq<char>>, consent: Option<bool>) -> Seq<OpModel> {
    match consent {
        None => retreat(notice(Colour::Green, "Nothing to upgrade"@)),
        Some(false) => retreat(notice(Colour::Yellow, "Upgrade cancelled"@)),
        Some(true) => conclusion(
            "transaction prepare failed: "@,
            progress_lines("Updating"@, names) + seq![
                notice(Colour::Green, "Upgraded packages successfully"@),
                notice(Colour::Green, "Upgrade complete"@),
            ],
        ),
    }
}

/// Plans the end of an upgrade. `consent` is missing where there was nothing to ask about.
pub fn upgrade(upgrades: &Vec<Upgrade>, consent: Option<bool>) -> (r: Vec<Op>)
    ensures
        op_models(r@) == upgrade_script(upgrade_names(upgrades@), consent),
{
    match consent {
        None => retreat_with(note(Colour::Green, "Nothing to upgrade")),
        Some(agreed) => {
            if !agreed {
                return retreat_with(note(Colour::Yellow, "Upgrade cancelled"));
            }
            let ghost all = upgrade_names(upgrades@);
            let mut names: Vec<String> = Vec::new();
            let mut i: usize = 0;
            while i < upgrades.len()
                invariant
                    i <= upgrades@.len(),
                    all == upgrade_names(upgrades@),
                    texts(names@) == all.take(i as int),
                decreases upgrades@.len() - i,
            {
                let ghost held = texts(names@);
                names.push(upgrades[i].name.clone());
                i += 1;
                assert(texts(names@) =~= held.push(all[i - 1]));
                assert(texts(names@) =~= all.take(i as int));
            }
            assert(all.take(i as int) =~= all);
            let mut lines = progress_texts("Updating", &names);
            let ghost told = texts(lines@);
            lines.push(note(Colour::Green, "Upgraded packages successfully"));
            lines.push(note(Colour::Green, "Upgrade complete"));
            assert(texts(lines@) =~= told + seq![
                notice(Colour::Green, "Upgraded packages successfully"@),
                notice(Colour::Green, "Upgrade complete"@),
            ]);
            let mut ops: Vec<Op> = Vec::new();
            add_conclusion(&mut ops, "transaction prepare failed: ", lines);
            assert(op_models(ops@) =~= upgrade_script(all, consent));
            ops
        },
    }
}

/// Whether an operation adds to a transaction, or gives it up.
pub open spec fn adds(call: CallModel) -> bool {
    match call {
        CallModel::QueueUpgrades => true,
        CallModel::Load { .. } => true,
        CallModel::QueueLoaded => true,
        CallModel::QueueSync { .. } => true,
        CallModel::QueueRemoval { .. } => true,
        CallModel::Refuse => true,
        _ => false,
    }
}

/// Whether a script is one whole transaction: it is started, added to, prepared, carried out and
/// ended, in that order, and only then is anything said.
pub open spec fn is_transaction(script: Seq<OpModel>) -> bool {
    let n = script.len();
    &&& n >= 5
    &&& script[0].call is Start
    &&& forall|i: int| 1 <= i < n - 4 ==> adds(#[trigger] script[i].call)
    &&& script[n - 4].call is Prepare
    &&& script[n - 3].call is Commit
    &&& script[n - 2].call is Release
    &&& script[n - 1].call is Say
}

/// Whether a script leaves the database alone, but for running one program as root.
pub open spec fn is_delegated(script: Seq<OpModel>) -> bool {
    &&& script.len() == 2
    &&& script[0].call is Sudo
    &&& script[1].call is Say
}

/// Whether a script gives up somewhere.
pub open spec fn refuses(script: Seq<OpModel>) -> bool {
    exists|i: int| 0 <= i < script.len() && (#[trigger] script[i]).call is Refuse
}

proof fn file_queue_adds(paths: Seq<Seq<char>>)
    ensures
        file_queue(paths).len() == 2 * paths.len(),
        forall|i: int|
            0 <= i < file_queue(paths).len() ==> adds(#[trigger] file_queue(paths)[i].call),
    decreases paths.len(),
{
    if paths.len() > 0 {
        file_queue_adds(paths.drop_last());
    }
}

/// Whether a script does nothing but speak, or end a transaction.
pub open spec fn is_harmless(script: Seq<OpModel>) -> bool {
    forall|i: int|
        0 <= i < script.len() ==> (#[trigger] script[i].call is Say || script[i].call is Release)
}

/// Nothing is done to the database that the user did not agree to.
pub proof fn nothing_without_consent(
    databases: DatabasesModel,
    packages: Seq<Seq<char>>,
    source: Source,
    path: Seq<char>,
    name: Seq<char>,
    root: bool,
)
    ensures
        is_harmless(sync_script(databases.sync, packages, source, false, root)),
        is_harmless(local_script(path, name, false, root)),
        is_harmless(removal_script(databases.local, packages, false)),
        is_harmless(upgrade_script(packages, Some(false))),
        is_harmless(upgrade_script(packages, None)),
{
}

/// As root, every installation is one whole transaction: nothing is added once it is prepared, and
/// nothing is reported before it is carried out and ended. Without root's rights the database is
/// left to one program that is run as root.
pub proof fn installation_is_whole(
    sync: Seq<SyncModel>,
    targets: Seq<Seq<char>>,
    source: Source,
    path: Seq<char>,
    name: Seq<char>,
)
    ensures
        is_transaction(sync_script(sync, targets, source, true, true)),
        is_transaction(built_script(targets, true)),
        is_transaction(local_script(path, name, true, true)),
        is_delegated(sync_script(sync, targets, source, true, false)),
        is_delegated(built_script(targets, false)),
        is_delegated(local_script(path, name, true, false)),
{
    file_queue_adds(targets);
}

/// A removal is one whole transaction.
pub proof fn removal_is_whole(local: Seq<PackageModel>, packages: Seq<Seq<char>>)
    ensures
        is_transaction(removal_script(local, packages, true)),
{
}

/// An upgrade that was agreed to is, with the operations that found it out, one whole transaction.
/// The transaction of one that was not is ended.
pub proof fn upgrade_is_whole(names: Seq<Seq<char>>, consent: Option<bool>)
    ensures
        consent == Some(true) ==> is_transaction(
            upgrade_search() + upgrade_script(names, consent),
        ),
        consent != Some(true) ==> upgrade_script(names, consent)[0].call is Release,
{
}

/// Packages that the repositories have are queued, each from the repository that it was found in,
/// and their installation is never given up.
pub proof fn found_packages_are_queued(
    databases: DatabasesModel,
    targets: Seq<Seq<char>>,
    source: Source,
    root: bool,
)
    requires
        all_in_repositories(databases, targets, source),
    ensures
        !refuses(sync_script(databases.sync, targets, source, true, root)),
        root ==> forall|i: int|
            0 <= i < targets.len() ==> (#[trigger] sync_script(
                databases.sync,
                targets,
                source,
                true,
                root,
            )[i + 1]).call == (CallModel::QueueSync {
                repository: (sync_lookup(databases.sync, targets[i], source)->0).0,
                package: targets[i],
            }),
{
    let script = sync_script(databases.sync, targets, source, true, root);
    let queue = sync_queue(databases.sync, targets, source);
    assert forall|i: int| 0 <= i < targets.len() implies queue[i].call == (CallModel::QueueSync {
        repository: (sync_lookup(databases.sync, targets[i], source)->0).0,
        package: targets[i],
    }) by {
        assert(sync_lookup(databases.sync, targets[i], source) is Some);
    }
    assert forall|i: int|
        0 <= i < script.len() implies !((#[trigger] script[i]).call is Refuse) by {
        if root && 1 <= i <= targets.len() {
            assert(script[i] == queue[i - 1]);
        }
    }
}

/// What is removed is what was named, in lower case, and nothing twice.
pub proof fn removal_names_are_those_named(packages: Seq<Seq<char>>)
    ensures
        removal_names(packages).no_duplicates(),
        forall|name: Seq<char>| #[trigger]
            removal_names(packages).contains(name) <==> exists|i: int|
                0 <= i < packages.len() && lowered(#[trigger] packages[i]) == name,
    decreases packages.len(),
{
    if packages.len() > 0 {
        let before = packages.drop_last();
        let earlier = removal_names(before);
        let last = lowered(packages.last());
        removal_names_are_those_named(before);
        assert forall|name: Seq<char>| #[trigger]
            removal_names(packages).contains(name) implies exists|i: int|
            0 <= i < packages.len() && lowered(#[trigger] packages[i]) == name by {
            if earlier.contains(name) {
                let i = choose|i: int|
                    0 <= i < before.len() && lowered(#[trigger] before[i]) == name;
                assert(packages[i] == before[i]);
            } else {
                assert(lowered(packages[packages.len() - 1]) == name);
            }
        }
        assert forall|i: int| 0 <= i < packages.len() implies removal_names(packages).contains(
            lowered(#[trigger] packages[i]),
        ) by {
            if i < before.len() {
                assert(before[i] == packages[i]);
                assert(earlier.contains(lowered(before[i])));
                let k = choose|k: int| 0 <= k < earlier.len() && earlier[k] == lowered(before[i]);
                assert(removal_names(packages)[k] == earlier[k]);
            } else if !earlier.contains(last) {
                assert(removal_names(packages)[earlier.len() as int] == last);
            }
        }
    }
}

/// A removal is given up exactly when a package that was named is not installed.
pub proof fn removal_needs_installed_packages(
    local: Seq<PackageModel>,
    packages: Seq<Seq<char>>,
)
    ensures
        refuses(removal_script(local, packages, true)) <==> exists|i: int|
            0 <= i < packages.len() && lookup(local, lowered(#[trigger] packages[i])) is None,
{
    let names = removal_names(packages);
    let script = removal_script(local, packages, true);
    removal_names_are_those_named(packages);
    assert(forall|k: int|
        0 <= k < names.len() ==> (#[trigger] script[k + 1]) == removal_op(local, names[k]));
    if refuses(script) {
        let i = choose|i: int| 0 <= i < script.len() && (#[trigger] script[i]).call is Refuse;
        assert(1 <= i <= names.len());
        assert(script[(i - 1) + 1] == removal_op(local, names[i - 1]));
        assert(names.contains(names[i - 1]));
        let j = choose|j: int|
            0 <= j < packages.len() && lowered(#[trigger] packages[j]) == names[i - 1];
        assert(lookup(local, lowered(packages[j])) is None);
    }
    if exists|i: int|
        0 <= i < packages.len() && lookup(local, lowered(#[trigger] packages[i])) is None {
        let i = choose|i: int|
            0 <= i < packages.len() && lookup(local, lowered(#[trigger] packages[i])) is None;
        assert(names.contains(lowered(packages[i])));
        let k = choose|k: int| 0 <= k < names.len() && names[k] == lowered(packages[i]);
        assert(script[k + 1].call is Refuse);
    }
}

/// A script that gives up does nothing beyond that place: neither does it prepare or carry out the
/// transaction.
pub proof fn nothing_follows_a_refusal(
    script: Seq<OpModel>,
    outcomes: Seq<Option<String>>,
    i: int,
    k: int,
)
    requires
        0 <= i < script.len(),
        script[i].call is Refuse,
        went_well(script, outcomes, k),
    ensures
        k <= i,
{
    assert(verdict(script[i], optional_text(outcomes[i])) is Some);
}

/// What was sorted out as coming from the repositories is installed from there: the installation is
/// never given up.
pub proof fn sorted_targets_are_queued(
    databases: DatabasesModel,
    packages: Seq<Seq<char>>,
    source: Source,
    helper: bool,
    replies: Seq<Reply>,
    root: bool,
)
    ensures
        !refuses(
            sync_script(
                databases.sync,
                sort_out(databases, packages, source, helper, replies, no_targets()).0.sync,
                source,
                true,
                root,
            ),
        ),
{
    targets_are_in_their_places(databases, packages, source, helper, replies, no_targets());
    found_packages_are_queued(
        databases,
        sort_out(databases, packages, source, helper, replies, no_targets()).0.sync,
        source,
        root,
    );
}

/// The line that tells of a package: the action, and the name of that package.
pub proof fn progress_names_the_package(
    action: Seq<char>,
    packages: Seq<Seq<char>>,
    i: int,
)
    requires
        0 <= i < packages.len(),
    ensures
        progress_lines(action, packages).len() == packages.len(),
        progress_lines(action, packages)[i] == painted(Colour::Green, "==>"@) + " "@ + (action + " "@
            + painted(Colour::Yellow, packages[i])),
{
}

/// Without root's rights, an installation runs `pacman` with every target behind its options, in
/// their order, and with nothing else; then every target is told.
pub proof fn pacman_is_given_every_target(
    sync: Seq<SyncModel>,
    targets: Seq<Seq<char>>,
    source: Source,
)
    ensures
        ({
            let script = sync_script(sync, targets, source, true, false);
            let args = script[0].call->args;
            let lines = script[1].call->lines;
            &&& script.len() == 2
            &&& script[0].call is Sudo
            &&& script[0].call->program == "pacman"@
            &&& script[0].failure == ""@
            &&& args.len() == 2 + targets.len()
            &&& args[0] == "-S"@
            &&& args[1] == "--needed"@
            &&& forall|i: int|
                0 <= i < targets.len() ==> #[trigger] args[2 + i] == #[trigger] targets[i]
            &&& script[1].call is Say
            &&& lines.len() == targets.len()
            &&& forall|i: int|
                0 <= i < targets.len() ==> #[trigger] lines[i] == painted(Colour::Green, "==>"@)
                    + " "@ + ("Installing"@ + " "@ + painted(Colour::Yellow, targets[i]))
        }),
{
    let script = sync_script(sync, targets, source, true, false);
    assert(script[0].call->args =~= seq!["-S"@, "--needed"@] + targets);
}

/// Without root's rights, the installation of package files runs `pacman` with every file, in their
/// order, and with nothing else.
pub proof fn pacman_is_given_every_file(
    files: Seq<Seq<char>>,
    path: Seq<char>,
    name: Seq<char>,
)
    ensures
        ({
            let script = built_script(files, false);
            let args = script[0].call->args;
            &&& script.len() == 2
            &&& script[0].call is Sudo
            &&& script[0].call->program == "pacman"@
            &&& script[0].failure == ""@
            &&& args.len() == 1 + files.len()
            &&& args[0] == "-U"@
            &&& forall|i: int| 0 <= i < files.len() ==> #[trigger] args[1 + i] == #[trigger] files[i]
            &&& script[1].call is Say
        }),
        ({
            let script = local_script(path, name, true, false);
            let args = script[0].call->args;
            &&& script.len() == 2
            &&& script[0].call is Sudo
            &&& script[0].call->program == "pacman"@
            &&& script[0].failure == ""@
            &&& args.len() == 2
            &&& args[0] == "-U"@
            &&& args[1] == path
            &&& script[1].call is Say
        }),
{
    assert(built_script(files, false)[0].call->args =~= seq!["-U"@] + files);
}

/// As root, every target is queued in its place, by its own name and from the first repository that
/// has a package of that name. One that no repository has is where the script gives up.
pub proof fn every_target_is_queued_in_its_place(
    sync: Seq<SyncModel>,
    targets: Seq<Seq<char>>,
    source: Source,
    t: int,
)
    requires
        0 <= t < targets.len(),
    ensures
        ({
            let script = sync_script(sync, targets, source, true, true);
            let op = script[1 + t];
            &&& script.len() == targets.len() + 5
            &&& forall|d: int, i: int|
                source != Source::Aur && 0 <= d < sync.len() && 0 <= i < sync[d].packages.len() && (
                #[trigger] sync[d].packages[i]).name == targets[t] && (forall|e: int, j: int|
                    0 <= e < d && 0 <= j < sync[e].packages.len() ==> (
                    #[trigger] sync[e].packages[j]).name != targets[t]) ==> op.call == (
                CallModel::QueueSync { repository: sync[d].name, package: targets[t] })
                    && op.failure == "failed to queue '"@ + targets[t] + "' for install: "@
            &&& (source == Source::Aur || forall|d: int, i: int|
                0 <= d < sync.len() && 0 <= i < sync[d].packages.len() ==> (
                #[trigger] sync[d].packages[i]).name != targets[t]) ==> op.call is Refuse
                && op.failure == "package '"@ + targets[t]
                + "' disappeared from sync databases"@
        }),
{
    let name = targets[t];
    let script = sync_script(sync, targets, source, true, true);
    let op = script[1 + t];
    assert(op == sync_queue_op(sync, name, source));
    sync_lookup_finds_the_first(sync, name, source);
    assert forall|d: int, i: int|
        source != Source::Aur && 0 <= d < sync.len() && 0 <= i < sync[d].packages.len() && (
        #[trigger] sync[d].packages[i]).name == name && (forall|e: int, j: int|
            0 <= e < d && 0 <= j < sync[e].packages.len() ==> (#[trigger] sync[e].packages[j]).name
                != name) implies op.call == (CallModel::QueueSync {
        repository: sync[d].name,
        package: name,
    }) && op.failure == "failed to queue '"@ + name + "' for install: "@ by {
        match sync_lookup(sync, name, source) {
            Some((repository, found)) => {
                let (f, k) = choose|f: int, k: int|
                    0 <= f < sync.len() && 0 <= k < sync[f].packages.len() && sync[f].name
                        == repository && #[trigger] sync[f].packages[k] == found && (forall|
                        e: int,
                        j: int,
                    |
                        0 <= e < f && 0 <= j < sync[e].packages.len() ==> (
                        #[trigger] sync[e].packages[j]).name != name) && (forall|j: int|
                        0 <= j < k ==> (#[trigger] sync[f].packages[j]).name != name);
                assert(sync[f].packages[k].name == name);
                assert(f == d);
            },
            None => {},
        }
    }
}

/// As root, every package file is loaded and queued before the next one, in their order.
pub proof fn every_file_is_loaded_and_queued(files: Seq<Seq<char>>, i: int)
    requires
        0 <= i < files.len(),
    ensures
        built_script(files, true).len() == 2 * files.len() + 5,
        built_script(files, true)[1 + 2 * i].call == (CallModel::Load { path: files[i] }),
        built_script(files, true)[1 + 2 * i].failure == "failed to load built package '"@ + files[i]
            + "': "@,
        built_script(files, true)[2 + 2 * i].call == CallModel::QueueLoaded,
        built_script(files, true)[2 + 2 * i].failure == "failed to queue built package '"@
            + files[i] + "': "@,
    decreases files.len(),
{
    lemma_file_queue_at(files, i);
    let queue = file_queue(files);
    assert(built_script(files, true)[1 + 2 * i] == queue[2 * i]);
    assert(built_script(files, true)[2 + 2 * i] == queue[2 * i + 1]);
}

proof fn lemma_file_queue_at(files: Seq<Seq<char>>, i: int)
    requires
        0 <= i < files.len(),
    ensures
        file_queue(files).len() == 2 * files.len(),
        file_queue(files)[2 * i] == file_queue_ops(files[i])[0],
        file_queue(files)[2 * i + 1] == file_queue_ops(files[i])[1],
    decreases files.len(),
{
    file_queue_adds(files);
    let before = files.drop_last();
    file_queue_adds(before);
    if i < before.len() {
        lemma_file_queue_at(before, i);
        assert(before[i] == files[i]);
    }
}

/// A package file that is loaded already is queued as it is.
pub proof fn loaded_file_is_queued(path: Seq<char>, name: Seq<char>)
    ensures
        local_script(path, name, true, true).len() == 6,
        local_script(path, name, true, true)[0].call is Start,
        local_script(path, name, true, true)[1].call is QueueLoaded,
        local_script(path, name, true, true)[1].failure
            == "failed to queue local package for install: "@,
        forall|root: bool|
            #![trigger local_script(path, name, true, root)]
            (local_script(path, name, true, root).last().call)->lines == seq![
                painted(Colour::Green, "==>"@) + " "@ + ("Installing"@ + " "@ + painted(
                    Colour::Yellow,
                    name,
                )),
            ],
{
}

/// A package file is told by the last part of its path.
pub proof fn built_files_are_told_by_name(files: Seq<Seq<char>>, root: bool, i: int)
    requires
        0 <= i < files.len(),
    ensures
        ({
            let lines = built_script(files, root).last().call->lines;
            &&& lines.len() == files.len()
            &&& lines[i] == painted(Colour::Green, "==>"@) + " "@ + ("Installing"@ + " "@ + painted(
                Colour::Yellow,
                match file_name(files[i]) {
                    Some(name) => name,
                    None => files[i],
                },
            ))
        }),
{
}

/// The lower-case names of the packages to remove come in the order in which they were first named:
/// one that was named before adds nothing, and one that was not is added at the end.
pub proof fn removal_names_grow(packages: Seq<Seq<char>>, package: Seq<char>)
    ensures
        removal_names(Seq::empty()) == Seq::<Seq<char>>::empty(),
        (exists|i: int| 0 <= i < packages.len() && lowered(#[trigger] packages[i]) == lowered(package))
            ==> removal_names(packages.push(package)) == removal_names(packages),
        (forall|i: int| 0 <= i < packages.len() ==> lowered(#[trigger] packages[i]) != lowered(package))
            ==> removal_names(packages.push(package)) == removal_names(packages).push(
            lowered(package),
        ),
{
    removal_names_are_those_named(packages);
    assert(packages.push(package).drop_last() =~= packages);
    assert(removal_names(packages).contains(lowered(package)) <==> exists|i: int|
        0 <= i < packages.len() && lowered(#[trigger] packages[i]) == lowered(package));
}

/// A removal that was agreed to queues each package that was named and is installed, by its own
/// name and in its place, and gives up at one that is not installed.
pub proof fn every_named_package_is_queued_for_removal(
    local: Seq<PackageModel>,
    packages: Seq<Seq<char>>,
    i: int,
)
    requires
        0 <= i < removal_names(packages).len(),
    ensures
        ({
            let name = removal_names(packages)[i];
            let script = removal_script(local, packages, true);
            let op = script[1 + i];
            &&& script.len() == removal_names(packages).len() + 5
            &&& (exists|k: int| 0 <= k < local.len() && (#[trigger] local[k]).name == name)
                ==> op.call == (CallModel::QueueRemoval { package: name }) && op.failure
                == "failed to queue '"@ + name + "' for removal: "@
            &&& (forall|k: int| 0 <= k < local.len() ==> (#[trigger] local[k]).name != name)
                ==> op.call is Refuse && op.failure == "package '"@ + name
                + "' is not installed"@
        }),
{
    let name = removal_names(packages)[i];
    lookup_finds_the_first(local, name);
    assert(removal_script(local, packages, true)[1 + i] == removal_op(local, name));
}

/// The packages that a removal queues are exactly those that are installed and that were named, in
/// whichever case.
pub proof fn removed_packages_are_the_installed_ones_named(
    local: Seq<PackageModel>,
    packages: Seq<Seq<char>>,
    package: Seq<char>,
)
    ensures
        (exists|j: int|
            0 <= j < removal_script(local, packages, true).len() && (#[trigger] removal_script(
                local,
                packages,
                true,
            )[j]).call == (CallModel::QueueRemoval { package })) <==> (exists|k: int|
            0 <= k < local.len() && (#[trigger] local[k]).name == package) && (exists|m: int|
            0 <= m < packages.len() && lowered(#[trigger] packages[m]) == package),
{
    let names = removal_names(packages);
    let script = removal_script(local, packages, true);
    removal_names_are_those_named(packages);
    lookup_finds_the_first(local, package);
    if exists|j: int|
        0 <= j < script.len() && (#[trigger] script[j]).call == (CallModel::QueueRemoval {
            package,
        }) {
        let j = choose|j: int|
            0 <= j < script.len() && (#[trigger] script[j]).call == (CallModel::QueueRemoval {
                package,
            });
        assert(1 <= j <= names.len());
        assert(script[j] == removal_op(local, names[j - 1]));
        assert(names[j - 1] == package);
        assert(names.contains(package));
    }
    if (exists|k: int| 0 <= k < local.len() && (#[trigger] local[k]).name == package) && (exists|
        m: int,
    |
        0 <= m < packages.len() && lowered(#[trigger] packages[m]) == package) {
        assert(names.contains(package));
        let i = choose|i: int| 0 <= i < names.len() && names[i] == package;
        every_named_package_is_queued_for_removal(local, packages, i);
        assert(script[1 + i].call == (CallModel::QueueRemoval { package }));
    }
}

/// Every transaction ends alike: it is prepared, carried out and ended, and each of the two that
/// can fail says so in its own words.
pub proof fn transactions_end_alike(
    sync: Seq<SyncModel>,
    local: Seq<PackageModel>,
    packages: Seq<Seq<char>>,
    source: Source,
    path: Seq<char>,
    name: Seq<char>,
)
    ensures
        ({
            let scripts = seq![
                sync_script(sync, packages, source, true, true),
                built_script(packages, true),
                local_script(path, name, true, true),
                upgrade_script(packages, Some(true)),
                removal_script(local, packages, true),
            ];
            forall|s: int| #![trigger scripts[s]]
                0 <= s < 5 ==> {
                    let n = scripts[s].len();
                    &&& n >= 4
                    &&& scripts[s][n - 4].call is Prepare
                    &&& scripts[s][n - 4].failure == if s == 4 {
                        "dependency check failed: "@
                    } else {
                        "transaction prepare failed: "@
                    }
                    &&& scripts[s][n - 3].call is Commit
                    &&& scripts[s][n - 3].failure == "transaction commit failed: "@
                    &&& scripts[s][n - 2].call is Release
                    &&& scripts[s][n - 1].call is Say
                }
        }),
{
    file_queue_adds(packages);
}

/// When a removal is done every package is told, and then that it is complete.
pub proof fn removal_tells_every_package(
    local: Seq<PackageModel>,
    packages: Seq<Seq<char>>,
    i: int,
)
    requires
        0 <= i < removal_names(packages).len(),
    ensures
        ({
            let names = removal_names(packages);
            let lines = removal_script(local, packages, true).last().call->lines;
            &&& lines.len() == names.len() + 1
            &&& lines[i] == painted(Colour::Green, "==>"@) + " "@ + ("Deleting"@ + " "@ + painted(
                Colour::Yellow,
                names[i],
            ))
            &&& lines.last() == painted(Colour::Green, "==>"@) + " "@ + "Remove complete"@
        }),
{
}

/// A user who does not agree is told so, and nothing else is done.
pub proof fn refusal_is_told(
    sync: Seq<SyncModel>,
    local: Seq<PackageModel>,
    packages: Seq<Seq<char>>,
    source: Source,
    path: Seq<char>,
    name: Seq<char>,
    root: bool,
)
    ensures
        sync_script(sync, packages, source, false, root).len() == 1,
        sync_script(sync, packages, source, false, root)[0].call == (CallModel::Say {
            lines: seq![painted(Colour::Yellow, "==>"@) + " "@ + "Installation cancelled"@],
        }),
        local_script(path, name, false, root).len() == 1,
        local_script(path, name, false, root)[0].call == (CallModel::Say {
            lines: seq![painted(Colour::Yellow, "==>"@) + " "@ + "Installation cancelled"@],
        }),
        removal_script(local, packages, false).len() == 1,
        removal_script(local, packages, false)[0].call == (CallModel::Say {
            lines: seq![painted(Colour::Yellow, "==>"@) + " "@ + "Removal cancelled"@],
        }),
        upgrade_script(packages, Some(false)).len() == 2,
        upgrade_script(packages, Some(false))[1].call == (CallModel::Say {
            lines: seq![painted(Colour::Yellow, "==>"@) + " "@ + "Upgrade cancelled"@],
        }),
        upgrade_script(packages, None).len() == 2,
        upgrade_script(packages, None)[1].call == (CallModel::Say {
            lines: seq![painted(Colour::Green, "==>"@) + " "@ + "Nothing to upgrade"@],
        }),
{
}

/// An upgrade is told package by package: each by its name, with the version that is installed, if
/// any is, and the version that comes.
pub proof fn upgrade_tells_both_versions(
    local: Seq<PackageModel>,
    upgrades: Seq<Upgrade>,
    u: int,
)
    requires
        0 <= u < upgrades.len(),
    ensures
        ({
            let line = upgrade_lines(local, upgrades)[u];
            let name = upgrades[u].name@;
            &&& upgrade_lines(local, upgrades).len() == upgrades.len()
            &&& forall|k: int|
                0 <= k < local.len() && (#[trigger] local[k]).name == name && (forall|j: int|
                    0 <= j < k ==> (#[trigger] local[j]).name != name) ==> line == "  - "@ + name
                    + " "@ + local[k].version + " -> "@ + upgrades[u].version@
            &&& (forall|k: int| 0 <= k < local.len() ==> (#[trigger] local[k]).name != name)
                ==> line == "  - "@ + name + " "@ + "(new)"@ + " -> "@ + upgrades[u].version@
        }),
{
    let name = upgrades[u].name@;
    lookup_finds_the_first(local, name);
    assert forall|k: int|
        0 <= k < local.len() && (#[trigger] local[k]).name == name && (forall|j: int|
            0 <= j < k ==> (#[trigger] local[j]).name != name) implies upgrade_lines(
        local,
        upgrades,
    )[u] == "  - "@ + name + " "@ + local[k].version + " -> "@ + upgrades[u].version@ by {
        let found = lookup(local, name)->0;
        let i = choose|i: int|
            0 <= i < local.len() && #[trigger] local[i] == found && forall|j: int|
                0 <= j < i ==> (#[trigger] local[j]).name != name;
        assert(local[i].name == name);
        assert(i == k);
    }
}

/// An upgrade that was agreed to tells every package by its name, in their order, and then that all
/// is done.
pub proof fn upgrade_tells_every_package(upgrades: Seq<Upgrade>, u: int)
    requires
        0 <= u < upgrades.len(),
    ensures
        ({
            let script = upgrade_script(upgrade_names(upgrades), Some(true));
            let lines = script.last().call->lines;
            &&& script.len() == 4
            &&& lines.len() == upgrades.len() + 2
            &&& lines[u] == painted(Colour::Green, "==>"@) + " "@ + ("Updating"@ + " "@ + painted(
                Colour::Yellow,
                upgrades[u].name@,
            ))
            &&& lines[upgrades.len() as int] == painted(Colour::Green, "==>"@) + " "@
                + "Upgraded packages successfully"@
            &&& lines[upgrades.len() as int + 1] == painted(Colour::Green, "==>"@) + " "@
                + "Upgrade complete"@
        }),
{
}

/// An operation that failed ends the script with its own words and the reason, but for ending a
/// transaction and showing lines, whose failures do not count. Giving up always ends it.
pub proof fn failures_are_told_with_their_reasons(op: OpModel, reason: Seq<char>)
    ensures
        op.call is Refuse ==> verdict(op, None) == Some(op.failure) && verdict(op, Some(reason))
            == Some(op.failure),
        op.call is Release || op.call is Say ==> verdict(op, Some(reason)) is None,
        !(op.call is Refuse || op.call is Release || op.call is Say) ==> verdict(op, Some(reason))
            == Some(op.failure + reason),
        !(op.call is Refuse) ==> verdict(op, None) is None,
{
}

/// Operations went well where each one succeeded or its failure does not count, and none gave up.
pub proof fn going_well_is_succeeding(
    script: Seq<OpModel>,
    outcomes: Seq<Option<String>>,
    n: int,
)
    requires
        0 <= n <= script.len(),
        n <= outcomes.len(),
    ensures
        went_well(script, outcomes, n) <==> forall|i: int|
            0 <= i < n ==> !((#[trigger] script[i]).call is Refuse) && (outcomes[i] is None
                || script[i].call is Release || script[i].call is Say),
{
    if went_well(script, outcomes, n) {
        assert forall|i: int| 0 <= i < n implies !((#[trigger] script[i]).call is Refuse) && (
        outcomes[i] is None || script[i].call is Release || script[i].call is Say) by {
            assert(verdict(script[i], optional_text(outcomes[i])) is None);
        }
    }
}

/// The texts of operations are those of their fields, each in its place.
pub proof fn operation_texts_are_their_fields(ops: Seq<Op>, i: int)
    requires
        0 <= i < ops.len(),
    ensures
        op_models(ops).len() == ops.len(),
        op_models(ops)[i].failure == ops[i].failure@,
        op_models(ops)[i].call == match ops[i].call {
            Call::Sudo { program, args } => CallModel::Sudo {
                program: program@,
                args: texts(args@),
            },
            Call::Start => CallModel::Start,
            Call::QueueUpgrades => CallModel::QueueUpgrades,
            Call::Load { path } => CallModel::Load { path: path@ },
            Call::QueueLoaded => CallModel::QueueLoaded,
            Call::QueueSync { repository, package } => CallModel::QueueSync {
                repository: repository@,
                package: package@,
            },
            Call::QueueRemoval { package } => CallModel::QueueRemoval { package: package@ },
            Call::Refuse => CallModel::Refuse,
            Call::Prepare => CallModel::Prepare,
            Call::Commit => CallModel::Commit,
            Call::Release => CallModel::Release,
            Call::Say { lines } => CallModel::Say { lines: texts(lines@) },
        },
{
}

} // verus!
