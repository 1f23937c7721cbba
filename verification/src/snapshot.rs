//! Getting the sources of an AUR package.

use crate::aur::{AurInfo, AurPackageInfo};
use crate::number::{decimal, decimal_is_injective, to_decimal};
use crate::paths::{
    aur_snapshot_cache_dir, directory_failure, directory_message, join_path, joined_path,
    user_cache,
};
use crate::process::{Invocation, InvocationModel, Outcome};
use crate::style::{note, notice, Colour};
use crate::text::texts;
use vstd::prelude::*;

verus! {

/// Where the sources of a package come from and go to.
#[derive(Debug)]
pub struct SnapshotPlan {
    pub name: String,
    pub package_base: String,
    /// The directory that keeps downloaded archives.
    pub cache_dir: String,
    /// The archive in that directory.
    pub archive: String,
    /// The address of the archive.
    pub url: String,
    /// The fresh directory into which the archive is unpacked.
    pub root: String,
    /// The directory that holds the sources once it is.
    pub build_dir: String,
}

/// The texts that such a plan holds.
#[verifier::ext_equal]
pub struct PlanModel {
    pub name: Seq<char>,
    pub package_base: Seq<char>,
    pub cache_dir: Seq<char>,
    pub archive: Seq<char>,
    pub url: Seq<char>,
    pub root: Seq<char>,
    pub build_dir: Seq<char>,
}

impl View for SnapshotPlan {
    type V = PlanModel;

    open spec fn view(&self) -> PlanModel {
        PlanModel {
            name: self.name@,
            package_base: self.package_base@,
            cache_dir: self.cache_dir@,
            archive: self.archive@,
            url: self.url@,
            root: self.root@,
            build_dir: self.build_dir@,
        }
    }
}

/// The directory into which a package is unpacked: one below the directory for temporary files,
/// named after the package and a time stamp.
pub open spec fn snapshot_root(temp_dir: Seq<char>, name: Seq<char>, stamp: nat) -> Seq<char> {
    joined_path(temp_dir, "archbrew-aur-"@ + name + "-"@ + decimal(stamp))
}

/// The plan for a package, for a user, a directory for temporary files and a time stamp.
pub open spec fn planned(
    user: Seq<char>,
    info: AurInfo,
    temp_dir: Seq<char>,
    stamp: nat,
) -> PlanModel {
    let cache_dir = joined_path(user_cache(user), "snapshots"@);
    let root = snapshot_root(temp_dir, info.name, stamp);
    PlanModel {
        name: info.name,
        package_base: info.package_base,
        cache_dir,
        archive: joined_path(
            cache_dir,
            info.name + "-"@ + info.package_base + ".tar.gz"@,
        ),
        url: "https://aur.archlinux.org/cgit/aur.git/snapshot/"@ + info.package_base
            + ".tar.gz"@,
        root,
        build_dir: joined_path(root, info.package_base),
    }
}

/// Plans how to get the sources of a package.
pub fn plan_snapshot(user: &str, info: &AurPackageInfo, temp_dir: &str, stamp: u128) -> (r:
    SnapshotPlan)
    ensures
        r@ == planned(user@, info@, temp_dir@, stamp as nat),
{
    let cache_dir = aur_snapshot_cache_dir(user);
    let directory = String::from_str("archbrew-aur-").concat(info.name.as_str()).concat("-").concat(
        to_decimal(stamp).as_str(),
    );
    let root = join_path(temp_dir, directory.as_str());
    let file = info.name.clone().concat("-").concat(info.package_base.as_str()).concat(".tar.gz");
    let archive = join_path(cache_dir.as_str(), file.as_str());
    let build_dir = join_path(root.as_str(), info.package_base.as_str());
    SnapshotPlan {
        name: info.name.clone(),
        package_base: info.package_base.clone(),
        cache_dir,
        archive,
        url: String::from_str("https://aur.archlinux.org/cgit/aur.git/snapshot/").concat(
            info.package_base.as_str(),
        ).concat(".tar.gz"),
        root,
        build_dir,
    }
}

/// Where the preparation of a plan stands.
#[derive(Debug)]
pub enum SnapshotStart {
    /// The directory that keeps downloaded archives has to be made.
    MakeCache(String),
    /// The clock has to be read.
    ReadClock,
    /// There is a plan.
    Planned(SnapshotPlan),
    /// There can be none, with this message.
    Failed(String),
}

/// The stand, with its texts.
#[verifier::ext_equal]
pub enum SnapshotStartModel {
    MakeCache(Seq<char>),
    ReadClock,
    Planned(PlanModel),
    Failed(Seq<char>),
}

impl View for SnapshotStart {
    type V = SnapshotStartModel;

    open spec fn view(&self) -> SnapshotStartModel {
        match self {
            SnapshotStart::MakeCache(path) => SnapshotStartModel::MakeCache(path@),
            SnapshotStart::ReadClock => SnapshotStartModel::ReadClock,
            SnapshotStart::Planned(plan) => SnapshotStartModel::Planned(plan@),
            SnapshotStart::Failed(message) => SnapshotStartModel::Failed(message@),
        }
    }
}

/// Where the preparation of a plan stands, by what came of making the directory and of reading the
/// clock, in milliseconds.
pub open spec fn preparation(
    user: Seq<char>,
    info: AurInfo,
    temp_dir: Seq<char>,
    made: Option<Result<(), String>>,
    clock: Option<Result<u128, String>>,
) -> SnapshotStartModel {
    let cache_dir = joined_path(user_cache(user), "snapshots"@);
    match made {
        None => SnapshotStartModel::MakeCache(cache_dir),
        Some(Err(reason)) => SnapshotStartModel::Failed(directory_message(cache_dir, reason@)),
        Some(Ok(())) => match clock {
            None => SnapshotStartModel::ReadClock,
            Some(Err(reason)) => SnapshotStartModel::Failed(
                "failed to read system time: "@ + reason@,
            ),
            Some(Ok(stamp)) => SnapshotStartModel::Planned(
                planned(user, info, temp_dir, stamp as nat),
            ),
        },
    }
}

/// Prepares a plan, by what came so far of making the directory that keeps downloaded archives and
/// of reading the clock.
pub fn start_snapshot(
    user: &str,
    info: &AurPackageInfo,
    temp_dir: &str,
    made: &Option<Result<(), String>>,
    clock: &Option<Result<u128, String>>,
) -> (r: SnapshotStart)
    ensures
        r@ == preparation(user@, info@, temp_dir@, *made, *clock),
{
    let cache_dir = aur_snapshot_cache_dir(user);
    match made {
        None => SnapshotStart::MakeCache(cache_dir),
        Some(Err(reason)) => SnapshotStart::Failed(
            directory_failure(cache_dir.as_str(), reason.as_str()),
        ),
        Some(Ok(())) => match clock {
            None => SnapshotStart::ReadClock,
            Some(Err(reason)) => SnapshotStart::Failed(
                String::from_str("failed to read system time: ").concat(reason.as_str()),
            ),
            Some(Ok(stamp)) => SnapshotStart::Planned(plan_snapshot(user, info, temp_dir, *stamp)),
        },
    }
}

/// What has to be done next to get the sources of a package.
#[derive(Debug)]
pub enum SnapshotStep {
    /// Make the directory into which the archive is unpacked.
    MakeRoot,
    /// See whether the archive is in the cache.
    CheckArchive,
    /// Download the archive.
    Download,
    /// Unpack the archive. It was in the cache before if `cached`.
    Unpack { cached: bool },
    /// See whether the directory with the sources is there.
    CheckDirectory,
    /// Nothing: the sources are there.
    Ready,
    /// Nothing: they cannot be had, with this message.
    Failed(String),
}

/// The step, with its text.
pub enum SnapshotStepModel {
    MakeRoot,
    CheckArchive,
    Download,
    Unpack { cached: bool },
    CheckDirectory,
    Ready,
    Failed(Seq<char>),
}

impl View for SnapshotStep {
    type V = SnapshotStepModel;

    open spec fn view(&self) -> SnapshotStepModel {
        match self {
            SnapshotStep::MakeRoot => SnapshotStepModel::MakeRoot,
            SnapshotStep::CheckArchive => SnapshotStepModel::CheckArchive,
            SnapshotStep::Download => SnapshotStepModel::Download,
            SnapshotStep::Unpack { cached } => SnapshotStepModel::Unpack { cached: *cached },
            SnapshotStep::CheckDirectory => SnapshotStepModel::CheckDirectory,
            SnapshotStep::Ready => SnapshotStepModel::Ready,
            SnapshotStep::Failed(message) => SnapshotStepModel::Failed(message@),
        }
    }
}

/// The program that a step runs, if it runs one.
pub open spec fn snapshot_program(plan: PlanModel, step: SnapshotStepModel) -> Option<
    InvocationModel,
> {
    match step {
        SnapshotStepModel::Download => Some(
            InvocationModel {
                program: "curl"@,
                args: seq!["-fsSL"@, plan.url, "-o"@, plan.archive],
            },
        ),
        SnapshotStepModel::Unpack { .. } => Some(
            InvocationModel {
                program: "tar"@,
                args: seq!["-xzf"@, plan.archive, "-C"@, plan.root],
            },
        ),
        _ => None,
    }
}

/// The program that a step runs, if it runs one.
pub fn snapshot_command(plan: &SnapshotPlan, step: &SnapshotStep) -> (r: Option<Invocation>)
    ensures
        match r {
            Some(command) => snapshot_program(plan@, step@) == Some(command@),
            None => snapshot_program(plan@, step@) is None,
        },
{
    match step {
        SnapshotStep::Download => {
            let args = vec![
                String::from_str("-fsSL"),
                plan.url.clone(),
                String::from_str("-o"),
                plan.archive.clone(),
            ];
            assert(texts(args@) =~= seq!["-fsSL"@, plan@.url, "-o"@, plan@.archive]);
            Some(Invocation { program: String::from_str("curl"), args })
        },
        SnapshotStep::Unpack { .. } => {
            let args = vec![
                String::from_str("-xzf"),
                plan.archive.clone(),
                String::from_str("-C"),
                plan.root.clone(),
            ];
            assert(texts(args@) =~= seq!["-xzf"@, plan@.archive, "-C"@, plan@.root]);
            Some(Invocation { program: String::from_str("tar"), args })
        },
        _ => None,
    }
}

/// What came of a step.
#[derive(Debug)]
pub enum SnapshotEvent {
    /// The directory was made, or not, for this reason.
    Made(Option<String>),
    /// The file or directory was looked for, and found or not.
    Exists(bool),
    /// The program was run.
    Ran(Outcome),
}

/// Whether an event can come of a step.
pub open spec fn snapshot_event_fits(step: SnapshotStepModel, event: SnapshotEvent) -> bool {
    match step {
        SnapshotStepModel::MakeRoot => event is Made,
        SnapshotStepModel::CheckArchive => event is Exists,
        SnapshotStepModel::Download => event is Ran,
        SnapshotStepModel::Unpack { .. } => event is Ran,
        SnapshotStepModel::CheckDirectory => event is Exists,
        _ => false,
    }
}

/// The message for a program that did not end well. `action` says what it was to do.
pub open spec fn snapshot_failure(
    action: Seq<char>,
    name: Seq<char>,
    outcome: Outcome,
) -> Seq<char> {
    match outcome {
        Outcome::NotStarted(reason) => "failed to "@ + action + " AUR snapshot: "@ + reason@,
        Outcome::Ended { stderr, .. } => "failed to "@ + action + " AUR snapshot for '"@ + name
            + "': "@ + stderr@,
    }
}

/// The message for an archive that lacks the directory with the sources.
pub open spec fn missing_directory(plan: PlanModel) -> Seq<char> {
    "snapshot for '"@ + plan.name + "' did not contain expected directory '"@ + plan.package_base
        + "': "@ + plan.build_dir
}

/// The step that follows a step, by what came of it.
pub open spec fn following_step(
    plan: PlanModel,
    step: SnapshotStepModel,
    event: SnapshotEvent,
) -> SnapshotStepModel {
    match (step, event) {
        (SnapshotStepModel::MakeRoot, SnapshotEvent::Made(failure)) => match failure {
            None => SnapshotStepModel::CheckArchive,
            Some(reason) => SnapshotStepModel::Failed("failed to create temp dir: "@ + reason@),
        },
        (SnapshotStepModel::CheckArchive, SnapshotEvent::Exists(found)) => if found {
            SnapshotStepModel::Unpack { cached: true }
        } else {
            SnapshotStepModel::Download
        },
        (SnapshotStepModel::Download, SnapshotEvent::Ran(outcome)) => if outcome.succeeded() {
            SnapshotStepModel::Unpack { cached: false }
        } else {
            SnapshotStepModel::Failed(snapshot_failure("download"@, plan.name, outcome))
        },
        (SnapshotStepModel::Unpack { .. }, SnapshotEvent::Ran(outcome)) => if outcome.succeeded() {
            SnapshotStepModel::CheckDirectory
        } else {
            SnapshotStepModel::Failed(snapshot_failure("extract"@, plan.name, outcome))
        },
        (SnapshotStepModel::CheckDirectory, SnapshotEvent::Exists(found)) => if found {
            SnapshotStepModel::Ready
        } else {
            SnapshotStepModel::Failed(missing_directory(plan))
        },
        _ => step,
    }
}

/// Judges how a program ended; gives the message if it did not end well.
fn judge(action: &str, name: &str, outcome: &Outcome) -> (r: Option<String>)
    ensures
        r is None <==> outcome.succeeded(),
        r is Some ==> r->0@ == snapshot_failure(action@, name@, *outcome),
{
    match outcome {
        Outcome::NotStarted(reason) => Some(
            String::from_str("failed to ").concat(action).concat(" AUR snapshot: ").concat(
                reason.as_str(),
            ),
        ),
        Outcome::Ended { success, stderr, .. } => if *success {
            None
        } else {
            Some(
                String::from_str("failed to ").concat(action).concat(
                    " AUR snapshot for '",
                ).concat(name).concat("': ").concat(stderr.as_str()),
            )
        },
    }
}

/// Where getting the sources begins, once there is a plan.
pub fn first_snapshot_step() -> (r: SnapshotStep)
    ensures
        r@ == SnapshotStepModel::MakeRoot,
{
    SnapshotStep::MakeRoot
}

/// Decides what to do after a step. What cannot come of the step changes nothing.
pub fn download_aur_snapshot(
    plan: &SnapshotPlan,
    step: SnapshotStep,
    event: &SnapshotEvent,
) -> (r: SnapshotStep)
    ensures
        r@ == following_step(plan@, step@, *event),
{
    match (step, event) {
        (SnapshotStep::MakeRoot, SnapshotEvent::Made(failure)) => match failure {
            None => SnapshotStep::CheckArchive,
            Some(reason) => SnapshotStep::Failed(
                String::from_str("failed to create temp dir: ").concat(reason.as_str()),
            ),
        },
        (SnapshotStep::CheckArchive, SnapshotEvent::Exists(found)) => if *found {
            SnapshotStep::Unpack { cached: true }
        } else {
            SnapshotStep::Download
        },
        (SnapshotStep::Download, SnapshotEvent::Ran(outcome)) => match judge(
            "download",
            plan.name.as_str(),
            outcome,
        ) {
            None => SnapshotStep::Unpack { cached: false },
            Some(message) => SnapshotStep::Failed(message),
        },
        (SnapshotStep::Unpack { .. }, SnapshotEvent::Ran(outcome)) => match judge(
            "extract",
            plan.name.as_str(),
            outcome,
        ) {
            None => SnapshotStep::CheckDirectory,
            Some(message) => SnapshotStep::Failed(message),
        },
        (SnapshotStep::CheckDirectory, SnapshotEvent::Exists(found)) => if *found {
            SnapshotStep::Ready
        } else {
            SnapshotStep::Failed(
                String::from_str("snapshot for '").concat(plan.name.as_str()).concat(
                    "' did not contain expected directory '",
                ).concat(plan.package_base.as_str()).concat("': ").concat(plan.build_dir.as_str()),
            )
        },
        (step, _) => step,
    }
}

/// The line that tells of an archive found in the cache.
pub fn cached_line(plan: &SnapshotPlan) -> (r: String)
    ensures
        r@ == notice(Colour::Cyan, "Using cached AUR snapshot for "@ + plan@.name),
{
    note(
        Colour::Cyan,
        String::from_str("Using cached AUR snapshot for ").concat(plan.name.as_str()).as_str(),
    )
}

/// How many steps can still follow a step.
pub open spec fn steps_left(step: SnapshotStepModel) -> nat {
    match step {
        SnapshotStepModel::MakeRoot => 5,
        SnapshotStepModel::CheckArchive => 4,
        SnapshotStepModel::Download => 3,
        SnapshotStepModel::Unpack { .. } => 2,
        SnapshotStepModel::CheckDirectory => 1,
        _ => 0,
    }
}

/// Getting the sources comes to an end: every step leaves fewer steps.
pub proof fn every_step_leads_on(plan: PlanModel, step: SnapshotStepModel, event: SnapshotEvent)
    requires
        snapshot_event_fits(step, event),
    ensures
        steps_left(following_step(plan, step, event)) < steps_left(step),
{
}

/// What is in the cache is not downloaded again.
pub proof fn cached_archive_is_used(plan: PlanModel)
    ensures
        following_step(plan, SnapshotStepModel::CheckArchive, SnapshotEvent::Exists(true))
            == (SnapshotStepModel::Unpack { cached: true }),
{
}

/// The sources are taken to be there only when their directory was seen.
pub proof fn ready_means_seen(plan: PlanModel, step: SnapshotStepModel, event: SnapshotEvent)
    requires
        snapshot_event_fits(step, event),
        following_step(plan, step, event) is Ready,
    ensures
        step is CheckDirectory,
        event == SnapshotEvent::Exists(true),
{
}

/// The step that is reached after these events, one after another.
pub open spec fn snapshot_run(plan: PlanModel, events: Seq<SnapshotEvent>) -> SnapshotStepModel
    decreases events.len(),
{
    if events.len() == 0 {
        SnapshotStepModel::MakeRoot
    } else {
        following_step(plan, snapshot_run(plan, events.drop_last()), events.last())
    }
}

/// Whether the archive was unpacked at this place.
pub open spec fn unpacked_at(plan: PlanModel, events: Seq<SnapshotEvent>, i: int) -> bool {
    &&& 0 <= i < events.len()
    &&& snapshot_run(plan, events.take(i)) is Unpack
    &&& events[i] matches SnapshotEvent::Ran(outcome) && outcome.succeeded()
}

/// Whether the directory with the sources was seen at this place.
pub open spec fn seen_at(plan: PlanModel, events: Seq<SnapshotEvent>, i: int) -> bool {
    &&& 0 <= i < events.len()
    &&& snapshot_run(plan, events.take(i)) is CheckDirectory
    &&& events[i] == SnapshotEvent::Exists(true)
}

proof fn lemma_unpacked(plan: PlanModel, events: Seq<SnapshotEvent>)
    requires
        snapshot_run(plan, events) is CheckDirectory || snapshot_run(plan, events) is Ready,
    ensures
        exists|i: int| #[trigger] unpacked_at(plan, events, i),
    decreases events.len(),
{
    let before = events.drop_last();
    let last = events.len() - 1;
    assert(events.take(last) =~= before);
    if snapshot_run(plan, before) is Unpack {
        assert(unpacked_at(plan, events, last));
    } else {
        lemma_unpacked(plan, before);
        let i = choose|i: int| #[trigger] unpacked_at(plan, before, i);
        assert(events.take(i) =~= before.take(i));
        assert(unpacked_at(plan, events, i));
    }
}

/// However it goes, sources that are taken to be there were unpacked, and their directory was seen.
pub proof fn finished_download_was_seen(plan: PlanModel, events: Seq<SnapshotEvent>)
    requires
        snapshot_run(plan, events) is Ready,
    ensures
        exists|i: int| #[trigger] unpacked_at(plan, events, i),
        exists|i: int| #[trigger] seen_at(plan, events, i),
    decreases events.len(),
{
    lemma_unpacked(plan, events);
    let before = events.drop_last();
    let last = events.len() - 1;
    assert(events.take(last) =~= before);
    if snapshot_run(plan, before) is Ready {
        finished_download_was_seen(plan, before);
        let i = choose|i: int| #[trigger] seen_at(plan, before, i);
        assert(events.take(i) =~= before.take(i));
        assert(seen_at(plan, events, i));
    } else {
        assert(seen_at(plan, events, last));
    }
}

/// Whether each event can come of the step at which it came.
pub open spec fn snapshot_events_fit(plan: PlanModel, events: Seq<SnapshotEvent>) -> bool {
    forall|i: int|
        0 <= i < events.len() ==> snapshot_event_fits(
            snapshot_run(plan, #[trigger] events.take(i)),
            events[i],
        )
}

/// Getting the sources takes five steps at most.
pub proof fn downloading_is_short(plan: PlanModel, events: Seq<SnapshotEvent>)
    requires
        snapshot_events_fit(plan, events),
    ensures
        events.len() + steps_left(snapshot_run(plan, events)) <= 5,
    decreases events.len(),
{
    if events.len() > 0 {
        let before = events.drop_last();
        let n = events.len() - 1;
        assert forall|i: int| 0 <= i < before.len() implies snapshot_event_fits(
            snapshot_run(plan, #[trigger] before.take(i)),
            before[i],
        ) by {
            assert(before.take(i) =~= events.take(i));
        }
        downloading_is_short(plan, before);
        assert(events.take(n) =~= before);
        every_step_leads_on(plan, snapshot_run(plan, before), events[n]);
    }
}

/// Nothing is planned before the directory for archives is made and the clock is read.
pub proof fn plan_comes_after_preparation(
    user: Seq<char>,
    info: AurInfo,
    temp_dir: Seq<char>,
    made: Option<Result<(), String>>,
    clock: Option<Result<u128, String>>,
)
    requires
        preparation(user, info, temp_dir, made, clock) is Planned,
    ensures
        made matches Some(Ok(_)),
        clock matches Some(Ok(stamp)) && preparation(user, info, temp_dir, made, clock)
            == SnapshotStartModel::Planned(planned(user, info, temp_dir, stamp as nat)),
{
}

/// A plan is for its package: the archive of its package base is fetched, kept under a name of both
/// in the cache of the user, and unpacked into a directory that bears its name and the time stamp;
/// the sources are below that directory.
pub proof fn plan_is_for_its_package(
    user: Seq<char>,
    info: AurInfo,
    temp_dir: Seq<char>,
    stamp: nat,
)
    ensures
        ({
            let plan = planned(user, info, temp_dir, stamp);
            &&& plan.name == info.name
            &&& plan.package_base == info.package_base
            &&& plan.cache_dir == joined_path(user_cache(user), "snapshots"@)
            &&& plan.archive == joined_path(
                plan.cache_dir,
                info.name + "-"@ + info.package_base + ".tar.gz"@,
            )
            &&& plan.url == "https://aur.archlinux.org/cgit/aur.git/snapshot/"@ + info.package_base
                + ".tar.gz"@
            &&& plan.root == joined_path(
                temp_dir,
                "archbrew-aur-"@ + info.name + "-"@ + decimal(stamp),
            )
            &&& plan.build_dir == joined_path(plan.root, info.package_base)
        }),
{
}

/// Plans made at different times unpack into different directories.
pub proof fn plans_do_not_share_directories(
    user: Seq<char>,
    info: AurInfo,
    temp_dir: Seq<char>,
    first: nat,
    second: nat,
)
    requires
        first != second,
    ensures
        planned(user, info, temp_dir, first).root != planned(user, info, temp_dir, second).root,
{
    reveal_strlit("/");
    reveal_strlit("archbrew-aur-");
    let front = "archbrew-aur-"@ + info.name + "-"@;
    let a = front + decimal(first);
    let b = front + decimal(second);
    assert(a[0] == 'a' && b[0] == 'a');
    if "/"@.is_prefix_of(a) {
        assert(a.subrange(0, 1)[0] == '/');
    }
    if "/"@.is_prefix_of(b) {
        assert(b.subrange(0, 1)[0] == '/');
    }
    let x = joined_path(temp_dir, a);
    let y = joined_path(temp_dir, b);
    if x == y {
        let n = x.len() - a.len();
        let m = y.len() - b.len();
        assert(x.skip(n) =~= a);
        assert(y.skip(m) =~= b);
        assert(n == m);
        assert(a.skip(front.len() as int) =~= decimal(first));
        assert(b.skip(front.len() as int) =~= decimal(second));
        decimal_is_injective(first, second);
    }
}

/// The archive that is downloaded is the one that is unpacked: from its address into the cache, and
/// from there into the directory of the plan. No other step runs a program.
pub proof fn archive_is_fetched_and_unpacked(
    plan: PlanModel,
    step: SnapshotStepModel,
    cached: bool,
)
    ensures
        ({
            let fetch = snapshot_program(plan, SnapshotStepModel::Download)->0;
            let unpack = snapshot_program(plan, SnapshotStepModel::Unpack { cached })->0;
            &&& fetch.program == "curl"@
            &&& fetch.args == seq!["-fsSL"@, plan.url, "-o"@, plan.archive]
            &&& unpack.program == "tar"@
            &&& unpack.args == seq!["-xzf"@, plan.archive, "-C"@, plan.root]
        }),
        snapshot_program(plan, step) is Some <==> step is Download || step is Unpack,
{
}

/// The steps come in turn: the directory is made, the archive is looked for, fetched where it is
/// missing, and unpacked, and the sources are looked for.
pub proof fn snapshot_steps_come_in_turn(plan: PlanModel, cached: bool, outcome: Outcome)
    requires
        outcome.succeeded(),
    ensures
        following_step(plan, SnapshotStepModel::MakeRoot, SnapshotEvent::Made(None))
            is CheckArchive,
        following_step(plan, SnapshotStepModel::CheckArchive, SnapshotEvent::Exists(true)) == (
        SnapshotStepModel::Unpack { cached: true }),
        following_step(plan, SnapshotStepModel::CheckArchive, SnapshotEvent::Exists(false))
            is Download,
        following_step(plan, SnapshotStepModel::Download, SnapshotEvent::Ran(outcome)) == (
        SnapshotStepModel::Unpack { cached: false }),
        following_step(plan, SnapshotStepModel::Unpack { cached }, SnapshotEvent::Ran(outcome))
            is CheckDirectory,
        following_step(plan, SnapshotStepModel::CheckDirectory, SnapshotEvent::Exists(true))
            is Ready,
{
}

/// A step that failed ends the download, and says for which package and why.
pub proof fn snapshot_failures_are_told(
    plan: PlanModel,
    cached: bool,
    reason: String,
    outcome: Outcome,
)
    requires
        !outcome.succeeded(),
    ensures
        following_step(plan, SnapshotStepModel::MakeRoot, SnapshotEvent::Made(Some(reason)))
            == SnapshotStepModel::Failed("failed to create temp dir: "@ + reason@),
        outcome is NotStarted ==> following_step(
            plan,
            SnapshotStepModel::Download,
            SnapshotEvent::Ran(outcome),
        ) == SnapshotStepModel::Failed(
            "failed to "@ + "download"@ + " AUR snapshot: "@ + outcome->NotStarted_0@,
        ),
        outcome is Ended ==> following_step(
            plan,
            SnapshotStepModel::Download,
            SnapshotEvent::Ran(outcome),
        ) == SnapshotStepModel::Failed(
            "failed to "@ + "download"@ + " AUR snapshot for '"@ + plan.name + "': "@
                + outcome->stderr@,
        ),
        outcome is NotStarted ==> following_step(
            plan,
            SnapshotStepModel::Unpack { cached },
            SnapshotEvent::Ran(outcome),
        ) == SnapshotStepModel::Failed(
            "failed to "@ + "extract"@ + " AUR snapshot: "@ + outcome->NotStarted_0@,
        ),
        outcome is Ended ==> following_step(
            plan,
            SnapshotStepModel::Unpack { cached },
            SnapshotEvent::Ran(outcome),
        ) == SnapshotStepModel::Failed(
            "failed to "@ + "extract"@ + " AUR snapshot for '"@ + plan.name + "': "@
                + outcome->stderr@,
        ),
        following_step(plan, SnapshotStepModel::CheckDirectory, SnapshotEvent::Exists(false))
            == SnapshotStepModel::Failed(
            "snapshot for '"@ + plan.name + "' did not contain expected directory '"@
                + plan.package_base + "': "@ + plan.build_dir,
        ),
{
}

/// A plan is prepared in turn: the cache is made, the clock is read, and the plan is for the time
/// that it showed. What fails is told.
pub proof fn preparation_comes_in_turn(
    user: Seq<char>,
    info: AurInfo,
    temp_dir: Seq<char>,
    clock: Option<Result<u128, String>>,
    stamp: u128,
    reason: String,
)
    ensures
        ({
            let cache_dir = joined_path(user_cache(user), "snapshots"@);
            &&& preparation(user, info, temp_dir, None, clock) == SnapshotStartModel::MakeCache(
                cache_dir,
            )
            &&& preparation(user, info, temp_dir, Some(Err(reason)), clock)
                == SnapshotStartModel::Failed(
                "failed to create directory '"@ + cache_dir + "': "@ + reason@,
            )
            &&& preparation(user, info, temp_dir, Some(Ok(())), None) is ReadClock
            &&& preparation(user, info, temp_dir, Some(Ok(())), Some(Err(reason)))
                == SnapshotStartModel::Failed("failed to read system time: "@ + reason@)
            &&& preparation(user, info, temp_dir, Some(Ok(())), Some(Ok(stamp)))
                == SnapshotStartModel::Planned(planned(user, info, temp_dir, stamp as nat))
        }),
{
}

/// The texts of a plan are those of its fields.
pub proof fn snapshot_plan_texts_are_its_fields(plan: SnapshotPlan)
    ensures
        plan@.name == plan.name@,
        plan@.package_base == plan.package_base@,
        plan@.cache_dir == plan.cache_dir@,
        plan@.archive == plan.archive@,
        plan@.url == plan.url@,
        plan@.root == plan.root@,
        plan@.build_dir == plan.build_dir@,
{
}

/// The texts of a preparation are those of the preparation.
pub proof fn preparation_texts_are_its_own(start: SnapshotStart)
    ensures
        start is MakeCache <==> start@ is MakeCache,
        start is ReadClock <==> start@ is ReadClock,
        start is Planned <==> start@ is Planned,
        start is Failed <==> start@ is Failed,
        start is MakeCache ==> start@->MakeCache_0 == start->MakeCache_0@,
        start is Planned ==> start@->Planned_0 == start->Planned_0@,
        start is Failed ==> start@->Failed_0 == start->Failed_0@,
{
}

/// The texts of a step are those of the step.
pub proof fn snapshot_step_texts_are_those_of_the_step(step: SnapshotStep)
    ensures
        step is MakeRoot <==> step@ is MakeRoot,
        step is CheckArchive <==> step@ is CheckArchive,
        step is Download <==> step@ is Download,
        step is Unpack <==> step@ is Unpack,
        step is CheckDirectory <==> step@ is CheckDirectory,
        step is Ready <==> step@ is Ready,
        step is Failed <==> step@ is Failed,
        step is Unpack ==> step@->cached == step->cached,
        step is Failed ==> step@->Failed_0 == step->Failed_0@,
{
}

} // verus!
