//! Building a package in a sandbox.

use crate::paths::{
    aur_sandbox_home_dir, aur_source_cache_dir, directory_failure, directory_message, join_path,
    joined_path, user_cache,
};
use crate::process::{Invocation, InvocationModel, Outcome};
use crate::text::{copy_strings, texts};
use crate::units::{AurBuildUnit, UnitModel};
use vstd::prelude::*;

verus! {

/// The options with which `bwrap` sets up the sandbox: the file system is there to be read, only
/// the sources, the caches of the build and the directories for temporary files can be written,
/// and no home directory is seen.
pub open spec fn sandbox_options(
    build_dir: Seq<char>,
    source_dir: Seq<char>,
    home: Seq<char>,
) -> Seq<Seq<char>> {
    seq![
        "--die-with-parent"@,
        "--ro-bind"@,
        "/"@,
        "/"@,
        "--bind"@,
        build_dir,
        build_dir,
        "--bind"@,
        source_dir,
        source_dir,
        "--bind"@,
        home,
        home,
        "--bind"@,
        "/tmp"@,
        "/tmp"@,
        "--bind"@,
        "/var/tmp"@,
        "/var/tmp"@,
        "--proc"@,
        "/proc"@,
        "--dev"@,
        "/dev"@,
        "--tmpfs"@,
        "/home"@,
        "--setenv"@,
        "HOME"@,
        home,
        "--setenv"@,
        "SRCDEST"@,
        source_dir,
        "--setenv"@,
        "PACKAGER"@,
        "ArchBrew"@,
        "--chdir"@,
        build_dir,
    ]
}

/// The command that builds the package.
pub open spec fn makepkg_command() -> Seq<Seq<char>> {
    seq![
        "/usr/bin/makepkg"@,
        "--syncdeps"@,
        "--cleanbuild"@,
        "--clean"@,
        "--needed"@,
        "--noconfirm"@,
    ]
}

/// How a package is built.
#[derive(Debug)]
pub struct BuildPlan {
    pub name: String,
    pub build_dir: String,
    /// The directory that keeps downloaded sources.
    pub source_dir: String,
    /// The home directory of the build.
    pub sandbox_home: String,
    /// Whether the plan is for root, who hands the directories over to the user first.
    pub root: bool,
    /// The user and group that own the directories.
    pub owner: String,
    /// The arguments with which `chown` hands them over.
    pub chown_args: Vec<String>,
    /// The program that builds the package.
    pub program: String,
    /// Its arguments.
    pub args: Vec<String>,
}

/// The texts that such a plan holds.
#[verifier::ext_equal]
pub struct BuildModel {
    pub name: Seq<char>,
    pub build_dir: Seq<char>,
    pub source_dir: Seq<char>,
    pub sandbox_home: Seq<char>,
    pub root: bool,
    pub owner: Seq<char>,
    pub chown_args: Seq<Seq<char>>,
    pub program: Seq<char>,
    pub args: Seq<Seq<char>>,
}

impl View for BuildPlan {
    type V = BuildModel;

    open spec fn view(&self) -> BuildModel {
        BuildModel {
            name: self.name@,
            build_dir: self.build_dir@,
            source_dir: self.source_dir@,
            sandbox_home: self.sandbox_home@,
            root: self.root,
            owner: self.owner@,
            chown_args: texts(self.chown_args@),
            program: self.program@,
            args: texts(self.args@),
        }
    }
}

/// The plan to build a package for a user. Root does not build: it has the user do it.
pub open spec fn build_plan(user: Seq<char>, unit: UnitModel, root: bool) -> BuildModel {
    let source_dir = joined_path(joined_path(user_cache(user), "sources"@), unit.info.name);
    let sandbox_home = joined_path(user_cache(user), "sandbox-home"@);
    let owner = user + ":"@ + user;
    let command = sandbox_options(unit.build_dir, source_dir, sandbox_home) + makepkg_command();
    BuildModel {
        name: unit.info.name,
        build_dir: unit.build_dir,
        source_dir,
        sandbox_home,
        root,
        owner,
        chown_args: seq!["-R"@, owner, unit.build_dir, source_dir, sandbox_home],
        program: if root {
            "sudo"@
        } else {
            "bwrap"@
        },
        args: if root {
            seq!["-u"@, user, "bwrap"@] + command
        } else {
            command
        },
    }
}

fn sandbox_args(build_dir: &str, source_dir: &str, home: &str) -> (r: Vec<String>)
    ensures
        texts(r@) == sandbox_options(build_dir@, source_dir@, home@),
{
    let r = vec![
        String::from_str("--die-with-parent"),
        String::from_str("--ro-bind"),
        String::from_str("/"),
        String::from_str("/"),
        String::from_str("--bind"),
        build_dir.to_owned(),
        build_dir.to_owned(),
        String::from_str("--bind"),
        source_dir.to_owned(),
        source_dir.to_owned(),
        String::from_str("--bind"),
        home.to_owned(),
        home.to_owned(),
        String::from_str("--bind"),
        String::from_str("/tmp"),
        String::from_str("/tmp"),
        String::from_str("--bind"),
        String::from_str("/var/tmp"),
        String::from_str("/var/tmp"),
        String::from_str("--proc"),
        String::from_str("/proc"),
        String::from_str("--dev"),
        String::from_str("/dev"),
        String::from_str("--tmpfs"),
        String::from_str("/home"),
        String::from_str("--setenv"),
        String::from_str("HOME"),
        home.to_owned(),
        String::from_str("--setenv"),
        String::from_str("SRCDEST"),
        source_dir.to_owned(),
        String::from_str("--setenv"),
        String::from_str("PACKAGER"),
        String::from_str("ArchBrew"),
        String::from_str("--chdir"),
        build_dir.to_owned(),
    ];
    assert(texts(r@) =~= sandbox_options(build_dir@, source_dir@, home@));
    r
}

fn makepkg_args() -> (r: Vec<String>)
    ensures
        texts(r@) == makepkg_command(),
{
    let r = vec![
        String::from_str("/usr/bin/makepkg"),
        String::from_str("--syncdeps"),
        String::from_str("--cleanbuild"),
        String::from_str("--clean"),
        String::from_str("--needed"),
        String::from_str("--noconfirm"),
    ];
    assert(texts(r@) =~= makepkg_command());
    r
}

/// Plans how to build a package for a user.
pub fn plan_build(user: &str, unit: &AurBuildUnit, root: bool) -> (r: BuildPlan)
    ensures
        r@ == build_plan(user@, unit@, root),
{
    let source_dir = join_path(aur_source_cache_dir(user).as_str(), unit.info.name.as_str());
    let sandbox_home = aur_sandbox_home_dir(user);
    let owner = user.to_owned().concat(":").concat(user);
    let chown_args = vec![
        String::from_str("-R"),
        owner.clone(),
        unit.build_dir.clone(),
        source_dir.clone(),
        sandbox_home.clone(),
    ];
    assert(texts(chown_args@) =~= seq![
        "-R"@,
        owner@,
        unit.build_dir@,
        source_dir@,
        sandbox_home@,
    ]);
    let mut args: Vec<String> = Vec::new();
    if root {
        args.push(String::from_str("-u"));
        args.push(user.to_owned());
        args.push(String::from_str("bwrap"));
    }
    let ghost front = texts(args@);
    assert(root ==> front =~= seq!["-u"@, user@, "bwrap"@]);
    let mut sandbox = sandbox_args(
        unit.build_dir.as_str(),
        source_dir.as_str(),
        sandbox_home.as_str(),
    );
    let mut makepkg = makepkg_args();
    let ghost options = texts(sandbox@);
    let ghost command = texts(makepkg@);
    args.append(&mut sandbox);
    args.append(&mut makepkg);
    assert(texts(args@) =~= front + (options + command));
    assert(!root ==> texts(args@) =~= options + command);
    BuildPlan {
        name: unit.info.name.clone(),
        build_dir: unit.build_dir.clone(),
        source_dir,
        sandbox_home,
        root,
        owner,
        chown_args,
        program: if root {
            String::from_str("sudo")
        } else {
            String::from_str("bwrap")
        },
        args,
    }
}

/// What has to be done next to build a package.
#[derive(Debug)]
pub enum BuildStep {
    /// Make the directory that keeps downloaded sources.
    MakeSourceDir,
    /// Make the home directory of the build.
    MakeHome,
    /// See whether the sandbox program is there.
    CheckSandbox,
    /// Hand the directories over to the user.
    HandOver,
    /// Build the package.
    Build,
    /// Nothing: the package is built.
    Built,
    /// Nothing: it cannot be built, with this message.
    Failed(String),
}

/// The step, with its text.
pub enum BuildStepModel {
    MakeSourceDir,
    MakeHome,
    CheckSandbox,
    HandOver,
    Build,
    Built,
    Failed(Seq<char>),
}

impl View for BuildStep {
    type V = BuildStepModel;

    open spec fn view(&self) -> BuildStepModel {
        match self {
            BuildStep::MakeSourceDir => BuildStepModel::MakeSourceDir,
            BuildStep::MakeHome => BuildStepModel::MakeHome,
            BuildStep::CheckSandbox => BuildStepModel::CheckSandbox,
            BuildStep::HandOver => BuildStepModel::HandOver,
            BuildStep::Build => BuildStepModel::Build,
            BuildStep::Built => BuildStepModel::Built,
            BuildStep::Failed(message) => BuildStepModel::Failed(message@),
        }
    }
}

/// The program that a step runs, if it runs one.
pub open spec fn build_program(plan: BuildModel, step: BuildStepModel) -> Option<InvocationModel> {
    match step {
        BuildStepModel::CheckSandbox => Some(
            InvocationModel { program: "bwrap"@, args: seq!["--version"@] },
        ),
        BuildStepModel::HandOver => Some(
            InvocationModel { program: "chown"@, args: plan.chown_args },
        ),
        BuildStepModel::Build => Some(InvocationModel { program: plan.program, args: plan.args }),
        _ => None,
    }
}

/// The program that a step runs, if it runs one.
pub fn build_command(plan: &BuildPlan, step: &BuildStep) -> (r: Option<Invocation>)
    ensures
        match r {
            Some(command) => build_program(plan@, step@) == Some(command@),
            None => build_program(plan@, step@) is None,
        },
{
    match step {
        BuildStep::CheckSandbox => {
            let args = vec![String::from_str("--version")];
            assert(texts(args@) =~= seq!["--version"@]);
            Some(Invocation { program: String::from_str("bwrap"), args })
        },
        BuildStep::HandOver => Some(
            Invocation {
                program: String::from_str("chown"),
                args: copy_strings(&plan.chown_args),
            },
        ),
        BuildStep::Build => Some(
            Invocation { program: plan.program.clone(), args: copy_strings(&plan.args) },
        ),
        _ => None,
    }
}

/// What came of a step.
#[derive(Debug)]
pub enum BuildEvent {
    /// The directory was made, or not, for this reason.
    Made(Option<String>),
    /// The program was run.
    Ran(Outcome),
}

/// Whether an event can come of a step.
pub open spec fn build_event_fits(step: BuildStepModel, event: BuildEvent) -> bool {
    match step {
        BuildStepModel::MakeSourceDir => event is Made,
        BuildStepModel::MakeHome => event is Made,
        BuildStepModel::CheckSandbox => event is Ran,
        BuildStepModel::HandOver => event is Ran,
        BuildStepModel::Build => event is Ran,
        _ => false,
    }
}

/// The message for a step whose program did not end well.
pub open spec fn build_failure(
    plan: BuildModel,
    step: BuildStepModel,
    outcome: Outcome,
) -> Seq<char> {
    match step {
        BuildStepModel::CheckSandbox =>
            "bubblewrap (bwrap) is required for AUR sandbox builds. Install package 'bubblewrap'."@,
        BuildStepModel::HandOver => match outcome {
            Outcome::NotStarted(reason) => "failed to fix build dir ownership: "@ + reason@,
            Outcome::Ended { .. } =>
                "failed to set writable ownership for AUR build directories for '"@
                    + plan.build_dir + "': "@ + plan.owner,
        },
        _ => match outcome {
            Outcome::NotStarted(reason) => "failed to invoke bwrap/makepkg for '"@ + plan.name
                + "': "@ + reason@,
            Outcome::Ended { stdout, stderr, .. } => "AUR build failed for '"@ + plan.name
                + "': "@ + stdout@ + stderr@,
        },
    }
}

/// The step that follows a step, by what came of it.
pub open spec fn following_build_step(
    plan: BuildModel,
    step: BuildStepModel,
    event: BuildEvent,
) -> BuildStepModel {
    match (step, event) {
        (BuildStepModel::MakeSourceDir, BuildEvent::Made(failure)) => match failure {
            Some(reason) => BuildStepModel::Failed(directory_message(plan.source_dir, reason@)),
            None => BuildStepModel::MakeHome,
        },
        (BuildStepModel::MakeHome, BuildEvent::Made(failure)) => match failure {
            Some(reason) => BuildStepModel::Failed(directory_message(plan.sandbox_home, reason@)),
            None => BuildStepModel::CheckSandbox,
        },
        (BuildStepModel::CheckSandbox, BuildEvent::Ran(outcome)) => if !outcome.succeeded() {
            BuildStepModel::Failed(build_failure(plan, step, outcome))
        } else if plan.root {
            BuildStepModel::HandOver
        } else {
            BuildStepModel::Build
        },
        (BuildStepModel::HandOver, BuildEvent::Ran(outcome)) => if outcome.succeeded() {
            BuildStepModel::Build
        } else {
            BuildStepModel::Failed(build_failure(plan, step, outcome))
        },
        (BuildStepModel::Build, BuildEvent::Ran(outcome)) => if outcome.succeeded() {
            BuildStepModel::Built
        } else {
            BuildStepModel::Failed(build_failure(plan, step, outcome))
        },
        _ => step,
    }
}

/// Where a build begins.
pub fn first_build_step() -> (r: BuildStep)
    ensures
        r@ == BuildStepModel::MakeSourceDir,
{
    BuildStep::MakeSourceDir
}

fn is_success(outcome: &Outcome) -> (r: bool)
    ensures
        r == outcome.succeeded(),
{
    match outcome {
        Outcome::NotStarted(_) => false,
        Outcome::Ended { success, .. } => *success,
    }
}

fn failure_text(plan: &BuildPlan, step: &BuildStep, outcome: &Outcome) -> (r: String)
    ensures
        r@ == build_failure(plan@, step@, *outcome),
{
    match step {
        BuildStep::CheckSandbox => String::from_str(
            "bubblewrap (bwrap) is required for AUR sandbox builds. Install package 'bubblewrap'.",
        ),
        BuildStep::HandOver => match outcome {
            Outcome::NotStarted(reason) => String::from_str(
                "failed to fix build dir ownership: ",
            ).concat(reason.as_str()),
            Outcome::Ended { .. } => String::from_str(
                "failed to set writable ownership for AUR build directories for '",
            ).concat(plan.build_dir.as_str()).concat("': ").concat(plan.owner.as_str()),
        },
        _ => match outcome {
            Outcome::NotStarted(reason) => String::from_str(
                "failed to invoke bwrap/makepkg for '",
            ).concat(plan.name.as_str()).concat("': ").concat(reason.as_str()),
            Outcome::Ended { stdout, stderr, .. } => String::from_str(
                "AUR build failed for '",
            ).concat(plan.name.as_str()).concat("': ").concat(stdout.as_str()).concat(
                stderr.as_str(),
            ),
        },
    }
}

/// Decides what to do after a step of a build. What cannot come of the step changes nothing.
pub fn build_aur_unit(plan: &BuildPlan, step: BuildStep, event: &BuildEvent) -> (r: BuildStep)
    ensures
        r@ == following_build_step(plan@, step@, *event),
{
    match (step, event) {
        (BuildStep::MakeSourceDir, BuildEvent::Made(failure)) => match failure {
            Some(reason) => BuildStep::Failed(
                directory_failure(plan.source_dir.as_str(), reason.as_str()),
            ),
            None => BuildStep::MakeHome,
        },
        (BuildStep::MakeHome, BuildEvent::Made(failure)) => match failure {
            Some(reason) => BuildStep::Failed(
                directory_failure(plan.sandbox_home.as_str(), reason.as_str()),
            ),
            None => BuildStep::CheckSandbox,
        },
        (BuildStep::CheckSandbox, BuildEvent::Ran(outcome)) => if !is_success(outcome) {
            BuildStep::Failed(failure_text(plan, &BuildStep::CheckSandbox, outcome))
        } else if plan.root {
            BuildStep::HandOver
        } else {
            BuildStep::Build
        },
        (BuildStep::HandOver, BuildEvent::Ran(outcome)) => if is_success(outcome) {
            BuildStep::Build
        } else {
            BuildStep::Failed(failure_text(plan, &BuildStep::HandOver, outcome))
        },
        (BuildStep::Build, BuildEvent::Ran(outcome)) => if is_success(outcome) {
            BuildStep::Built
        } else {
            BuildStep::Failed(failure_text(plan, &BuildStep::Build, outcome))
        },
        (step, _) => step,
    }
}

/// How many values follow a sandbox option; none is known of what is no such option.
pub open spec fn option_values(option: Seq<char>) -> Option<int> {
    if option == "--bind"@ || option == "--ro-bind"@ || option == "--setenv"@ {
        Some(2)
    } else if option == "--proc"@ || option == "--dev"@ || option == "--tmpfs"@ || option
        == "--chdir"@ {
        Some(1)
    } else if option == "--die-with-parent"@ {
        Some(0)
    } else {
        None
    }
}

/// The values that `option` is given where sandbox options are read from the front, up to what is
/// no option: the last value each time.
pub open spec fn values_given(args: Seq<Seq<char>>, option: Seq<char>) -> Seq<Seq<char>>
    decreases args.len(),
{
    if args.len() == 0 {
        seq![]
    } else {
        match option_values(args[0]) {
            Some(n) => if n < args.len() {
                let rest = values_given(args.skip(n + 1), option);
                if args[0] == option {
                    seq![args[n]] + rest
                } else {
                    rest
                }
            } else {
                seq![]
            },
            None => seq![],
        }
    }
}

/// The option names differ.
proof fn lemma_option_values()
    ensures
        option_values("--bind"@) == Some(2int),
        option_values("--ro-bind"@) == Some(2int),
        option_values("--setenv"@) == Some(2int),
        option_values("--proc"@) == Some(1int),
        option_values("--dev"@) == Some(1int),
        option_values("--tmpfs"@) == Some(1int),
        option_values("--chdir"@) == Some(1int),
        option_values("--die-with-parent"@) == Some(0int),
        option_values("/usr/bin/makepkg"@) is None,
        "--ro-bind"@ != "--bind"@,
        "--setenv"@ != "--bind"@,
        "--proc"@ != "--bind"@,
        "--dev"@ != "--bind"@,
        "--tmpfs"@ != "--bind"@,
        "--chdir"@ != "--bind"@,
        "--die-with-parent"@ != "--bind"@,
{
    reveal_strlit("--bind");
    reveal_strlit("--ro-bind");
    reveal_strlit("--setenv");
    reveal_strlit("--proc");
    reveal_strlit("--dev");
    reveal_strlit("--tmpfs");
    reveal_strlit("--chdir");
    reveal_strlit("--die-with-parent");
    reveal_strlit("/usr/bin/makepkg");
    assert("--bind"@[2] == 'b');
    assert("--proc"@[2] == 'p');
    assert("--dev"@.len() == 5);
    assert("--tmpfs"@[2] == 't');
    assert("--chdir"@[2] == 'c');
    assert("--ro-bind"@[2] == 'r');
    assert("--setenv"@[2] == 's');
    assert("--die-with-parent"@[3] == 'i');
    assert("/usr/bin/makepkg"@[0] == '/');
}

/// What a build can write is known beforehand: its own sources, its caches and the directories for
/// temporary files, and nothing else.
pub proof fn build_writes_known_directories_only(
    build_dir: Seq<char>,
    source_dir: Seq<char>,
    home: Seq<char>,
)
    ensures
        values_given(
            sandbox_options(build_dir, source_dir, home) + makepkg_command(),
            "--bind"@,
        ) == seq![build_dir, source_dir, home, "/tmp"@, "/var/tmp"@],
{
    lemma_option_values();
    let all = sandbox_options(build_dir, source_dir, home) + makepkg_command();
    assert(all.skip(0) =~= all);
    assert(values_given(all.skip(36), "--bind"@) =~= seq![]) by {
        assert(all.skip(36)[0] == "/usr/bin/makepkg"@);
    }
    assert(all.skip(34).skip(2) =~= all.skip(36));
    assert(all.skip(31).skip(3) =~= all.skip(34));
    assert(all.skip(28).skip(3) =~= all.skip(31));
    assert(all.skip(25).skip(3) =~= all.skip(28));
    assert(all.skip(23).skip(2) =~= all.skip(25));
    assert(all.skip(21).skip(2) =~= all.skip(23));
    assert(all.skip(19).skip(2) =~= all.skip(21));
    assert(all.skip(16).skip(3) =~= all.skip(19));
    assert(all.skip(13).skip(3) =~= all.skip(16));
    assert(all.skip(10).skip(3) =~= all.skip(13));
    assert(all.skip(7).skip(3) =~= all.skip(10));
    assert(all.skip(4).skip(3) =~= all.skip(7));
    assert(all.skip(1).skip(3) =~= all.skip(4));
    assert(all.skip(0).skip(1) =~= all.skip(1));
    assert(values_given(all.skip(34), "--bind"@) =~= seq![]);
    assert(values_given(all.skip(31), "--bind"@) =~= seq![]);
    assert(values_given(all.skip(28), "--bind"@) =~= seq![]);
    assert(values_given(all.skip(25), "--bind"@) =~= seq![]);
    assert(values_given(all.skip(23), "--bind"@) =~= seq![]);
    assert(values_given(all.skip(21), "--bind"@) =~= seq![]);
    assert(values_given(all.skip(19), "--bind"@) =~= seq![]);
    assert(values_given(all.skip(16), "--bind"@) =~= seq!["/var/tmp"@]);
    assert(values_given(all.skip(13), "--bind"@) =~= seq!["/tmp"@, "/var/tmp"@]);
    assert(values_given(all.skip(10), "--bind"@) =~= seq![home, "/tmp"@, "/var/tmp"@]);
    assert(values_given(all.skip(7), "--bind"@) =~= seq![
        source_dir,
        home,
        "/tmp"@,
        "/var/tmp"@,
    ]);
    assert(values_given(all.skip(4), "--bind"@) =~= seq![
        build_dir,
        source_dir,
        home,
        "/tmp"@,
        "/var/tmp"@,
    ]);
    assert(values_given(all.skip(1), "--bind"@) == values_given(all.skip(4), "--bind"@));
}

/// How many steps can still follow a step of a build.
pub open spec fn build_steps_left(step: BuildStepModel) -> nat {
    match step {
        BuildStepModel::MakeSourceDir => 5,
        BuildStepModel::MakeHome => 4,
        BuildStepModel::CheckSandbox => 3,
        BuildStepModel::HandOver => 2,
        BuildStepModel::Build => 1,
        _ => 0,
    }
}

/// A build comes to an end: every step leaves fewer steps.
pub proof fn every_build_step_leads_on(plan: BuildModel, step: BuildStepModel, event: BuildEvent)
    requires
        build_event_fits(step, event),
    ensures
        build_steps_left(following_build_step(plan, step, event)) < build_steps_left(step),
{
}

/// Root has nothing built before the directories are handed over to the user, and no one else
/// hands them over.
pub proof fn root_hands_over_first(plan: BuildModel, step: BuildStepModel, event: BuildEvent)
    requires
        build_event_fits(step, event),
    ensures
        following_build_step(plan, step, event) is Build && plan.root ==> step is HandOver && (
        event matches BuildEvent::Ran(outcome) && outcome.succeeded()),
        following_build_step(plan, step, event) is HandOver ==> plan.root,
{
}

/// A package is built only by a build that succeeded.
pub proof fn built_means_success(plan: BuildModel, step: BuildStepModel, event: BuildEvent)
    requires
        build_event_fits(step, event),
        following_build_step(plan, step, event) is Built,
    ensures
        step is Build,
        event matches BuildEvent::Ran(outcome) && outcome.succeeded(),
{
}

/// The step that is reached after these events, one after another.
pub open spec fn build_run(plan: BuildModel, events: Seq<BuildEvent>) -> BuildStepModel
    decreases events.len(),
{
    if events.len() == 0 {
        BuildStepModel::MakeSourceDir
    } else {
        following_build_step(plan, build_run(plan, events.drop_last()), events.last())
    }
}

/// Whether `step` was taken, at this place, and its program succeeded.
pub open spec fn succeeded_at(
    plan: BuildModel,
    events: Seq<BuildEvent>,
    step: BuildStepModel,
    i: int,
) -> bool {
    &&& 0 <= i < events.len()
    &&& build_run(plan, events.take(i)) == step
    &&& events[i] matches BuildEvent::Ran(outcome) && outcome.succeeded()
}

proof fn lemma_step_succeeded(
    plan: BuildModel,
    events: Seq<BuildEvent>,
    step: BuildStepModel,
)
    requires
        ({
            let reached = build_run(plan, events);
            ||| step is HandOver && plan.root && (reached is Build || reached is Built)
            ||| step is CheckSandbox && (reached is HandOver || reached is Build
                || reached is Built)
            ||| step is Build && reached is Built
        }),
    ensures
        exists|i: int| #[trigger] succeeded_at(plan, events, step, i),
    decreases events.len(),
{
    let before = events.drop_last();
    let last = events.len() - 1;
    assert(events.take(last) =~= before);
    if build_run(plan, before) == step && build_run(plan, events) != step {
        assert(succeeded_at(plan, events, step, last));
    } else {
        lemma_step_succeeded(plan, before, step);
        let i = choose|i: int| #[trigger] succeeded_at(plan, before, step, i);
        assert(events.take(i) =~= before.take(i));
        assert(succeeded_at(plan, events, step, i));
    }
}

/// However a build goes, a package that is built was built by a program that succeeded, in a
/// sandbox that was there, and, for root, after the directories were handed over to the user.
pub proof fn finished_build_took_every_step(plan: BuildModel, events: Seq<BuildEvent>)
    requires
        build_run(plan, events) is Built,
    ensures
        exists|i: int| #[trigger] succeeded_at(plan, events, BuildStepModel::CheckSandbox, i),
        plan.root ==> exists|i: int| #[trigger]
            succeeded_at(plan, events, BuildStepModel::HandOver, i),
        exists|i: int| #[trigger] succeeded_at(plan, events, BuildStepModel::Build, i),
{
    lemma_step_succeeded(plan, events, BuildStepModel::CheckSandbox);
    if plan.root {
        lemma_step_succeeded(plan, events, BuildStepModel::HandOver);
    }
    lemma_step_succeeded(plan, events, BuildStepModel::Build);
}

/// Whether each event can come of the step at which it came.
pub open spec fn build_events_fit(plan: BuildModel, events: Seq<BuildEvent>) -> bool {
    forall|i: int|
        0 <= i < events.len() ==> build_event_fits(
            build_run(plan, #[trigger] events.take(i)),
            events[i],
        )
}

/// A build takes five steps at most.
pub proof fn building_is_short(plan: BuildModel, events: Seq<BuildEvent>)
    requires
        build_events_fit(plan, events),
    ensures
        events.len() + build_steps_left(build_run(plan, events)) <= 5,
    decreases events.len(),
{
    if events.len() > 0 {
        let before = events.drop_last();
        let n = events.len() - 1;
        assert forall|i: int| 0 <= i < before.len() implies build_event_fits(
            build_run(plan, #[trigger] before.take(i)),
            before[i],
        ) by {
            assert(before.take(i) =~= events.take(i));
        }
        building_is_short(plan, before);
        assert(events.take(n) =~= before);
        every_build_step_leads_on(plan, build_run(plan, before), events[n]);
    }
}

/// The sandbox lets every path that it opens be seen under its own name: the whole file system to
/// be read, and the sources, the caches and the directories for temporary files to be written. Home
/// directories are hidden. The build runs among its sources, with its own home and source cache.
pub proof fn sandbox_shows_what_a_build_needs(
    build_dir: Seq<char>,
    source_dir: Seq<char>,
    home: Seq<char>,
)
    ensures
        ({
            let options = sandbox_options(build_dir, source_dir, home);
            &&& options.len() == 36
            &&& options[0] == "--die-with-parent"@
            &&& options.subrange(1, 4) == seq!["--ro-bind"@, "/"@, "/"@]
            &&& options.subrange(4, 7) == seq!["--bind"@, build_dir, build_dir]
            &&& options.subrange(7, 10) == seq!["--bind"@, source_dir, source_dir]
            &&& options.subrange(10, 13) == seq!["--bind"@, home, home]
            &&& options.subrange(13, 16) == seq!["--bind"@, "/tmp"@, "/tmp"@]
            &&& options.subrange(16, 19) == seq!["--bind"@, "/var/tmp"@, "/var/tmp"@]
            &&& options.subrange(19, 21) == seq!["--proc"@, "/proc"@]
            &&& options.subrange(21, 23) == seq!["--dev"@, "/dev"@]
            &&& options.subrange(23, 25) == seq!["--tmpfs"@, "/home"@]
            &&& options.subrange(25, 28) == seq!["--setenv"@, "HOME"@, home]
            &&& options.subrange(28, 31) == seq!["--setenv"@, "SRCDEST"@, source_dir]
            &&& options.subrange(31, 34) == seq!["--setenv"@, "PACKAGER"@, "ArchBrew"@]
            &&& options.subrange(34, 36) == seq!["--chdir"@, build_dir]
        }),
{
    let options = sandbox_options(build_dir, source_dir, home);
    assert(options.subrange(1, 4) =~= seq!["--ro-bind"@, "/"@, "/"@]);
    assert(options.subrange(4, 7) =~= seq!["--bind"@, build_dir, build_dir]);
    assert(options.subrange(7, 10) =~= seq!["--bind"@, source_dir, source_dir]);
    assert(options.subrange(10, 13) =~= seq!["--bind"@, home, home]);
    assert(options.subrange(13, 16) =~= seq!["--bind"@, "/tmp"@, "/tmp"@]);
    assert(options.subrange(16, 19) =~= seq!["--bind"@, "/var/tmp"@, "/var/tmp"@]);
    assert(options.subrange(19, 21) =~= seq!["--proc"@, "/proc"@]);
    assert(options.subrange(21, 23) =~= seq!["--dev"@, "/dev"@]);
    assert(options.subrange(23, 25) =~= seq!["--tmpfs"@, "/home"@]);
    assert(options.subrange(25, 28) =~= seq!["--setenv"@, "HOME"@, home]);
    assert(options.subrange(28, 31) =~= seq!["--setenv"@, "SRCDEST"@, source_dir]);
    assert(options.subrange(31, 34) =~= seq!["--setenv"@, "PACKAGER"@, "ArchBrew"@]);
    assert(options.subrange(34, 36) =~= seq!["--chdir"@, build_dir]);
}

/// Root builds as the user does: it runs the very program that the user would run, with the same
/// arguments, as that user, and first hands over exactly the directories that the build writes.
pub proof fn root_builds_as_the_user(user: Seq<char>, unit: UnitModel)
    ensures
        ({
            let own = build_plan(user, unit, false);
            let other = build_plan(user, unit, true);
            &&& own.program == "bwrap"@
            &&& other.program == "sudo"@
            &&& other.args.len() == own.args.len() + 3
            &&& other.args[0] == "-u"@
            &&& other.args[1] == user
            &&& other.args[2] == own.program
            &&& forall|i: int|
                0 <= i < own.args.len() ==> #[trigger] other.args[3 + i] == #[trigger] own.args[i]
            &&& !own.root
            &&& other.root
        }),
        forall|root: bool|
            {
                let plan = #[trigger] build_plan(user, unit, root);
                &&& plan.name == unit.info.name
                &&& plan.build_dir == unit.build_dir
                &&& plan.source_dir == joined_path(
                    joined_path(user_cache(user), "sources"@),
                    unit.info.name,
                )
                &&& plan.sandbox_home == joined_path(user_cache(user), "sandbox-home"@)
                &&& plan.owner == user + ":"@ + user
                &&& plan.chown_args == seq![
                    "-R"@,
                    plan.owner,
                    plan.build_dir,
                    plan.source_dir,
                    plan.sandbox_home,
                ]
            },
{
}

/// A build runs `makepkg` behind the options of the sandbox, for the directories of its own plan.
pub proof fn build_runs_makepkg_in_the_sandbox(user: Seq<char>, unit: UnitModel)
    ensures
        ({
            let plan = build_plan(user, unit, false);
            &&& plan.args.subrange(0, 36) == sandbox_options(
                plan.build_dir,
                plan.source_dir,
                plan.sandbox_home,
            )
            &&& plan.args.skip(36) == seq![
                "/usr/bin/makepkg"@,
                "--syncdeps"@,
                "--cleanbuild"@,
                "--clean"@,
                "--needed"@,
                "--noconfirm"@,
            ]
        }),
{
    let plan = build_plan(user, unit, false);
    assert(plan.args.subrange(0, 36) =~= sandbox_options(
        plan.build_dir,
        plan.source_dir,
        plan.sandbox_home,
    ));
    assert(plan.args.skip(36) =~= makepkg_command());
}

/// Each step that runs a program runs its own: the sandbox is tried, the directories are handed
/// over, and the package is built, each with what the plan says.
pub proof fn build_steps_run_their_programs(plan: BuildModel, step: BuildStepModel)
    ensures
        build_program(plan, step) is Some <==> step is CheckSandbox || step is HandOver
            || step is Build,
        build_program(plan, BuildStepModel::CheckSandbox)->0.program == "bwrap"@,
        build_program(plan, BuildStepModel::CheckSandbox)->0.args == seq!["--version"@],
        build_program(plan, BuildStepModel::HandOver)->0.program == "chown"@,
        build_program(plan, BuildStepModel::HandOver)->0.args == plan.chown_args,
        build_program(plan, BuildStepModel::Build)->0.program == plan.program,
        build_program(plan, BuildStepModel::Build)->0.args == plan.args,
{
}

/// The steps of a build come in turn: the two directories, the look at the sandbox, handing over
/// where root builds, and the build.
pub proof fn build_steps_come_in_turn(plan: BuildModel, outcome: Outcome)
    requires
        outcome.succeeded(),
    ensures
        following_build_step(plan, BuildStepModel::MakeSourceDir, BuildEvent::Made(None))
            is MakeHome,
        following_build_step(plan, BuildStepModel::MakeHome, BuildEvent::Made(None))
            is CheckSandbox,
        plan.root ==> following_build_step(
            plan,
            BuildStepModel::CheckSandbox,
            BuildEvent::Ran(outcome),
        ) is HandOver,
        !plan.root ==> following_build_step(
            plan,
            BuildStepModel::CheckSandbox,
            BuildEvent::Ran(outcome),
        ) is Build,
        following_build_step(plan, BuildStepModel::HandOver, BuildEvent::Ran(outcome)) is Build,
        following_build_step(plan, BuildStepModel::Build, BuildEvent::Ran(outcome)) is Built,
{
}

/// A step that failed ends the build, and says which directory, which program or which package it
/// was.
pub proof fn build_failures_are_told(plan: BuildModel, reason: String, outcome: Outcome)
    requires
        !outcome.succeeded(),
    ensures
        following_build_step(plan, BuildStepModel::MakeSourceDir, BuildEvent::Made(Some(reason)))
            == BuildStepModel::Failed(
            "failed to create directory '"@ + plan.source_dir + "': "@ + reason@,
        ),
        following_build_step(plan, BuildStepModel::MakeHome, BuildEvent::Made(Some(reason)))
            == BuildStepModel::Failed(
            "failed to create directory '"@ + plan.sandbox_home + "': "@ + reason@,
        ),
        following_build_step(plan, BuildStepModel::CheckSandbox, BuildEvent::Ran(outcome))
            == BuildStepModel::Failed(
            "bubblewrap (bwrap) is required for AUR sandbox builds. Install package 'bubblewrap'."@,
        ),
        outcome is NotStarted ==> following_build_step(
            plan,
            BuildStepModel::HandOver,
            BuildEvent::Ran(outcome),
        ) == BuildStepModel::Failed(
            "failed to fix build dir ownership: "@ + outcome->NotStarted_0@,
        ),
        outcome is Ended ==> following_build_step(
            plan,
            BuildStepModel::HandOver,
            BuildEvent::Ran(outcome),
        ) == BuildStepModel::Failed(
            "failed to set writable ownership for AUR build directories for '"@ + plan.build_dir
                + "': "@ + plan.owner,
        ),
        outcome is NotStarted ==> following_build_step(
            plan,
            BuildStepModel::Build,
            BuildEvent::Ran(outcome),
        ) == BuildStepModel::Failed(
            "failed to invoke bwrap/makepkg for '"@ + plan.name + "': "@ + outcome->NotStarted_0@,
        ),
        outcome is Ended ==> following_build_step(
            plan,
            BuildStepModel::Build,
            BuildEvent::Ran(outcome),
        ) == BuildStepModel::Failed(
            "AUR build failed for '"@ + plan.name + "': "@ + outcome->stdout@ + outcome->stderr@,
        ),
{
}

/// The texts of a plan are those of its fields.
pub proof fn build_plan_texts_are_its_fields(plan: BuildPlan)
    ensures
        plan@.name == plan.name@,
        plan@.build_dir == plan.build_dir@,
        plan@.source_dir == plan.source_dir@,
        plan@.sandbox_home == plan.sandbox_home@,
        plan@.owner == plan.owner@,
        plan@.program == plan.program@,
        plan@.root == plan.root,
        plan@.chown_args == texts(plan.chown_args@),
        plan@.args == texts(plan.args@),
{
}

/// The texts of a step are those of the step.
pub proof fn build_step_texts_are_those_of_the_step(step: BuildStep)
    ensures
        step is MakeSourceDir <==> step@ is MakeSourceDir,
        step is MakeHome <==> step@ is MakeHome,
        step is CheckSandbox <==> step@ is CheckSandbox,
        step is HandOver <==> step@ is HandOver,
        step is Build <==> step@ is Build,
        step is Built <==> step@ is Built,
        step is Failed <==> step@ is Failed,
        step is Failed ==> step@->Failed_0 == step->Failed_0@,
{
}

} // verus!
