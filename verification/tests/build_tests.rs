use archbrew::aur::AurPackageInfo;
use archbrew::makepkg::{
    build_aur_unit, build_command, first_build_step, plan_build, BuildEvent, BuildStep,
};
use archbrew::paths::directory_failure;
use archbrew::process::Outcome;
use archbrew::snapshot::{
    cached_line, download_aur_snapshot, first_snapshot_step, plan_snapshot, snapshot_command,
    start_snapshot, SnapshotEvent, SnapshotPlan, SnapshotStart, SnapshotStep,
};
use archbrew::units::AurBuildUnit;

fn strings(words: &[&str]) -> Vec<String> {
    words.iter().map(|w| w.to_string()).collect()
}

fn info() -> AurPackageInfo {
    AurPackageInfo {
        name: "tool".to_string(),
        version: "1".to_string(),
        description: None,
        package_base: "tools".to_string(),
        depends: vec![],
        makedepends: vec![],
        checkdepends: vec![],
    }
}

fn ended(success: bool) -> Outcome {
    Outcome::Ended {
        success,
        status: String::new(),
        stdout: "out ".to_string(),
        stderr: "err".to_string(),
    }
}

fn missing() -> Outcome {
    Outcome::NotStarted("missing".to_string())
}

fn snapshot() -> SnapshotPlan {
    plan_snapshot("ann", &info(), "/tmp", 1700000000123)
}

fn failed_snapshot(step: SnapshotStep, event: SnapshotEvent) -> String {
    match download_aur_snapshot(&snapshot(), step, &event) {
        SnapshotStep::Failed(message) => message,
        other => panic!("{other:?}"),
    }
}

#[test]
fn snapshots_are_planned() {
    let plan = snapshot();
    assert_eq!(plan.cache_dir, "/var/tmp/archbrew-cache/ann/snapshots");
    assert_eq!(plan.archive, "/var/tmp/archbrew-cache/ann/snapshots/tool-tools.tar.gz");
    assert_eq!(plan.url, "https://aur.archlinux.org/cgit/aur.git/snapshot/tools.tar.gz");
    assert_eq!(plan.root, "/tmp/archbrew-aur-tool-1700000000123");
    assert_eq!(plan.build_dir, "/tmp/archbrew-aur-tool-1700000000123/tools");
    let download = snapshot_command(&plan, &SnapshotStep::Download).unwrap();
    assert_eq!(download.program, "curl");
    assert_eq!(download.args, strings(&["-fsSL", &plan.url, "-o", &plan.archive]));
    let unpack = snapshot_command(&plan, &SnapshotStep::Unpack { cached: true }).unwrap();
    assert_eq!(unpack.program, "tar");
    assert_eq!(unpack.args, strings(&["-xzf", &plan.archive, "-C", &plan.root]));
    assert!(snapshot_command(&plan, &SnapshotStep::CheckArchive).is_none());
    assert_eq!(
        cached_line(&plan),
        "\x1b[36m==>\x1b[0m Using cached AUR snapshot for tool"
    );
}

#[test]
fn a_fresh_snapshot_is_downloaded() {
    let plan = snapshot();
    let step = first_snapshot_step();
    let step = download_aur_snapshot(&plan, step, &SnapshotEvent::Made(None));
    assert!(matches!(step, SnapshotStep::CheckArchive));
    let step = download_aur_snapshot(&plan, step, &SnapshotEvent::Exists(false));
    assert!(matches!(step, SnapshotStep::Download));
    let step = download_aur_snapshot(&plan, step, &SnapshotEvent::Ran(ended(true)));
    assert!(matches!(step, SnapshotStep::Unpack { cached: false }));
    let step = download_aur_snapshot(&plan, step, &SnapshotEvent::Ran(ended(true)));
    assert!(matches!(step, SnapshotStep::CheckDirectory));
    let step = download_aur_snapshot(&plan, step, &SnapshotEvent::Exists(true));
    assert!(matches!(step, SnapshotStep::Ready));
}

#[test]
fn a_cached_snapshot_is_used() {
    let step = download_aur_snapshot(
        &snapshot(),
        SnapshotStep::CheckArchive,
        &SnapshotEvent::Exists(true),
    );
    assert!(matches!(step, SnapshotStep::Unpack { cached: true }));
}

#[test]
fn snapshots_can_fail() {
    assert_eq!(
        failed_snapshot(SnapshotStep::MakeRoot, SnapshotEvent::Made(Some("full".to_string()))),
        "failed to create temp dir: full"
    );
    assert_eq!(
        failed_snapshot(SnapshotStep::Download, SnapshotEvent::Ran(missing())),
        "failed to download AUR snapshot: missing"
    );
    assert_eq!(
        failed_snapshot(SnapshotStep::Download, SnapshotEvent::Ran(ended(false))),
        "failed to download AUR snapshot for 'tool': err"
    );
    assert_eq!(
        failed_snapshot(SnapshotStep::Unpack { cached: true }, SnapshotEvent::Ran(missing())),
        "failed to extract AUR snapshot: missing"
    );
    assert_eq!(
        failed_snapshot(SnapshotStep::Unpack { cached: false }, SnapshotEvent::Ran(ended(false))),
        "failed to extract AUR snapshot for 'tool': err"
    );
    assert_eq!(
        failed_snapshot(SnapshotStep::CheckDirectory, SnapshotEvent::Exists(false)),
        "snapshot for 'tool' did not contain expected directory 'tools': \
         /tmp/archbrew-aur-tool-1700000000123/tools"
    );
}

fn unit() -> AurBuildUnit {
    AurBuildUnit { info: info(), build_dir: "/tmp/b".to_string() }
}

fn failed_build(root: bool, step: BuildStep, event: BuildEvent) -> String {
    match build_aur_unit(&plan_build("ann", &unit(), root), step, &event) {
        BuildStep::Failed(message) => message,
        other => panic!("{other:?}"),
    }
}

#[test]
fn the_sandbox_is_set_up() {
    let plan = plan_build("ann", &unit(), false);
    let sources = "/var/tmp/archbrew-cache/ann/sources/tool";
    let home = "/var/tmp/archbrew-cache/ann/sandbox-home";
    assert_eq!(plan.source_dir, sources);
    assert_eq!(plan.sandbox_home, home);
    assert_eq!(plan.program, "bwrap");
    let expected = strings(&[
        "--die-with-parent", "--ro-bind", "/", "/", "--bind", "/tmp/b", "/tmp/b", "--bind",
        sources, sources, "--bind", home, home, "--bind", "/tmp", "/tmp", "--bind", "/var/tmp",
        "/var/tmp", "--proc", "/proc", "--dev", "/dev", "--tmpfs", "/home", "--setenv", "HOME",
        home, "--setenv", "SRCDEST", sources, "--setenv", "PACKAGER", "ArchBrew", "--chdir",
        "/tmp/b", "/usr/bin/makepkg", "--syncdeps", "--cleanbuild", "--clean", "--needed",
        "--noconfirm",
    ]);
    assert_eq!(plan.args, expected);
    let root = plan_build("ann", &unit(), true);
    assert_eq!(root.program, "sudo");
    assert_eq!(root.args[..3].to_vec(), strings(&["-u", "ann", "bwrap"]));
    assert_eq!(root.args[3..].to_vec(), expected);
    assert_eq!(root.chown_args, strings(&["-R", "ann:ann", "/tmp/b", sources, home]));
}

#[test]
fn a_user_builds_at_once() {
    let plan = plan_build("ann", &unit(), false);
    let step = first_build_step();
    let step = build_aur_unit(&plan, step, &BuildEvent::Made(None));
    assert!(matches!(step, BuildStep::MakeHome));
    let step = build_aur_unit(&plan, step, &BuildEvent::Made(None));
    assert!(matches!(step, BuildStep::CheckSandbox));
    let step = build_aur_unit(&plan, step, &BuildEvent::Ran(ended(true)));
    assert!(matches!(step, BuildStep::Build));
    let step = build_aur_unit(&plan, step, &BuildEvent::Ran(ended(true)));
    assert!(matches!(step, BuildStep::Built));
}

#[test]
fn root_hands_over() {
    let plan = plan_build("ann", &unit(), true);
    let step = build_aur_unit(&plan, BuildStep::CheckSandbox, &BuildEvent::Ran(ended(true)));
    assert!(matches!(step, BuildStep::HandOver));
    let step = build_aur_unit(&plan, step, &BuildEvent::Ran(ended(true)));
    assert!(matches!(step, BuildStep::Build));
}

#[test]
fn builds_can_fail() {
    assert_eq!(
        failed_build(false, BuildStep::MakeSourceDir, BuildEvent::Made(Some("ro".to_string()))),
        "failed to create directory '/var/tmp/archbrew-cache/ann/sources/tool': ro"
    );
    assert_eq!(
        failed_build(false, BuildStep::MakeHome, BuildEvent::Made(Some("ro".to_string()))),
        "failed to create directory '/var/tmp/archbrew-cache/ann/sandbox-home': ro"
    );
    let sandbox =
        "bubblewrap (bwrap) is required for AUR sandbox builds. Install package 'bubblewrap'.";
    assert_eq!(failed_build(false, BuildStep::CheckSandbox, BuildEvent::Ran(missing())), sandbox);
    assert_eq!(
        failed_build(false, BuildStep::CheckSandbox, BuildEvent::Ran(ended(false))),
        sandbox
    );
    assert_eq!(
        failed_build(true, BuildStep::HandOver, BuildEvent::Ran(missing())),
        "failed to fix build dir ownership: missing"
    );
    assert_eq!(
        failed_build(true, BuildStep::HandOver, BuildEvent::Ran(ended(false))),
        "failed to set writable ownership for AUR build directories for '/tmp/b': ann:ann"
    );
    assert_eq!(
        failed_build(false, BuildStep::Build, BuildEvent::Ran(missing())),
        "failed to invoke bwrap/makepkg for 'tool': missing"
    );
    assert_eq!(
        failed_build(false, BuildStep::Build, BuildEvent::Ran(ended(false))),
        "AUR build failed for 'tool': out err"
    );
    assert_eq!(directory_failure("/x", "no"), "failed to create directory '/x': no");
}

#[test]
fn a_plan_is_prepared() {
    let made: Option<Result<(), String>> = Some(Ok(()));
    match start_snapshot("ann", &info(), "/tmp", &None, &None) {
        SnapshotStart::MakeCache(path) => {
            assert_eq!(path, "/var/tmp/archbrew-cache/ann/snapshots")
        }
        other => panic!("{other:?}"),
    }
    assert!(matches!(
        start_snapshot("ann", &info(), "/tmp", &made, &None),
        SnapshotStart::ReadClock
    ));
    match start_snapshot("ann", &info(), "/tmp", &made, &Some(Ok(1700000000123))) {
        SnapshotStart::Planned(plan) => {
            assert_eq!(format!("{plan:?}"), format!("{:?}", snapshot()))
        }
        other => panic!("{other:?}"),
    }
    match start_snapshot("ann", &info(), "/tmp", &Some(Err("ro".to_string())), &None) {
        SnapshotStart::Failed(message) => assert_eq!(
            message,
            "failed to create directory '/var/tmp/archbrew-cache/ann/snapshots': ro"
        ),
        other => panic!("{other:?}"),
    }
    match start_snapshot("ann", &info(), "/tmp", &made, &Some(Err("early".to_string()))) {
        SnapshotStart::Failed(message) => {
            assert_eq!(message, "failed to read system time: early")
        }
        other => panic!("{other:?}"),
    }
}

#[test]
fn what_does_not_belong_to_a_step_changes_nothing() {
    let plan = plan_build("ann", &unit(), true);
    assert!(matches!(
        build_aur_unit(&plan, BuildStep::MakeHome, &BuildEvent::Ran(ended(true))),
        BuildStep::MakeHome
    ));
    assert!(matches!(
        build_aur_unit(&plan, BuildStep::Build, &BuildEvent::Made(None)),
        BuildStep::Build
    ));
    assert!(matches!(
        build_aur_unit(&plan, BuildStep::Built, &BuildEvent::Ran(ended(false))),
        BuildStep::Built
    ));
    assert!(matches!(
        download_aur_snapshot(&snapshot(), SnapshotStep::Download, &SnapshotEvent::Exists(true)),
        SnapshotStep::Download
    ));
}

#[test]
fn steps_of_a_build_run_programs() {
    let plan = plan_build("ann", &unit(), true);
    let check = build_command(&plan, &BuildStep::CheckSandbox).unwrap();
    assert_eq!(check.program, "bwrap");
    assert_eq!(check.args, strings(&["--version"]));
    let hand_over = build_command(&plan, &BuildStep::HandOver).unwrap();
    assert_eq!(hand_over.program, "chown");
    assert_eq!(hand_over.args, plan.chown_args);
    let build = build_command(&plan, &BuildStep::Build).unwrap();
    assert_eq!(build.program, "sudo");
    assert_eq!(build.args, plan.args);
    assert!(build_command(&plan, &BuildStep::MakeHome).is_none());
    assert!(build_command(&plan, &BuildStep::Built).is_none());
}
