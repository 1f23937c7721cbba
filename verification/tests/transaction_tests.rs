use archbrew::command::Source;
use archbrew::database::{Package, SyncDatabase};
use archbrew::process::Invocation;
use archbrew::prompt::read_answer;
use archbrew::script::{
    animate_package_progress, find_upgrades, follow_script, install_built_local_packages,
    install_loaded_package, install_sync_packages, review_upgrades, uninstall_packages, upgrade,
    Op, ScriptStep, Upgrade,
};
use archbrew::transaction::{
    competing_pkg_managers, find_running_pkg_managers, first_start_step, kill_pkg_managers,
    lock_question, lock_removal, running_command, start_transaction, StartEvent, StartStep,
    StopStep,
};

fn strings(words: &[&str]) -> Vec<String> {
    words.iter().map(|w| w.to_string()).collect()
}

fn package(name: &str, version: &str) -> Package {
    Package {
        name: name.to_string(),
        version: version.to_string(),
        description: None,
        depends: vec![],
    }
}

fn failed(step: StartStep, event: StartEvent) -> String {
    match start_transaction(step, &event) {
        StartStep::Failed(message) => message,
        other => panic!("{other:?}"),
    }
}

fn inspected(lock_exists: bool, running: &[&str]) -> StartEvent {
    StartEvent::Inspected { lock_exists, running: strings(running) }
}

#[test]
fn transactions_start() {
    assert!(matches!(
        start_transaction(first_start_step(), &StartEvent::Started),
        StartStep::Started
    ));
    assert_eq!(
        failed(StartStep::Try, StartEvent::NotStarted("no memory".to_string())),
        "failed to start transaction: no memory"
    );
}

#[test]
fn a_stale_lock_is_removed_with_consent() {
    let conflict = StartEvent::NotStarted("unable to LOCK database".to_string());
    let step = start_transaction(StartStep::Try, &conflict);
    assert!(matches!(step, StartStep::Inspect));
    let step = start_transaction(step, &inspected(true, &[]));
    assert!(matches!(step, StartStep::ConfirmStale));
    let question = lock_question(&step).unwrap();
    assert_eq!(question.text, "Remove the stale lock file and continue?");
    assert_eq!(
        question.warnings,
        strings(&[
            "\x1b[33mwarn:\x1b[0m The package database is locked but no package manager appears \
             to be running.",
            "The lock file may be stale: /var/lib/pacman/db.lck",
        ])
    );
    let step = start_transaction(step, &StartEvent::Answered(true));
    assert!(matches!(step, StartStep::RemoveLock));
    let step = start_transaction(step, &StartEvent::Removed);
    assert!(matches!(step, StartStep::TryAgain));
    assert!(matches!(start_transaction(step, &StartEvent::Started), StartStep::Started));
}

#[test]
fn running_managers_are_stopped_with_consent() {
    let step = start_transaction(StartStep::Inspect, &inspected(true, &["pacman", "yay"]));
    let question = lock_question(&step).unwrap();
    assert_eq!(question.text, "Force-stop pacman, yay and remove the database lock?");
    assert_eq!(
        question.warnings[0],
        "\x1b[33mwarn:\x1b[0m The following package manager(s) are currently running: \
         \x1b[31mpacman, yay\x1b[0m"
    );
    assert_eq!(
        question.warnings[1],
        "Forcibly stopping them may leave the package database in an inconsistent state."
    );
    let step = start_transaction(step, &StartEvent::Answered(true));
    match &step {
        StartStep::StopAndRemoveLock(running) => {
            assert_eq!(running, &strings(&["pacman", "yay"]))
        }
        other => panic!("{other:?}"),
    }
    let step = start_transaction(step, &StartEvent::Stopped);
    assert!(matches!(step, StartStep::TryAgain));
    assert!(lock_question(&step).is_none());
}

#[test]
fn silence_leaves_the_lock_where_it_is() {
    for running in vec![strings(&[]), strings(&["pacman"])] {
        for line in vec![None, Some("\n"), Some("  \n"), Some("n\n"), Some("NO\n")] {
            let event = StartEvent::Inspected { lock_exists: true, running: running.clone() };
            let step = start_transaction(StartStep::Inspect, &event);
            let question = lock_question(&step).unwrap();
            assert!(!question.default_yes);
            let answer = read_answer(&question, line).unwrap();
            assert_eq!(failed(step, StartEvent::Answered(answer)), "aborted by user.");
        }
    }
}

#[test]
fn an_event_of_another_step_changes_nothing() {
    assert!(matches!(
        start_transaction(StartStep::ConfirmStale, &StartEvent::Removed),
        StartStep::ConfirmStale
    ));
    assert!(matches!(
        start_transaction(StartStep::Try, &StartEvent::Answered(true)),
        StartStep::Try
    ));
}

#[test]
fn starting_can_fail() {
    assert_eq!(
        failed(StartStep::Inspect, inspected(false, &[])),
        "unable to lock the package database (permission denied).\n\
         Try running with sudo: sudo brew upgrade"
    );
    let aborted = "aborted by user.";
    assert_eq!(failed(StartStep::ConfirmStale, StartEvent::Answered(false)), aborted);
    assert_eq!(
        failed(StartStep::ConfirmStop(strings(&["yay"])), StartEvent::Answered(false)),
        aborted
    );
    assert_eq!(
        failed(StartStep::ConfirmStale, StartEvent::NotAnswered("eof".to_string())),
        "eof"
    );
    assert_eq!(
        failed(
            StartStep::ConfirmStop(strings(&["yay"])),
            StartEvent::NotAnswered("eof".to_string())
        ),
        "eof"
    );
    assert_eq!(
        failed(StartStep::RemoveLock, StartEvent::NotRemoved("denied".to_string())),
        "failed to remove lock file: denied"
    );
    assert_eq!(
        failed(StartStep::TryAgain, StartEvent::NotStarted("still locked".to_string())),
        "failed to start transaction after clearing lock: still locked"
    );
}

fn pkill(signal: &str, name: &str) -> Invocation {
    Invocation { program: "pkill".to_string(), args: strings(&[signal, "-x", name]) }
}

#[test]
fn a_missing_lock_is_gone_too() {
    assert!(matches!(lock_removal(None, false), StartEvent::Removed));
    assert!(matches!(lock_removal(Some("not found"), true), StartEvent::Removed));
    match lock_removal(Some("denied"), false) {
        StartEvent::NotRemoved(reason) => assert_eq!(reason, "denied"),
        other => panic!("{other:?}"),
    }
}

#[test]
fn competing_managers_are_found_and_stopped() {
    let all = competing_pkg_managers();
    assert_eq!(all, strings(&["pacman", "paru", "yay"]));
    assert_eq!(
        find_running_pkg_managers(&all, &vec![true, false, true]),
        strings(&["pacman", "yay"])
    );
    assert_eq!(find_running_pkg_managers(&all, &vec![true]), strings(&["pacman"]));
    let command = running_command("paru");
    assert_eq!((command.program.as_str(), command.args), ("pgrep", strings(&["-x", "paru"])));
    let steps = kill_pkg_managers(&strings(&["pacman", "yay"]));
    assert_eq!(
        format!("{steps:?}"),
        format!(
            "{:?}",
            vec![
                StopStep::Kill(pkill("-TERM", "pacman")),
                StopStep::Kill(pkill("-TERM", "yay")),
                StopStep::Wait(800),
                StopStep::Kill(pkill("-KILL", "pacman")),
                StopStep::Kill(pkill("-KILL", "yay")),
            ]
        )
    );
}

fn shown(ops: &Vec<Op>) -> Vec<String> {
    ops.iter().map(|op| format!("{:?} / {}", op.call, op.failure)).collect()
}

fn sync() -> Vec<SyncDatabase> {
    vec![SyncDatabase { name: "extra".to_string(), packages: vec![package("vim", "9")] }]
}

#[test]
fn root_installs_in_a_transaction() {
    let ops = install_sync_packages(&sync(), &strings(&["vim", "ed"]), Source::Auto, true, true);
    assert_eq!(
        shown(&ops),
        strings(&[
            "Start / ",
            "QueueSync { repository: \"extra\", package: \"vim\" } / failed to queue 'vim' for \
             install: ",
            "Refuse / package 'ed' disappeared from sync databases",
            "Prepare / transaction prepare failed: ",
            "Commit / transaction commit failed: ",
            "Release / ",
            "Say { lines: [\"\\u{1b}[32m==>\\u{1b}[0m Installing \\u{1b}[33mvim\\u{1b}[0m\", \
             \"\\u{1b}[32m==>\\u{1b}[0m Installing \\u{1b}[33med\\u{1b}[0m\"] } / ",
        ])
    );
}

#[test]
fn others_install_with_pacman() {
    let ops = install_sync_packages(&sync(), &strings(&["vim"]), Source::Auto, true, false);
    assert_eq!(
        shown(&ops)[0],
        "Sudo { program: \"pacman\", args: [\"-S\", \"--needed\", \"vim\"] } / "
    );
    assert_eq!(ops.len(), 2);
    let ops = install_built_local_packages(&strings(&["/b/x.pkg.tar.zst"]), false);
    assert_eq!(
        shown(&ops),
        strings(&[
            "Sudo { program: \"pacman\", args: [\"-U\", \"/b/x.pkg.tar.zst\"] } / ",
            "Say { lines: [\"\\u{1b}[32m==>\\u{1b}[0m Installing \
             \\u{1b}[33mx.pkg.tar.zst\\u{1b}[0m\"] } / ",
        ])
    );
    let ops = install_loaded_package("/x", "x", true, false);
    assert_eq!(
        shown(&ops)[0],
        "Sudo { program: \"pacman\", args: [\"-U\", \"/x\"] } / "
    );
}

#[test]
fn built_packages_are_loaded_and_queued() {
    let ops = install_built_local_packages(&strings(&["/b/x", "/b/y"]), true);
    assert_eq!(
        shown(&ops)[..5].to_vec(),
        strings(&[
            "Start / ",
            "Load { path: \"/b/x\" } / failed to load built package '/b/x': ",
            "QueueLoaded / failed to queue built package '/b/x': ",
            "Load { path: \"/b/y\" } / failed to load built package '/b/y': ",
            "QueueLoaded / failed to queue built package '/b/y': ",
        ])
    );
    assert_eq!(ops.len(), 9);
    let ops = install_loaded_package("/x", "x", true, true);
    assert_eq!(
        shown(&ops)[..3].to_vec(),
        strings(&[
            "Start / ",
            "QueueLoaded / failed to queue local package for install: ",
            "Prepare / transaction prepare failed: ",
        ])
    );
}

#[test]
fn nothing_is_done_without_consent() {
    let installation = "Say { lines: [\"\\u{1b}[33m==>\\u{1b}[0m Installation cancelled\"] } / ";
    for root in vec![true, false] {
        let ops = install_sync_packages(&sync(), &strings(&["vim"]), Source::Auto, false, root);
        assert_eq!(shown(&ops), strings(&[installation]));
        assert_eq!(
            shown(&install_loaded_package("/x", "x", false, root)),
            strings(&[installation])
        );
    }
    assert_eq!(
        shown(&uninstall_packages(&vec![], &strings(&["vim"]), false)),
        strings(&["Say { lines: [\"\\u{1b}[33m==>\\u{1b}[0m Removal cancelled\"] } / "])
    );
    assert_eq!(
        shown(&upgrade(&vec![], Some(false))),
        strings(&[
            "Release / ",
            "Say { lines: [\"\\u{1b}[33m==>\\u{1b}[0m Upgrade cancelled\"] } / ",
        ])
    );
}

#[test]
fn packages_are_removed_once() {
    let local = vec![package("vim", "9"), package("ed", "1")];
    let ops = uninstall_packages(&local, &strings(&["Vim", "ed", "VIM", "gone"]), true);
    assert_eq!(
        shown(&ops)[..6].to_vec(),
        strings(&[
            "Start / ",
            "QueueRemoval { package: \"vim\" } / failed to queue 'vim' for removal: ",
            "QueueRemoval { package: \"ed\" } / failed to queue 'ed' for removal: ",
            "Refuse / package 'gone' is not installed",
            "Prepare / dependency check failed: ",
            "Commit / transaction commit failed: ",
        ])
    );
    let ops = uninstall_packages(&local, &strings(&["vim"]), true);
    assert_eq!(
        shown(&ops)[5],
        "Say { lines: [\"\\u{1b}[32m==>\\u{1b}[0m Deleting \\u{1b}[33mvim\\u{1b}[0m\", \
         \"\\u{1b}[32m==>\\u{1b}[0m Remove complete\"] } / "
    );
}

fn upgrades() -> Vec<Upgrade> {
    vec![
        Upgrade { name: "vim".to_string(), version: "10".to_string() },
        Upgrade { name: "lib".to_string(), version: "1".to_string() },
    ]
}

#[test]
fn upgrades_are_reviewed() {
    let local = vec![package("vim", "9")];
    assert_eq!(
        shown(&find_upgrades()),
        strings(&["Start / ", "QueueUpgrades / failed to calculate upgrades: "])
    );
    assert_eq!(
        review_upgrades(&local, &upgrades(), false),
        Some(strings(&[
            "\x1b[36m==>\x1b[0m Packages to be upgraded:",
            "  - vim 9 -> 10",
            "  - lib (new) -> 1",
        ]))
    );
    assert_eq!(review_upgrades(&local, &vec![], false), None);
    assert_eq!(
        review_upgrades(&local, &vec![], true),
        Some(strings(&["\x1b[36m==>\x1b[0m Packages to be upgraded:"]))
    );
}

#[test]
fn upgrades_are_carried_out() {
    assert_eq!(
        shown(&upgrade(&upgrades(), Some(true))),
        strings(&[
            "Prepare / transaction prepare failed: ",
            "Commit / transaction commit failed: ",
            "Release / ",
            "Say { lines: [\"\\u{1b}[32m==>\\u{1b}[0m Updating \\u{1b}[33mvim\\u{1b}[0m\", \
             \"\\u{1b}[32m==>\\u{1b}[0m Updating \\u{1b}[33mlib\\u{1b}[0m\", \
             \"\\u{1b}[32m==>\\u{1b}[0m Upgraded packages successfully\", \
             \"\\u{1b}[32m==>\\u{1b}[0m Upgrade complete\"] } / ",
        ])
    );
    assert_eq!(
        shown(&upgrade(&vec![], None)),
        strings(&[
            "Release / ",
            "Say { lines: [\"\\u{1b}[32m==>\\u{1b}[0m Nothing to upgrade\"] } / ",
        ])
    );
}

#[test]
fn scripts_are_followed() {
    let ops = install_sync_packages(&sync(), &strings(&["vim"]), Source::Auto, true, true);
    assert!(matches!(follow_script(&ops, &vec![]), ScriptStep::Next(0)));
    assert!(matches!(follow_script(&ops, &vec![None, None]), ScriptStep::Next(2)));
    match follow_script(&ops, &vec![None, None, Some("conflict".to_string())]) {
        ScriptStep::Failed(message) => {
            assert_eq!(message, "transaction prepare failed: conflict")
        }
        other => panic!("{other:?}"),
    }
    let late = Some("late".to_string());
    assert!(matches!(
        follow_script(&ops, &vec![None, None, None, None, late]),
        ScriptStep::Next(5)
    ));
    assert!(matches!(
        follow_script(&ops, &vec![None, None, None, None, None, None]),
        ScriptStep::Done
    ));
    let ops = uninstall_packages(&vec![], &strings(&["gone"]), true);
    match follow_script(&ops, &vec![None, None]) {
        ScriptStep::Failed(message) => assert_eq!(message, "package 'gone' is not installed"),
        other => panic!("{other:?}"),
    }
}

#[test]
fn progress_is_told() {
    assert_eq!(
        animate_package_progress("Installing", "vim"),
        "\x1b[32m==>\x1b[0m Installing \x1b[33mvim\x1b[0m"
    );
}
