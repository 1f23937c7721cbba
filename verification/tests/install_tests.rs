use archbrew::aur::AurPackageInfo;
use archbrew::command::Source;
use archbrew::database::{Databases, Package, SyncDatabase};
use archbrew::install::{
    aur_helpers, has_aur_helper, install_packages, install_request, next_installation, InstallPart,
    InstallRequest, SortState,
};
use archbrew::local::{
    install_local_package, resolve_local_pkg_path, source_line, LoadedPackage, LocalStep, PathStep,
};
use archbrew::resolve::Fetched;

fn strings(words: &[&str]) -> Vec<String> {
    words.iter().map(|w| w.to_string()).collect()
}

fn package(name: &str) -> Package {
    Package {
        name: name.to_string(),
        version: "1".to_string(),
        description: None,
        depends: vec![],
    }
}

fn databases() -> Databases {
    Databases {
        local: vec![package("bash")],
        sync: vec![SyncDatabase {
            name: "extra".to_string(),
            packages: vec![package("vim"), package("bash")],
        }],
    }
}

fn found() -> Fetched {
    Fetched::Found(AurPackageInfo {
        name: "yay".to_string(),
        version: "1".to_string(),
        description: None,
        package_base: "yay".to_string(),
        depends: vec![],
        makedepends: vec![],
        checkdepends: vec![],
    })
}

#[test]
fn names_and_files_do_not_mix() {
    assert_eq!(
        install_request(&strings(&["vim"]), Some("x.pkg.tar.zst")).unwrap_err(),
        "do not mix package names with --local"
    );
    assert_eq!(
        install_request(&vec![], None).unwrap_err(),
        "no package names provided (or use --local <file.pkg.tar.zst>)"
    );
    match install_request(&vec![], Some("x.pkg.tar.zst")) {
        Ok(InstallRequest::File(path)) => assert_eq!(path, "x.pkg.tar.zst"),
        other => panic!("{other:?}"),
    }
    assert!(matches!(install_request(&strings(&["vim"]), None), Ok(InstallRequest::Names)));
}

#[test]
fn packages_are_sorted_out() {
    let names = strings(&["Bash", "VIM", "yay"]);
    let sorted = install_packages(&databases(), &names, Source::Auto, true, &vec![found()]);
    assert!(matches!(sorted.state, SortState::Ready));
    assert_eq!(sorted.sync_targets, strings(&["vim"]));
    assert_eq!(sorted.aur_targets, strings(&["yay"]));
    assert_eq!(
        sorted.lines,
        strings(&[
            "\x1b[36m==>\x1b[0m bash already installed (1)",
            "\x1b[36m==>\x1b[0m queued vim from extra",
            "\x1b[36m==>\x1b[0m queued yay from AUR",
        ])
    );
    assert!(matches!(next_installation(&sorted, &None, &None), InstallPart::Repositories));
}

#[test]
fn the_aur_is_asked_when_it_has_to_be() {
    let names = strings(&["vim", "Yay", "bash"]);
    let sorted = install_packages(&databases(), &names, Source::Auto, true, &vec![]);
    match &sorted.state {
        SortState::Ask(name) => assert_eq!(name, "yay"),
        other => panic!("{other:?}"),
    }
    assert_eq!(sorted.lines.len(), 1);
    let sorted = install_packages(&databases(), &names, Source::Aur, true, &vec![]);
    match &sorted.state {
        SortState::Ask(name) => assert_eq!(name, "vim"),
        other => panic!("{other:?}"),
    }
}

#[test]
fn packages_that_cannot_be_had() {
    let names = strings(&["Yay"]);
    match install_packages(&databases(), &names, Source::Arch, true, &vec![]).state {
        SortState::Failed(message) => {
            assert_eq!(message, "package 'yay' not found in sync databases")
        }
        other => panic!("{other:?}"),
    }
    match install_packages(&databases(), &names, Source::Auto, true, &vec![Fetched::Missing]).state {
        SortState::Failed(message) => {
            assert_eq!(message, "package 'yay' was not found in Arch repos or AUR")
        }
        other => panic!("{other:?}"),
    }
    let offline = vec![Fetched::Failed("offline".to_string())];
    match install_packages(&databases(), &names, Source::Auto, true, &offline).state {
        SortState::Failed(message) => assert_eq!(message, "offline"),
        other => panic!("{other:?}"),
    }
}

#[test]
fn installed_packages_leave_nothing_to_do() {
    let sorted = install_packages(&databases(), &strings(&["bash"]), Source::Auto, true, &vec![]);
    match next_installation(&sorted, &None, &None) {
        InstallPart::NothingToDo(line) => {
            assert_eq!(line, "\x1b[32m==>\x1b[0m Nothing to do")
        }
        other => panic!("{other:?}"),
    }
}

#[test]
fn repositories_come_before_the_aur() {
    let done: Option<Result<(), String>> = Some(Ok(()));
    let failed: Option<Result<(), String>> = Some(Err("conflict".to_string()));
    let both =
        install_packages(&databases(), &strings(&["vim", "yay"]), Source::Auto, true, &vec![found()]);
    assert!(matches!(next_installation(&both, &None, &None), InstallPart::Repositories));
    assert!(matches!(next_installation(&both, &done, &None), InstallPart::Aur));
    assert!(matches!(next_installation(&both, &done, &done), InstallPart::Done));
    for part in vec![
        next_installation(&both, &failed, &None),
        next_installation(&both, &done, &failed),
    ] {
        match part {
            InstallPart::Failed(message) => assert_eq!(message, "conflict"),
            other => panic!("{other:?}"),
        }
    }
    let aur = install_packages(&databases(), &strings(&["yay"]), Source::Auto, true, &vec![found()]);
    assert!(matches!(next_installation(&aur, &None, &None), InstallPart::Aur));
    let sync = install_packages(&databases(), &strings(&["vim"]), Source::Auto, true, &vec![]);
    assert!(matches!(next_installation(&sync, &done, &None), InstallPart::Done));
}

#[test]
fn nothing_is_installed_before_all_is_sorted_out() {
    let asking = install_packages(&databases(), &strings(&["vim", "yay"]), Source::Auto, true, &vec![]);
    match next_installation(&asking, &None, &None) {
        InstallPart::Ask(name) => assert_eq!(name, "yay"),
        other => panic!("{other:?}"),
    }
    let failed = install_packages(&databases(), &strings(&["vim", "yay"]), Source::Arch, true, &vec![]);
    match next_installation(&failed, &None, &None) {
        InstallPart::Failed(message) => {
            assert_eq!(message, "package 'yay' not found in sync databases")
        }
        other => panic!("{other:?}"),
    }
}

#[test]
fn more_replies_change_no_target() {
    let names = strings(&["yay"]);
    let one = install_packages(&databases(), &names, Source::Auto, true, &vec![found()]);
    let two =
        install_packages(&databases(), &names, Source::Auto, true, &vec![found(), Fetched::Missing]);
    assert_eq!(format!("{one:?}"), format!("{two:?}"));
}

#[test]
fn package_files_are_looked_for() {
    let here: Option<Result<String, String>> = Some(Ok("/home/ann".to_string()));
    match resolve_local_pkg_path("x.pkg.tar.xz", &here, Some(true)) {
        PathStep::Failed(message) => assert_eq!(message, "--local expects a .pkg.tar.zst file"),
        other => panic!("{other:?}"),
    }
    assert!(matches!(
        resolve_local_pkg_path("x.pkg.tar.zst", &None, None),
        PathStep::FindDirectory
    ));
    match resolve_local_pkg_path("x.pkg.tar.zst", &Some(Err("gone".to_string())), None) {
        PathStep::Failed(message) => {
            assert_eq!(message, "failed to get current directory: gone")
        }
        other => panic!("{other:?}"),
    }
    match resolve_local_pkg_path("x.pkg.tar.zst", &here, None) {
        PathStep::Look(path) => assert_eq!(path, "/home/ann/x.pkg.tar.zst"),
        other => panic!("{other:?}"),
    }
    match resolve_local_pkg_path("/x.pkg.tar.zst", &None, None) {
        PathStep::Look(path) => assert_eq!(path, "/x.pkg.tar.zst"),
        other => panic!("{other:?}"),
    }
    match resolve_local_pkg_path("x.pkg.tar.zst", &here, Some(true)) {
        PathStep::Found(path) => assert_eq!(path, "/home/ann/x.pkg.tar.zst"),
        other => panic!("{other:?}"),
    }
    match resolve_local_pkg_path("/x.pkg.tar.zst", &None, Some(false)) {
        PathStep::Failed(message) => {
            assert_eq!(message, "local package '/x.pkg.tar.zst' does not exist")
        }
        other => panic!("{other:?}"),
    }
    assert_eq!(source_line("/x"), "===> Source path: /x");
}

#[test]
fn package_files_are_compared_with_what_is_installed() {
    let local = databases().local;
    let loaded = |name: &str, version: &str| -> Result<LoadedPackage, String> {
        Ok(LoadedPackage { name: name.to_string(), version: version.to_string() })
    };
    match install_local_package(&local, "/x", &loaded("bash", "1")) {
        LocalStep::Installed(line) => {
            assert_eq!(line, "\x1b[36m==>\x1b[0m bash 1 is already installed")
        }
        other => panic!("{other:?}"),
    }
    match install_local_package(&local, "/x", &loaded("bash", "2")) {
        LocalStep::Confirm(line) => assert_eq!(
            line,
            "\x1b[32m==>\x1b[0m Installing local package \x1b[33mbash\x1b[0m 2"
        ),
        other => panic!("{other:?}"),
    }
    assert!(matches!(
        install_local_package(&local, "/x", &loaded("new", "1")),
        LocalStep::Confirm(_)
    ));
    match install_local_package(&local, "/x", &Err("corrupt".to_string())) {
        LocalStep::Failed(message) => {
            assert_eq!(message, "failed to load local package '/x': corrupt")
        }
        other => panic!("{other:?}"),
    }
}

#[test]
fn the_aur_source_requires_a_helper() {
    assert_eq!(aur_helpers(), strings(&["yay", "paru"]));
    assert!(has_aur_helper(&vec![false, true]));
    assert!(!has_aur_helper(&vec![false, false]));
    let names = strings(&["bash", "yay"]);
    let sorted = install_packages(&databases(), &names, Source::Aur, false, &vec![found()]);
    assert!(sorted.sync_targets.is_empty() && sorted.aur_targets.is_empty());
    assert_eq!(sorted.lines.len(), 1);
    match next_installation(&sorted, &None, &None) {
        InstallPart::Failed(message) => {
            assert_eq!(message, "the AUR source requires yay or paru")
        }
        other => panic!("{other:?}"),
    }
    let sorted = install_packages(&databases(), &names, Source::Aur, true, &vec![found()]);
    assert!(matches!(next_installation(&sorted, &None, &None), InstallPart::Aur));
}

#[test]
fn other_sources_require_no_helper() {
    let names = strings(&["vim", "yay"]);
    let sorted = install_packages(&databases(), &names, Source::Auto, false, &vec![found()]);
    assert_eq!(sorted.aur_targets, strings(&["yay"]));
    let installed = install_packages(&databases(), &strings(&["bash"]), Source::Aur, false, &vec![]);
    assert!(matches!(
        next_installation(&installed, &None, &None),
        InstallPart::NothingToDo(_)
    ));
}
