use archbrew::aur::AurPackageInfo;
use archbrew::database::{Databases, Package, SyncDatabase};
use archbrew::resolve::{
    collect_aur_dependency_graph, fetch_aur_info, resolve_targets, Answer, Fetched, Resolution,
    Stop,
};
use archbrew::units::{
    building_line, find_built_package_files, install_aur_packages, prepare_aur_build_units,
    unit_line, AurBuildUnit, AurStep, Snapshot, UnitStop,
};

fn strings(words: &[&str]) -> Vec<String> {
    words.iter().map(|w| w.to_string()).collect()
}

fn package(name: &str) -> Package {
    Package {
        name: name.to_string(),
        version: "1".to_string(),
        description: None,
        depends: vec![],
    }
}

fn databases(local: &[&str], sync: &[&str]) -> Databases {
    Databases {
        local: local.iter().map(|n| package(n)).collect(),
        sync: vec![SyncDatabase {
            name: "core".to_string(),
            packages: sync.iter().map(|n| package(n)).collect(),
        }],
    }
}

fn aur(name: &str, depends: &[&str]) -> AurPackageInfo {
    AurPackageInfo {
        name: name.to_string(),
        version: "1-1".to_string(),
        description: None,
        package_base: name.to_string(),
        depends: strings(depends),
        makedepends: vec![],
        checkdepends: vec![],
    }
}

/// Answers every question from a fixed set of packages; the questions are noted.
fn converse(
    known: &Vec<AurPackageInfo>,
    databases: &Databases,
    targets: &[&str],
) -> (Result<Resolution, String>, Vec<String>) {
    let wanted = strings(targets);
    let mut replies: Vec<Fetched> = Vec::new();
    let mut asked: Vec<String> = Vec::new();
    for _ in 0..100 {
        match resolve_targets(databases, &wanted, &replies) {
            Ok(resolution) => return (Ok(resolution), asked),
            Err(Stop::Failed(message)) => return (Err(message), asked),
            Err(Stop::Ask(name)) => {
                replies.push(match known.iter().find(|i| i.name == name) {
                    Some(info) => Fetched::Found(info.clone()),
                    None => Fetched::Missing,
                });
                asked.push(name);
            }
        }
    }
    panic!("the questions do not end")
}

#[test]
fn dependencies_come_first() {
    let known = vec![aur("app", &["lib>=2", "tool"]), aur("lib", &["base"]), aur("base", &[])];
    let (end, asked) = converse(&known, &databases(&["tool"], &[]), &["app"]);
    let resolution = end.unwrap();
    assert_eq!(resolution.topo, strings(&["base", "lib", "app"]));
    assert_eq!(asked, strings(&["app", "lib", "lib", "base", "base"]));
    for name in vec!["base", "lib", "app"] {
        assert_eq!(resolution.infos.get(name).unwrap().name, name);
    }
}

#[test]
fn shared_dependencies_are_built_once() {
    let known = vec![aur("a", &["c"]), aur("b", &["c", "a"]), aur("c", &[])];
    let (end, _) = converse(&known, &databases(&[], &[]), &["a", "b"]);
    assert_eq!(end.unwrap().topo, strings(&["c", "a", "b"]));
}

#[test]
fn what_the_databases_have_is_not_asked_for() {
    let known = vec![aur("a", &["x", "y=1", "a", "", ">1"]), aur("x", &[]), aur("y", &[])];
    let (end, asked) = converse(&known, &databases(&["x"], &["y"]), &["a"]);
    assert_eq!(end.unwrap().topo, strings(&["a"]));
    assert_eq!(asked, strings(&["a"]));
}

#[test]
fn dependencies_that_the_aur_lacks_are_passed_over() {
    let known = vec![aur("a", &["libgone.so", "b"]), aur("b", &[])];
    let (end, asked) = converse(&known, &databases(&[], &[]), &["a"]);
    assert_eq!(end.unwrap().topo, strings(&["b", "a"]));
    assert_eq!(asked, strings(&["a", "libgone.so", "b", "b"]));
}

#[test]
fn cycles_are_found() {
    let known = vec![aur("a", &["b"]), aur("b", &["c"]), aur("c", &["a"])];
    let (end, _) = converse(&known, &databases(&[], &[]), &["a"]);
    match end {
        Err(message) => assert_eq!(message, "cyclic AUR dependency detected at 'a'"),
        Ok(_) => panic!("a cycle has no order"),
    }
}

#[test]
fn targets_must_exist() {
    let (end, _) = converse(&vec![], &databases(&[], &[]), &["ghost"]);
    match end {
        Err(message) => assert_eq!(message, "AUR package 'ghost' not found"),
        Ok(_) => panic!("there is no such package"),
    }
}

#[test]
fn failed_requests_end_it() {
    let replies = vec![Fetched::Failed("offline".to_string())];
    match resolve_targets(&databases(&[], &[]), &strings(&["a"]), &replies) {
        Err(Stop::Failed(message)) => assert_eq!(message, "offline"),
        _ => panic!("the request failed"),
    }
    let replies =
        vec![Fetched::Found(aur("a", &["b"])), Fetched::Failed("offline again".to_string())];
    match resolve_targets(&databases(&[], &[]), &strings(&["a"]), &replies) {
        Err(Stop::Failed(message)) => assert_eq!(message, "offline again"),
        _ => panic!("the request failed"),
    }
}

#[test]
fn more_replies_change_no_order() {
    let replies = vec![
        Fetched::Found(aur("a", &[])),
        Fetched::Failed("not looked at".to_string()),
    ];
    match resolve_targets(&databases(&[], &[]), &strings(&["a"]), &replies) {
        Ok(resolution) => assert_eq!(resolution.topo, strings(&["a"])),
        Err(stop) => panic!("{stop:?}"),
    }
}

#[test]
fn the_first_match_of_an_answer_counts() {
    let both = Answer::Results(vec![aur("a", &[]), aur("b", &[])]);
    match fetch_aur_info("x", &both) {
        Fetched::Found(info) => assert_eq!(info.name, "a"),
        other => panic!("{other:?}"),
    }
    assert!(matches!(fetch_aur_info("x", &Answer::Results(vec![])), Fetched::Missing));
    match fetch_aur_info("x", &Answer::Unreachable("offline".to_string())) {
        Fetched::Failed(reason) => assert_eq!(reason, "offline"),
        other => panic!("{other:?}"),
    }
    match fetch_aur_info("x", &Answer::Unreadable("EOF".to_string())) {
        Fetched::Failed(reason) => {
            assert_eq!(reason, "failed to parse AUR response for 'x': EOF")
        }
        other => panic!("{other:?}"),
    }
}

#[test]
fn units_follow_the_order() {
    let known = vec![aur("app", &["lib"]), aur("lib", &[])];
    let (end, _) = converse(&known, &databases(&[], &[]), &["app"]);
    let resolution = end.unwrap();
    match prepare_aur_build_units(&resolution.topo, &resolution.infos, &vec![]) {
        Err(UnitStop::Download(info)) => assert_eq!(info.name, "lib"),
        other => panic!("{other:?}"),
    }
    let one = vec![Snapshot::Unpacked("/tmp/lib".to_string())];
    match prepare_aur_build_units(&resolution.topo, &resolution.infos, &one) {
        Err(UnitStop::Download(info)) => assert_eq!(info.name, "app"),
        other => panic!("{other:?}"),
    }
    let two = vec![
        Snapshot::Unpacked("/tmp/lib".to_string()),
        Snapshot::Unpacked("/tmp/app".to_string()),
    ];
    let units = prepare_aur_build_units(&resolution.topo, &resolution.infos, &two).unwrap();
    assert_eq!(units.len(), 2);
    assert_eq!((units[0].info.name.as_str(), units[0].build_dir.as_str()), ("lib", "/tmp/lib"));
    assert_eq!((units[1].info.name.as_str(), units[1].build_dir.as_str()), ("app", "/tmp/app"));
}

#[test]
fn units_need_metadata_and_sources() {
    let nothing = Resolution::new();
    match prepare_aur_build_units(&strings(&["x"]), &nothing.infos, &vec![]) {
        Err(UnitStop::Failed(message)) => assert_eq!(message, "missing AUR metadata for 'x'"),
        other => panic!("{other:?}"),
    }
    let (end, _) = converse(&vec![aur("a", &[])], &databases(&[], &[]), &["a"]);
    let resolution = end.unwrap();
    let failed = vec![Snapshot::Failed("no space".to_string())];
    match prepare_aur_build_units(&resolution.topo, &resolution.infos, &failed) {
        Err(UnitStop::Failed(message)) => assert_eq!(message, "no space"),
        other => panic!("{other:?}"),
    }
}

#[test]
fn built_files_are_found() {
    let names = strings(&[
        "PKGBUILD",
        "a-1.pkg.tar.zst",
        "b-1.pkg.tar.xz",
        "a-1.pkg.tar.zst.sig",
        "c-1.pkg.tar.gz",
    ]);
    assert_eq!(
        find_built_package_files("/b", &Ok(names)),
        Ok(strings(&["/b/b-1.pkg.tar.xz", "/b/a-1.pkg.tar.zst"]))
    );
    assert_eq!(
        find_built_package_files("/b", &Ok(strings(&["PKGBUILD"]))),
        Err("no built package files found in '/b'".to_string())
    );
    assert_eq!(
        find_built_package_files("/b", &Err("denied".to_string())),
        Err("failed to read build dir '/b': denied".to_string())
    );
}

#[test]
fn building_is_announced() {
    assert_eq!(building_line(true), "\x1b[32m==>\x1b[0m Building AUR packages");
    assert_eq!(building_line(false), "\x1b[33m==>\x1b[0m Installation cancelled");
    let unit = AurBuildUnit { info: aur("a", &[]), build_dir: "/b".to_string() };
    assert_eq!(unit_line(&unit), "\x1b[36m==>\x1b[0m Building a 1-1");
}

#[test]
fn a_waiting_package_changes_nothing() {
    let mut state = Resolution::new();
    let mut used: usize = 0;
    let replies = vec![Fetched::Found(aur("a", &[]))];
    state.visiting.insert("a".to_string());
    match collect_aur_dependency_graph(&databases(&[], &[]), "a", &mut state, &replies, &mut used) {
        Err(Stop::Failed(message)) => {
            assert_eq!(message, "cyclic AUR dependency detected at 'a'")
        }
        other => panic!("{other:?}"),
    }
    assert!(state.topo.is_empty());
    assert!(state.infos.get("a").is_none());
    assert!(state.visiting.contains("a"));
    assert_eq!(used, 0);
}

#[test]
fn aur_packages_are_built_and_then_installed() {
    let units = vec![
        AurBuildUnit { info: aur("lib", &[]), build_dir: "/l".to_string() },
        AurBuildUnit { info: aur("app", &[]), build_dir: "/a".to_string() },
    ];
    let lib: Result<Vec<String>, String> = Ok(strings(&["/l/lib", "/l/doc"]));
    let app: Result<Vec<String>, String> = Ok(strings(&["/a/app"]));
    let broken: Result<Vec<String>, String> = Err("no compiler".to_string());
    let looked: Option<Result<(), String>> = Some(Ok(()));
    assert!(matches!(install_aur_packages(&units, &None, None, &vec![]), AurStep::Review));
    match install_aur_packages(&units, &Some(Err("no less".to_string())), None, &vec![]) {
        AurStep::Failed(message) => assert_eq!(message, "no less"),
        other => panic!("{other:?}"),
    }
    assert!(matches!(install_aur_packages(&units, &looked, None, &vec![]), AurStep::Confirm));
    assert!(matches!(install_aur_packages(&units, &looked, Some(false), &vec![]), AurStep::Cancelled));
    assert!(matches!(install_aur_packages(&units, &looked, Some(true), &vec![]), AurStep::Build(0)));
    assert!(matches!(
        install_aur_packages(&units, &looked, Some(true), &vec![lib.clone()]),
        AurStep::Build(1)
    ));
    match install_aur_packages(&units, &looked, Some(true), &vec![lib.clone(), app]) {
        AurStep::Install(files) => assert_eq!(files, strings(&["/l/lib", "/l/doc", "/a/app"])),
        other => panic!("{other:?}"),
    }
    for built in vec![vec![broken.clone()], vec![lib, broken]] {
        match install_aur_packages(&units, &looked, Some(true), &built) {
            AurStep::Failed(message) => assert_eq!(message, "no compiler"),
            other => panic!("{other:?}"),
        }
    }
}
