use archbrew::command::Source;
use archbrew::database::{
    find_package, find_sync_pkg, is_installed, open_failure, Databases, Package, SyncDatabase,
};
use archbrew::aur::AurPackageInfo;
use archbrew::report::{
    doctor, info, list_installed, search, search_aur, search_lines, update, SearchEntry,
    SearchStep,
};
use archbrew::resolve::Answer;

fn package(name: &str, version: &str, description: Option<&str>, depends: &[&str]) -> Package {
    Package {
        name: name.to_string(),
        version: version.to_string(),
        description: description.map(|d| d.to_string()),
        depends: depends.iter().map(|d| d.to_string()).collect(),
    }
}

fn databases() -> Databases {
    Databases {
        local: vec![
            package("vim", "9.0", Some("Editor"), &[]),
            package("mine", "1", None, &[]),
            package("bash", "5", Some("Shell"), &[]),
        ],
        sync: vec![
            SyncDatabase {
                name: "core".to_string(),
                packages: vec![
                    package("vim", "9.1", Some("Vi Improved, an EDITOR"), &["glibc", "gpm"]),
                    package("bash", "5.2", Some("Shell"), &[]),
                ],
            },
            SyncDatabase {
                name: "extra".to_string(),
                packages: vec![
                    package("nano", "8", Some("Small editor"), &[]),
                    package("vim", "0.1", Some("other editor"), &[]),
                    package("editorconfig", "2", None, &[]),
                ],
            },
        ],
    }
}

fn found(query: &str, source: Source) -> Vec<SearchEntry> {
    match search(&databases(), query, source, &None) {
        SearchStep::Found(entries) => entries,
        other => panic!("{other:?}"),
    }
}

#[test]
fn the_first_repository_wins() {
    let d = databases();
    let (repository, found) = find_sync_pkg(&d.sync, "vim", Source::Auto).unwrap();
    assert_eq!((repository, found.version.as_str()), ("core", "9.1"));
    assert!(find_sync_pkg(&d.sync, "vim", Source::Aur).is_none());
    assert!(find_sync_pkg(&d.sync, "emacs", Source::Arch).is_none());
    assert_eq!(find_package(&d.local, "mine").unwrap().version, "1");
    assert!(find_package(&d.local, "Mine").is_none());
    assert!(is_installed(&d.local, "bash"));
    assert!(!is_installed(&d.local, "nano"));
}

#[test]
fn searching_names_and_descriptions() {
    let entries = found("Editor", Source::Auto);
    assert_eq!(
        search_lines(&entries),
        vec![
            "  \x1b[36m*\x1b[0m editorconfig 2 [extra]".to_string(),
            "  \x1b[36m*\x1b[0m nano 8 [extra]".to_string(),
            "    Small editor".to_string(),
            "  \x1b[36m*\x1b[0m vim 9.1 [core] [installed]".to_string(),
            "    Vi Improved, an EDITOR".to_string(),
            "\x1b[32m==>\x1b[0m 3 result entries".to_string(),
        ]
    );
}

#[test]
fn searching_for_nothing_finds_all_once() {
    let entries = found("", Source::Arch);
    let names: Vec<&str> = entries.iter().map(|e| e.name.as_str()).collect();
    assert_eq!(names, vec!["bash", "editorconfig", "nano", "vim"]);
    assert_eq!(
        search_lines(&found("xyz", Source::Arch)),
        vec!["\x1b[32m==>\x1b[0m 0 result entries".to_string()]
    );
}

fn aur(name: &str, description: Option<&str>) -> AurPackageInfo {
    AurPackageInfo {
        name: name.to_string(),
        version: "3-1".to_string(),
        description: description.map(|d| d.to_string()),
        package_base: name.to_string(),
        depends: vec![],
        makedepends: vec![],
        checkdepends: vec![],
    }
}

#[test]
fn the_aur_is_asked_at_its_search_address() {
    match search(&databases(), "Neo vim", Source::Aur, &None) {
        SearchStep::Ask(url) => {
            assert_eq!(url, "https://aur.archlinux.org/rpc/v5/search/Neo%20vim")
        }
        other => panic!("{other:?}"),
    }
}

#[test]
fn searching_the_aur() {
    let results = vec![
        aur("neovim-git", Some("Fork of Vim")),
        aur("mine", Some("My VIM settings")),
        aur("unrelated", None),
        aur("neovim-git", Some("again, vim")),
        aur("gvim-fork", None),
    ];
    match search(&databases(), "Vim", Source::Aur, &Some(Answer::Results(results))) {
        SearchStep::Found(entries) => assert_eq!(
            search_lines(&entries),
            vec![
                "  \x1b[36m*\x1b[0m gvim-fork 3-1 [aur]".to_string(),
                "  \x1b[36m*\x1b[0m mine 3-1 [aur] [installed]".to_string(),
                "    My VIM settings".to_string(),
                "  \x1b[36m*\x1b[0m neovim-git 3-1 [aur]".to_string(),
                "    Fork of Vim".to_string(),
                "\x1b[32m==>\x1b[0m 3 result entries".to_string(),
            ]
        ),
        other => panic!("{other:?}"),
    }
}

#[test]
fn searching_the_aur_can_fail() {
    let local = databases().local;
    assert_eq!(
        search_aur(&local, "vim", &Answer::Unreachable("offline".to_string())).unwrap_err(),
        "offline"
    );
    assert_eq!(
        search_aur(&local, "vim", &Answer::Unreadable("EOF".to_string())).unwrap_err(),
        "failed to parse AUR response for 'vim': EOF"
    );
    assert!(search_aur(&local, "vim", &Answer::Results(vec![])).unwrap().is_empty());
    let offline = Some(Answer::Unreachable("offline".to_string()));
    match search(&databases(), "vim", Source::Aur, &offline) {
        SearchStep::Failed(message) => assert_eq!(message, "offline"),
        other => panic!("{other:?}"),
    }
}

#[test]
fn info_of_a_repository_package() {
    assert_eq!(
        info(&databases(), "VIM", Source::Auto).unwrap(),
        vec![
            "  \x1b[36mvim\x1b[0m 9.1 [core]".to_string(),
            "    Vi Improved, an EDITOR".to_string(),
            "    dependencies: glibc, gpm".to_string(),
            "    status: installed (9.0)".to_string(),
        ]
    );
    assert_eq!(
        info(&databases(), "editorconfig", Source::Auto).unwrap(),
        vec![
            "  \x1b[36meditorconfig\x1b[0m 2 [extra]".to_string(),
            "    dependencies: (none)".to_string(),
            "    status: not installed".to_string(),
        ]
    );
}

#[test]
fn info_of_a_local_package() {
    assert_eq!(
        info(&databases(), "mine", Source::Arch).unwrap(),
        vec![
            "  \x1b[36mmine\x1b[0m 1 [local]".to_string(),
            "    status: installed".to_string(),
        ]
    );
}

#[test]
fn info_of_nothing() {
    assert_eq!(
        info(&databases(), "Emacs", Source::Arch).unwrap_err(),
        "package 'Emacs' was not found in sync/local databases"
    );
    assert_eq!(
        info(&databases(), "vim", Source::Aur).unwrap_err(),
        "AUR info is not available through libalpm sync databases"
    );
}

#[test]
fn installed_packages_are_listed_by_name() {
    assert_eq!(
        list_installed(&databases().local, Source::Auto).unwrap(),
        vec![
            "  bash \x1b[33m5\x1b[0m".to_string(),
            "  mine \x1b[33m1\x1b[0m".to_string(),
            "  vim \x1b[33m9.0\x1b[0m".to_string(),
            "\x1b[32m==>\x1b[0m 3 installed package(s)".to_string(),
        ]
    );
    assert_eq!(
        list_installed(&vec![], Source::Aur).unwrap_err(),
        "AUR listing is not available through libalpm local database"
    );
}

#[test]
fn a_healthy_system() {
    let diagnosis = doctor(&databases());
    assert_eq!(diagnosis.result, Ok(()));
    assert_eq!(
        diagnosis.lines,
        vec![
            "\x1b[32mok\x1b[0m libalpm initialized".to_string(),
            "\x1b[36m==>\x1b[0m local db path: /var/lib/pacman/local".to_string(),
            "\x1b[36m==>\x1b[0m sync db count: 2".to_string(),
            "\x1b[32mok\x1b[0m local package database is readable".to_string(),
            "\x1b[32m==>\x1b[0m Your system is ready for ArchBrew".to_string(),
        ]
    );
}

#[test]
fn a_system_with_issues() {
    let diagnosis = doctor(&Databases { local: vec![], sync: vec![] });
    assert_eq!(diagnosis.result, Err("diagnostics completed with 1 issue(s)".to_string()));
    assert_eq!(
        diagnosis.lines,
        vec![
            "\x1b[32mok\x1b[0m libalpm initialized".to_string(),
            "\x1b[36m==>\x1b[0m local db path: /var/lib/pacman/local".to_string(),
            "\x1b[36m==>\x1b[0m sync db count: 0".to_string(),
            "\x1b[31mfail\x1b[0m no sync databases registered".to_string(),
            "\x1b[33mwarn\x1b[0m local package database appears empty".to_string(),
        ]
    );
}

#[test]
fn an_update_ends() {
    assert_eq!(
        update(Source::Auto, None),
        Ok("\x1b[32m==>\x1b[0m Update complete".to_string())
    );
    assert_eq!(
        update(Source::Auto, Some("offline")),
        Err("sync database update failed: offline".to_string())
    );
    assert_eq!(
        update(Source::Aur, None),
        Err("AUR is not available through libalpm sync databases".to_string())
    );
    assert_eq!(open_failure("locked"), "failed to initialize libalpm: locked");
}
