use archbrew::command::{
    accept_version_alias, command_needs_root, repo_matches_source, Commands, Source,
};
use archbrew::request::{
    info_request, list_request, search_needs_repositories, search_request, uninstall_request,
    update_request, upgrade_request,
};
use archbrew::style::{error_line, note, paint, Colour};

fn strings(words: &[&str]) -> Vec<String> {
    words.iter().map(|w| w.to_string()).collect()
}

#[test]
fn sources_have_names() {
    assert_eq!(Source::Arch.as_str(), "arch");
    assert_eq!(Source::Aur.as_str(), "aur");
    assert_eq!(Source::Auto.as_str(), "auto");
}

#[test]
fn only_the_aur_has_no_repositories() {
    assert!(repo_matches_source("core", Source::Arch));
    assert!(repo_matches_source("core", Source::Auto));
    assert!(!repo_matches_source("core", Source::Aur));
}

#[test]
fn commands_that_need_root() {
    let source = Source::Auto;
    assert!(command_needs_root(&Commands::Update { source }));
    assert!(command_needs_root(&Commands::Upgrade { source }));
    assert!(command_needs_root(&Commands::Uninstall { packages: vec![], source }));
    assert!(!command_needs_root(&Commands::Install { packages: vec![], local: None, source }));
    assert!(!command_needs_root(&Commands::Search { query: "x".to_string(), source }));
    assert!(!command_needs_root(&Commands::Info { package: "x".to_string(), source }));
    assert!(!command_needs_root(&Commands::List { source }));
    assert!(!command_needs_root(&Commands::Doctor));
    assert!(!command_needs_root(&Commands::Clean));
}

#[test]
fn lower_case_v_asks_for_the_version() {
    assert_eq!(
        accept_version_alias(&strings(&["brew", "-v", "-vv", "v", "-V"])),
        strings(&["brew", "-V", "-vv", "v", "-V"])
    );
}

#[test]
fn colours_and_marks() {
    assert_eq!(paint(Colour::Green, "x"), "\x1b[32mx\x1b[0m");
    assert_eq!(paint(Colour::Cyan, "x"), "\x1b[36mx\x1b[0m");
    assert_eq!(paint(Colour::Yellow, "x"), "\x1b[33mx\x1b[0m");
    assert_eq!(paint(Colour::Red, "x"), "\x1b[31mx\x1b[0m");
    assert_eq!(note(Colour::Green, "done"), "\x1b[32m==>\x1b[0m done");
    assert_eq!(error_line("no"), "\x1b[31merror:\x1b[0m no");
}

#[test]
fn requests_are_announced() {
    assert_eq!(
        search_request("vim", Source::Auto).unwrap(),
        "\x1b[32m==>\x1b[0m Searching for \x1b[33mvim\x1b[0m"
    );
    assert_eq!(
        info_request("Vim", Source::Arch).unwrap(),
        "\x1b[32m==>\x1b[0m Showing info for \x1b[33mVim\x1b[0m"
    );
    assert_eq!(
        list_request(Source::Auto).unwrap(),
        "\x1b[32m==>\x1b[0m Listing installed packages"
    );
    assert_eq!(
        update_request(Source::Arch).unwrap(),
        "\x1b[32m==>\x1b[0m Updating sync databases (arch)"
    );
    assert_eq!(upgrade_request(Source::Auto).unwrap(), "\x1b[32m==>\x1b[0m Upgrading packages");
    assert_eq!(
        uninstall_request(&strings(&["vim"]), Source::Auto).unwrap(),
        "\x1b[32m==>\x1b[0m Removing packages"
    );
}

#[test]
fn the_aur_can_be_searched() {
    assert!(!search_needs_repositories(Source::Aur));
    assert!(search_needs_repositories(Source::Arch));
    assert!(search_needs_repositories(Source::Auto));
    assert_eq!(
        search_request("vim", Source::Aur).unwrap(),
        "\x1b[32m==>\x1b[0m Searching for \x1b[33mvim\x1b[0m"
    );
}

#[test]
fn other_requests_to_the_aur_are_refused() {
    assert_eq!(
        info_request("vim", Source::Aur).unwrap_err(),
        "AUR info is not available through libalpm sync databases"
    );
    assert_eq!(
        list_request(Source::Aur).unwrap_err(),
        "AUR listing is not available through libalpm local database"
    );
    assert_eq!(
        update_request(Source::Aur).unwrap_err(),
        "AUR is not available through libalpm sync databases"
    );
    assert_eq!(
        upgrade_request(Source::Aur).unwrap_err(),
        "AUR is not available through libalpm sync databases"
    );
    assert_eq!(
        uninstall_request(&strings(&["vim"]), Source::Aur).unwrap_err(),
        "AUR uninstall is not available through libalpm local database"
    );
    assert_eq!(
        uninstall_request(&vec![], Source::Aur).unwrap_err(),
        "no package names provided"
    );
}
