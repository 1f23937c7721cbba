use archbrew::conf::{
    machine_arch, machine_command, parse_pacman_conf, register_sync_dbs, registered_count,
    registration_result, setting_of, ConfStop, Repository,
};

const CONF: &str = "\
# comment
[options]
HoldPkg = pacman
Server = https://ignored/$repo

[core]
Include = /etc/pacman.d/mirrorlist
[extra]
  Server  =  https://a/$repo/os/$arch
#Server = https://b/$repo
Server=https://c/$repo/$repo
[empty]
";

const MIRRORS: &str = "\
## Mirrors
#Server = https://off/$repo
  Server = https://m1/$repo/os/$arch
Include = /not/followed
Server = https://m2/$arch
";

fn show(repositories: &Vec<Repository>) -> String {
    let mut text = String::new();
    for r in repositories {
        text.push_str(&format!("{}={};", r.name, r.servers.join(",")));
    }
    text
}

#[test]
fn repositories_and_their_servers() {
    let files = vec![Some(MIRRORS.to_string())];
    let found = parse_pacman_conf(CONF, &files, "x86_64").unwrap();
    assert_eq!(
        show(&found),
        "core=https://m1/core/os/x86_64,https://m2/x86_64;\
         extra=https://a/extra/os/x86_64,https://c/extra/extra;empty=;"
    );
}

#[test]
fn included_files_are_asked_for() {
    match parse_pacman_conf(CONF, &vec![], "x86_64") {
        Err(ConfStop::Read(path)) => assert_eq!(path, "/etc/pacman.d/mirrorlist"),
        other => panic!("{other:?}"),
    }
}

#[test]
fn unreadable_included_files_are_passed_over() {
    let found = parse_pacman_conf(CONF, &vec![None], "x86_64").unwrap();
    assert_eq!(found[0].name, "core");
    assert!(found[0].servers.is_empty());
    assert_eq!(found.len(), 3);
}

#[test]
fn more_files_change_nothing() {
    let one = parse_pacman_conf(CONF, &vec![Some(MIRRORS.to_string())], "x86_64").unwrap();
    let two =
        parse_pacman_conf(CONF, &vec![Some(MIRRORS.to_string()), None], "x86_64").unwrap();
    assert_eq!(show(&one), show(&two));
}

#[test]
fn comments_change_nothing() {
    let with = "[core]\n# note\nServer = s\n";
    let without = "[core]\nServer = s\n";
    assert_eq!(
        show(&parse_pacman_conf(with, &vec![], "a").unwrap()),
        show(&parse_pacman_conf(without, &vec![], "a").unwrap())
    );
}

#[test]
fn a_file_without_repositories_is_of_no_use() {
    for conf in vec!["", "[options]\nServer = x\n", "Server = x\nInclude = y\n", "[core\n"] {
        match parse_pacman_conf(conf, &vec![], "x86_64") {
            Err(ConfStop::Failed(message)) => {
                assert_eq!(message, "no repositories found in /etc/pacman.conf")
            }
            other => panic!("{other:?}"),
        }
    }
}

#[test]
fn options_end_a_repository() {
    let found = parse_pacman_conf("[a]\nServer=1\n[options]\nServer=2\n[]\n", &vec![], "").unwrap();
    assert_eq!(show(&found), "a=1;=;");
}

#[test]
fn settings_of_lines() {
    assert_eq!(setting_of("Server = x ", "Server"), Some("x".to_string()));
    assert_eq!(setting_of("Server  =x", "Server"), Some("x".to_string()));
    assert_eq!(setting_of("Servers = x", "Server"), None);
    assert_eq!(setting_of("Server x", "Server"), None);
    assert_eq!(setting_of("# Server = x", "Server"), None);
}

#[test]
fn the_file_itself_may_be_missing() {
    match register_sync_dbs(&Err("gone".to_string()), &vec![], "x86_64") {
        Err(ConfStop::Failed(message)) => {
            assert_eq!(message, "failed to read /etc/pacman.conf: gone")
        }
        other => panic!("{other:?}"),
    }
    let found = register_sync_dbs(&Ok("[core]\n".to_string()), &vec![], "x86_64").unwrap();
    assert_eq!(show(&found), "core=;");
}

#[test]
fn something_must_be_registered() {
    assert_eq!(registration_result(1), Ok(()));
    assert_eq!(
        registration_result(0),
        Err("no sync databases could be registered".to_string())
    );
}

#[test]
fn repositories_that_fail_are_passed_over() {
    assert_eq!(registered_count(&vec![]), 0);
    assert_eq!(registered_count(&vec![false, false]), 0);
    assert_eq!(registered_count(&vec![false, true, true]), 2);
}

#[test]
fn the_machine_is_asked() {
    let command = machine_command();
    assert_eq!((command.program.as_str(), command.args), ("uname", vec!["-m".to_string()]));
    assert_eq!(machine_arch(Some("aarch64\n")), "aarch64");
    assert_eq!(machine_arch(Some("")), "");
    assert_eq!(machine_arch(None), "x86_64");
}
