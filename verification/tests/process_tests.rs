use archbrew::command::{Commands, Source};
use archbrew::process::{
    current_build_user, fakeroot_line, http_get, is_root_id, maybe_enter_fakeroot,
    request_command, run_with_fakeroot, sudo_command, user_id_command, Entry, Outcome, Response,
};

fn strings(words: &[&str]) -> Vec<String> {
    words.iter().map(|w| w.to_string()).collect()
}

fn ended(success: bool) -> Outcome {
    Outcome::Ended {
        success,
        status: "exit status: 1".to_string(),
        stdout: String::new(),
        stderr: String::new(),
    }
}

#[test]
fn root_has_number_zero() {
    assert!(is_root_id(Some("0\n")));
    assert!(!is_root_id(Some("1000\n")));
    assert!(!is_root_id(Some("00")));
    assert!(!is_root_id(Some("")));
    assert!(!is_root_id(None));
}

#[test]
fn programs_run_as_root() {
    let command = sudo_command("pacman", &strings(&["-U", "x"]));
    assert_eq!(command.program, "sudo");
    assert_eq!(command.args, strings(&["pacman", "-U", "x"]));
    assert_eq!(fakeroot_line(), "\x1b[32m==>\x1b[0m Entering fakeroot environment");
    assert_eq!(run_with_fakeroot("pacman", &ended(true)), Ok(()));
    assert_eq!(
        run_with_fakeroot("pacman", &ended(false)),
        Err("pacman exited with status exit status: 1".to_string())
    );
    assert_eq!(
        run_with_fakeroot("pacman", &Outcome::NotStarted("no sudo".to_string())),
        Err("failed to enter fakeroot environment: no sudo".to_string())
    );
}

#[test]
fn commands_enter_the_root_environment() {
    let update = Commands::Update { source: Source::Auto };
    let args = strings(&["update"]);
    let exe: Option<Result<String, String>> = Some(Ok("/usr/bin/brew".to_string()));
    assert!(matches!(maybe_enter_fakeroot(&Commands::Doctor, false, &args, &None, &None), Entry::Stay));
    assert!(matches!(maybe_enter_fakeroot(&update, true, &args, &None, &None), Entry::Stay));
    assert!(matches!(
        maybe_enter_fakeroot(&update, false, &args, &None, &None),
        Entry::FindExecutable
    ));
    match maybe_enter_fakeroot(&update, false, &args, &exe, &None) {
        Entry::Run(command) => {
            assert_eq!(command.program, "sudo");
            assert_eq!(command.args, strings(&["/usr/bin/brew", "update"]));
        }
        other => panic!("{other:?}"),
    }
    assert!(matches!(
        maybe_enter_fakeroot(&update, false, &args, &exe, &Some(ended(true))),
        Entry::Leave { success: true, message: None }
    ));
    assert!(matches!(
        maybe_enter_fakeroot(&update, false, &args, &exe, &Some(ended(false))),
        Entry::Leave { success: false, message: None }
    ));
    let not_started = Some(Outcome::NotStarted("no sudo".to_string()));
    match maybe_enter_fakeroot(&update, false, &args, &exe, &not_started) {
        Entry::Leave { success: false, message: Some(message) } => {
            assert_eq!(message, "failed to enter fakeroot environment: no sudo")
        }
        other => panic!("{other:?}"),
    }
    match maybe_enter_fakeroot(&update, false, &args, &Some(Err("gone".to_string())), &None) {
        Entry::Leave { success: false, message: Some(message) } => {
            assert_eq!(message, "failed to resolve executable path: gone")
        }
        other => panic!("{other:?}"),
    }
}

#[test]
fn responses_are_judged() {
    assert_eq!(http_get("u", Response::Body("{}".to_string())), Ok("{}".to_string()));
    assert_eq!(
        http_get("u", Response::NotStarted("e".to_string())),
        Err("failed to execute curl: e".to_string())
    );
    assert_eq!(
        http_get("u", Response::Refused("404".to_string())),
        Err("HTTP request failed for 'u': 404".to_string())
    );
    assert_eq!(
        http_get("u", Response::NotText("bad".to_string())),
        Err("response for 'u' is not UTF-8: bad".to_string())
    );
}

#[test]
fn the_caller_of_sudo_builds() {
    let ann = Some("ann".to_string());
    let root = Some("root".to_string());
    assert_eq!(current_build_user(ann, root), Ok("ann".to_string()));
    assert_eq!(current_build_user(None, Some("bob".to_string())), Ok("bob".to_string()));
    assert_eq!(
        current_build_user(None, None),
        Err("unable to determine build user".to_string())
    );
}

#[test]
fn programs_that_ask() {
    let id = user_id_command();
    assert_eq!((id.program.as_str(), id.args), ("id", strings(&["-u"])));
    let request = request_command("https://x/y");
    assert_eq!(
        (request.program.as_str(), request.args),
        ("curl", strings(&["-fsSL", "https://x/y"]))
    );
}
