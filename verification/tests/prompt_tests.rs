use archbrew::aur::AurPackageInfo;
use archbrew::process::Outcome;
use archbrew::prompt::{
    confirm_action, confirm_prompt, confirm_reminder, open_pkgbuild_in_less, pkgbuild_path,
    places_to_review, prompt_pkgbuild_review, queue_lines, read_answer, review_command, review_line,
    review_prompt, review_reminder, task_question, Choice, Question, Task,
};
use archbrew::units::AurBuildUnit;

fn unit(name: &str, description: Option<&str>) -> AurBuildUnit {
    AurBuildUnit {
        info: AurPackageInfo {
            name: name.to_string(),
            version: "2-1".to_string(),
            description: description.map(|d| d.to_string()),
            package_base: name.to_string(),
            depends: vec![],
            makedepends: vec![],
            checkdepends: vec![],
        },
        build_dir: format!("/tmp/{name}"),
    }
}

#[test]
fn answers_to_yes_or_no() {
    for default in vec![true, false] {
        assert_eq!(confirm_action(None, default), Some(default));
        assert_eq!(confirm_action(Some("\n"), default), Some(default));
        assert_eq!(confirm_action(Some("  \t\n"), default), Some(default));
        assert_eq!(confirm_action(Some("y\n"), default), Some(true));
        assert_eq!(confirm_action(Some(" YES \n"), default), Some(true));
        assert_eq!(confirm_action(Some("n\n"), default), Some(false));
        assert_eq!(confirm_action(Some("No\n"), default), Some(false));
        assert_eq!(confirm_action(Some("maybe\n"), default), None);
        assert_eq!(confirm_action(Some("y n\n"), default), None);
    }
}

#[test]
fn questions_for_yes_or_no() {
    assert_eq!(confirm_prompt("Go?", true), "\x1b[36m==>\x1b[0m Go? [Y/n] ");
    assert_eq!(confirm_prompt("Go?", false), "\x1b[36m==>\x1b[0m Go? [y/N] ");
    assert_eq!(confirm_reminder(), "\x1b[33m==>\x1b[0m Please answer 'y' or 'n'.");
}

#[test]
fn choices_of_packages() {
    assert_eq!(prompt_pkgbuild_review("a\n", 3), Choice::All);
    assert_eq!(prompt_pkgbuild_review(" ALL \n", 3), Choice::All);
    assert_eq!(prompt_pkgbuild_review("n\n", 3), Choice::Nothing);
    assert_eq!(prompt_pkgbuild_review("None", 3), Choice::Nothing);
    assert_eq!(prompt_pkgbuild_review("\n", 3), Choice::Nothing);
    assert_eq!(prompt_pkgbuild_review("", 3), Choice::Nothing);
    assert_eq!(prompt_pkgbuild_review("1\n", 3), Choice::One(0));
    assert_eq!(prompt_pkgbuild_review(" 3 ", 3), Choice::One(2));
    assert_eq!(prompt_pkgbuild_review("+2", 3), Choice::One(1));
    assert_eq!(prompt_pkgbuild_review("0", 3), Choice::OutOfRange);
    assert_eq!(prompt_pkgbuild_review("4", 3), Choice::OutOfRange);
    assert_eq!(prompt_pkgbuild_review("-1", 3), Choice::Unclear);
    assert_eq!(prompt_pkgbuild_review("x", 3), Choice::Unclear);
    assert_eq!(prompt_pkgbuild_review("99999999999999999999999", 3), Choice::Unclear);
}

#[test]
fn offered_numbers_choose_their_packages() {
    for count in 1..12usize {
        for i in 0..count {
            assert_eq!(prompt_pkgbuild_review(&(i + 1).to_string(), count), Choice::One(i));
        }
    }
}

#[test]
fn places_that_are_chosen() {
    assert_eq!(places_to_review(Choice::All, 3), Some(vec![0, 1, 2]));
    assert_eq!(places_to_review(Choice::Nothing, 3), Some(vec![]));
    assert_eq!(places_to_review(Choice::One(1), 3), Some(vec![1]));
    assert_eq!(places_to_review(Choice::OutOfRange, 3), None);
    assert_eq!(places_to_review(Choice::Unclear, 3), None);
}

#[test]
fn the_question_which_packages() {
    assert_eq!(review_prompt(3), "\x1b[36m==>\x1b[0m Choice [A/1/2/3/N]: ");
    assert_eq!(
        review_reminder(Choice::OutOfRange),
        Some("\x1b[33m==>\x1b[0m Package number out of range.".to_string())
    );
    assert_eq!(
        review_reminder(Choice::Unclear),
        Some("\x1b[33m==>\x1b[0m Enter A, a package number, or N.".to_string())
    );
    assert_eq!(review_reminder(Choice::All), None);
}

#[test]
fn the_queue_is_shown() {
    assert!(queue_lines(&vec![]).is_empty());
    assert_eq!(
        queue_lines(&vec![unit("a", Some("A tool")), unit("b", None)]),
        vec![
            "\x1b[36m==>\x1b[0m AUR build queue:".to_string(),
            "  [1] a 2-1".to_string(),
            "      A tool".to_string(),
            "  [2] b 2-1".to_string(),
            "\x1b[36m==>\x1b[0m Review PKGBUILD files? [A]ll, [X] Number, [N]one".to_string(),
        ]
    );
}

#[test]
fn a_package_is_reviewed() {
    let a = unit("a", None);
    assert_eq!(pkgbuild_path(&a), "/tmp/a/PKGBUILD");
    let command = review_command(&a);
    assert_eq!(command.program, "less");
    assert_eq!(command.args, vec!["/tmp/a/PKGBUILD".to_string()]);
    assert_eq!(
        review_line(&a),
        "\x1b[36m==>\x1b[0m Reviewing PKGBUILD for a (press 'q' to continue)"
    );
    let end = |success: bool| Outcome::Ended {
        success,
        status: String::new(),
        stdout: String::new(),
        stderr: String::new(),
    };
    assert_eq!(open_pkgbuild_in_less(&a, &end(true)), Ok(()));
    assert_eq!(
        open_pkgbuild_in_less(&a, &end(false)),
        Err("failed to review PKGBUILD: /tmp/a/PKGBUILD".to_string())
    );
    assert_eq!(
        open_pkgbuild_in_less(&a, &Outcome::NotStarted("gone".to_string())),
        Err("failed to launch less: gone".to_string())
    );
}

#[test]
fn tasks_are_agreed_to_by_default() {
    for (task, text) in vec![
        (Task::Install, "Proceed with installation?"),
        (Task::Upgrade, "Proceed with upgrade?"),
        (Task::Remove, "Proceed with removal?"),
    ] {
        let question = task_question(task);
        assert_eq!(question.text, text);
        assert!(question.warnings.is_empty());
        assert_eq!(read_answer(&question, None), Some(true));
        assert_eq!(read_answer(&question, Some("\n")), Some(true));
        assert_eq!(read_answer(&question, Some("n\n")), Some(false));
        assert_eq!(read_answer(&question, Some("what\n")), None);
    }
}

#[test]
fn silence_keeps_a_default_of_no() {
    let question =
        Question { warnings: vec![], text: "Really?".to_string(), default_yes: false };
    assert_eq!(read_answer(&question, None), Some(false));
    assert_eq!(read_answer(&question, Some("\n")), Some(false));
    assert_eq!(read_answer(&question, Some("yes\n")), Some(true));
}
