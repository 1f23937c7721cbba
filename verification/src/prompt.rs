//! Questions to the user and how answers are read.

use crate::number::{decimal, parse_reads_decimal, parse_usize, parsed, to_decimal};
use crate::paths::{join_path, joined_path, parts_are_joined_by_one_separator};
use crate::process::{Invocation, InvocationModel, Outcome};
use crate::style::{note, notice, painted, Colour};
use crate::text::{
    join, joined, lowered, same, texts, to_ascii_lowercase, trim, trimmed,
    trimming_leaves_the_core, white_space,
};
use crate::units::{unit_models, AurBuildUnit, UnitModel};
use vstd::prelude::*;

verus! {

/// An answer as it is compared: without white space around it and in lower case.
pub open spec fn folded(line: Seq<char>) -> Seq<char> {
    lowered(trimmed(line))
}

/// The answer to a question for yes or no. The end of the input and an empty answer leave it at the
/// default; an answer that is neither yes nor no is none.
pub open spec fn answer(line: Option<Seq<char>>, default_yes: bool) -> Option<bool> {
    match line {
        None => Some(default_yes),
        Some(text) => {
            let typed = folded(text);
            if typed == ""@ {
                Some(default_yes)
            } else if typed == "y"@ || typed == "yes"@ {
                Some(true)
            } else if typed == "n"@ || typed == "no"@ {
                Some(false)
            } else {
                None
            }
        },
    }
}

/// Reads the answer to a question for yes or no. `line` is what the user typed, or `None` at the
/// end of the input. The question has to be asked again if there is no answer.
pub fn confirm_action(line: Option<&str>, default_yes: bool) -> (r: Option<bool>)
    ensures
        r == answer(
            match line {
                Some(text) => Some(text@),
                None => None,
            },
            default_yes,
        ),
{
    match line {
        None => Some(default_yes),
        Some(text) => {
            let typed = to_ascii_lowercase(trim(text));
            if same(typed.as_str(), "") {
                Some(default_yes)
            } else if same(typed.as_str(), "y") || same(typed.as_str(), "yes") {
                Some(true)
            } else if same(typed.as_str(), "n") || same(typed.as_str(), "no") {
                Some(false)
            } else {
                None
            }
        },
    }
}

/// A question for yes or no, with the default in capitals.
pub open spec fn confirm_question(question: Seq<char>, default_yes: bool) -> Seq<char> {
    notice(
        Colour::Cyan,
        question + " "@ + (if default_yes {
            "[Y/n]"@
        } else {
            "[y/N]"@
        }) + " "@,
    )
}

/// Writes a question for yes or no.
pub fn confirm_prompt(question: &str, default_yes: bool) -> (r: String)
    ensures
        r@ == confirm_question(question@, default_yes),
{
    let suffix = if default_yes {
        "[Y/n]"
    } else {
        "[y/N]"
    };
    note(
        Colour::Cyan,
        question.to_owned().concat(" ").concat(suffix).concat(" ").as_str(),
    )
}

/// A question for yes or no, and the warnings that come before it.
#[derive(Debug)]
pub struct Question {
    pub warnings: Vec<String>,
    pub text: String,
    /// What the end of the input and an empty answer mean.
    pub default_yes: bool,
}

/// Reads the answer to a question. `line` is what the user typed, or `None` at the end of the
/// input. The question has to be asked again if there is no answer.
pub fn read_answer(question: &Question, line: Option<&str>) -> (r: Option<bool>)
    ensures
        r == answer(
            match line {
                Some(text) => Some(text@),
                None => None,
            },
            question.default_yes,
        ),
{
    confirm_action(line, question.default_yes)
}

/// What the user has to agree to before it is done.
#[derive(Clone, Copy, Debug, PartialEq, Eq, Structural)]
pub enum Task {
    Install,
    Upgrade,
    Remove,
}

/// The question whether to do a task.
pub open spec fn task_text(task: Task) -> Seq<char> {
    match task {
        Task::Install => "Proceed with installation?"@,
        Task::Upgrade => "Proceed with upgrade?"@,
        Task::Remove => "Proceed with removal?"@,
    }
}

/// The question whether to do a task. The default is to do it, since the user asked for it.
pub fn task_question(task: Task) -> (r: Question)
    ensures
        r.warnings@.len() == 0,
        r.text@ == task_text(task),
        r.default_yes,
{
    let text = match task {
        Task::Install => "Proceed with installation?",
        Task::Upgrade => "Proceed with upgrade?",
        Task::Remove => "Proceed with removal?",
    };
    Question { warnings: Vec::new(), text: text.to_owned(), default_yes: true }
}

/// What is said of an answer that is neither yes nor no.
pub fn confirm_reminder() -> (r: String)
    ensures
        r@ == notice(Colour::Yellow, "Please answer 'y' or 'n'."@),
{
    note(Colour::Yellow, "Please answer 'y' or 'n'.")
}

/// Which of the packages to build the user wants to look at.
#[derive(Clone, Copy, Debug, PartialEq, Eq, Structural)]
pub enum Choice {
    /// All of them.
    All,
    /// None of them.
    Nothing,
    /// The one at this place, counted from zero.
    One(usize),
    /// One that does not exist: the number is out of range.
    OutOfRange,
    /// Not said: the answer cannot be read.
    Unclear,
}

/// The choice that an answer makes among `count` packages.
pub open spec fn choice(line: Seq<char>, count: nat) -> Choice {
    let typed = folded(line);
    if typed == "a"@ || typed == "all"@ {
        Choice::All
    } else if typed == "n"@ || typed == "none"@ || typed == ""@ {
        Choice::Nothing
    } else {
        match parsed(typed) {
            Some(number) => if 1 <= number <= count {
                Choice::One((number - 1) as usize)
            } else {
                Choice::OutOfRange
            },
            None => Choice::Unclear,
        }
    }
}

/// Reads which of `count` packages the user wants to look at.
pub fn prompt_pkgbuild_review(line: &str, count: usize) -> (r: Choice)
    ensures
        r == choice(line@, count as nat),
{
    let typed = to_ascii_lowercase(trim(line));
    if same(typed.as_str(), "a") || same(typed.as_str(), "all") {
        return Choice::All;
    }
    if same(typed.as_str(), "n") || same(typed.as_str(), "none") || same(typed.as_str(), "") {
        return Choice::Nothing;
    }
    match parse_usize(typed.as_str()) {
        Some(number) => if 1 <= number && number <= count {
            Choice::One(number - 1)
        } else {
            Choice::OutOfRange
        },
        None => Choice::Unclear,
    }
}

/// The numerals from one to `count`.
pub open spec fn numerals(count: nat) -> Seq<Seq<char>> {
    Seq::new(count, |i: int| decimal((i + 1) as nat))
}

/// The question which of `count` packages to look at.
pub open spec fn review_question(count: nat) -> Seq<char> {
    notice(Colour::Cyan, "Choice [A/"@ + joined(numerals(count), "/"@) + "/N]: "@)
}

/// Writes the question which of `count` packages to look at.
pub fn review_prompt(count: usize) -> (r: String)
    ensures
        r@ == review_question(count as nat),
{
    let mut numbers: Vec<String> = Vec::new();
    let mut i: usize = 0;
    assert(texts(numbers@) =~= numerals(0));
    while i < count
        invariant
            i <= count,
            texts(numbers@) == numerals(i as nat),
        decreases count - i,
    {
        let ghost held = texts(numbers@);
        i += 1;
        numbers.push(to_decimal(i as u128));
        assert(texts(numbers@) =~= held.push(decimal(i as nat)));
        assert(texts(numbers@) =~= numerals(i as nat));
    }
    note(
        Colour::Cyan,
        String::from_str("Choice [A/").concat(join(&numbers, "/").as_str()).concat(
            "/N]: ",
        ).as_str(),
    )
}

/// What is said of an answer that makes no choice.
pub fn review_reminder(choice: Choice) -> (r: Option<String>)
    ensures
        match choice {
            Choice::OutOfRange => r matches Some(line) && line@ == notice(
                Colour::Yellow,
                "Package number out of range."@,
            ),
            Choice::Unclear => r matches Some(line) && line@ == notice(
                Colour::Yellow,
                "Enter A, a package number, or N."@,
            ),
            _ => r is None,
        },
{
    match choice {
        Choice::OutOfRange => Some(note(Colour::Yellow, "Package number out of range.")),
        Choice::Unclear => Some(note(Colour::Yellow, "Enter A, a package number, or N.")),
        _ => None,
    }
}

/// The lines that show one package of the queue: its number, name and version, and below them what
/// it is, if that is known.
pub open spec fn queue_entry(number: nat, unit: UnitModel) -> Seq<Seq<char>> {
    let first = "  ["@ + decimal(number) + "] "@ + unit.info.name + " "@ + unit.info.version;
    match unit.info.description {
        Some(description) => seq![first, "      "@ + description],
        None => seq![first],
    }
}

/// The lines that show the packages of the queue.
pub open spec fn queue_entries(units: Seq<UnitModel>) -> Seq<Seq<char>>
    decreases units.len(),
{
    if units.len() == 0 {
        seq![]
    } else {
        queue_entries(units.drop_last()) + queue_entry(units.len(), units.last())
    }
}

/// The lines that announce the packages to build, before the question which to look at. Where
/// there is none, nothing is announced.
pub open spec fn queue_report(units: Seq<UnitModel>) -> Seq<Seq<char>> {
    if units.len() == 0 {
        seq![]
    } else {
        seq![notice(Colour::Cyan, "AUR build queue:"@)] + queue_entries(units) + seq![
            notice(Colour::Cyan, "Review PKGBUILD files? [A]ll, [X] Number, [N]one"@),
        ]
    }
}

/// Announces the packages to build.
pub fn queue_lines(units: &Vec<AurBuildUnit>) -> (r: Vec<String>)
    ensures
        texts(r@) == queue_report(unit_models(units@)),
{
    let ghost all = unit_models(units@);
    let ghost title = seq![notice(Colour::Cyan, "AUR build queue:"@)];
    let mut lines: Vec<String> = Vec::new();
    if units.is_empty() {
        assert(texts(lines@) =~= queue_report(all));
        return lines;
    }
    lines.push(note(Colour::Cyan, "AUR build queue:"));
    let mut i: usize = 0;
    assert(all.take(0) =~= Seq::<UnitModel>::empty());
    assert(texts(lines@) =~= title + queue_entries(all.take(0)));
    while i < units.len()
        invariant
            i <= units@.len(),
            all == unit_models(units@),
            texts(lines@) == title + queue_entries(all.take(i as int)),
        decreases units@.len() - i,
    {
        let ghost held = texts(lines@);
        let unit = &units[i];
        i += 1;
        let first = String::from_str("  [").concat(to_decimal(i as u128).as_str()).concat(
            "] ",
        ).concat(unit.info.name.as_str()).concat(" ").concat(unit.info.version.as_str());
        let ghost entry = queue_entry(i as nat, unit@);
        lines.push(first);
        if let Some(description) = &unit.info.description {
            let second = String::from_str("      ").concat(description.as_str());
            lines.push(second);
            assert(texts(lines@) =~= held + seq![first@, second@]);
        } else {
            assert(texts(lines@) =~= held + seq![first@]);
        }
        assert(texts(lines@) == held + entry);
        assert(all.take(i as int).drop_last() =~= all.take(i - 1));
        assert(all.take(i as int).last() == unit@);
        assert(texts(lines@) =~= title + queue_entries(all.take(i as int)));
    }
    assert(all.take(i as int) =~= all);
    let ghost held = texts(lines@);
    let last = note(Colour::Cyan, "Review PKGBUILD files? [A]ll, [X] Number, [N]one");
    lines.push(last);
    assert(texts(lines@) =~= held + seq![last@]);
    lines
}

/// The places of the packages that the user wants to look at, if a choice was made among `count`.
pub open spec fn chosen_places(choice: Choice, count: nat) -> Option<Seq<usize>> {
    match choice {
        Choice::All => Some(Seq::new(count, |i: int| i as usize)),
        Choice::Nothing => Some(seq![]),
        Choice::One(place) => Some(seq![place]),
        Choice::OutOfRange => None,
        Choice::Unclear => None,
    }
}

/// Lists the places of the packages that the user wants to look at. Without a choice the question
/// has to be put again.
pub fn places_to_review(choice: Choice, count: usize) -> (r: Option<Vec<usize>>)
    ensures
        r is Some <==> chosen_places(choice, count as nat) is Some,
        r is Some ==> Some(r->0@) == chosen_places(choice, count as nat),
{
    let mut places: Vec<usize> = Vec::new();
    match choice {
        Choice::All => {
            let mut i: usize = 0;
            while i < count
                invariant
                    i <= count,
                    places@ == Seq::new(i as nat, |k: int| k as usize),
                decreases count - i,
            {
                places.push(i);
                i += 1;
                assert(places@ =~= Seq::new(i as nat, |k: int| k as usize));
            }
        },
        Choice::Nothing => {
            assert(places@ =~= seq![]);
        },
        Choice::One(place) => {
            places.push(place);
            assert(places@ =~= seq![place]);
        },
        Choice::OutOfRange => {
            return None;
        },
        Choice::Unclear => {
            return None;
        },
    }
    Some(places)
}

/// The file that tells how a package is built.
pub open spec fn pkgbuild(unit: UnitModel) -> Seq<char> {
    joined_path(unit.build_dir, "PKGBUILD"@)
}

/// The file that tells how a package is built.
pub fn pkgbuild_path(unit: &AurBuildUnit) -> (r: String)
    ensures
        r@ == pkgbuild(unit@),
{
    join_path(unit.build_dir.as_str(), "PKGBUILD")
}

/// The program that shows how a package is built.
pub fn review_command(unit: &AurBuildUnit) -> (r: Invocation)
    ensures
        r@ == (InvocationModel { program: "less"@, args: seq![pkgbuild(unit@)] }),
{
    let args = vec![pkgbuild_path(unit)];
    assert(texts(args@) =~= seq![pkgbuild(unit@)]);
    Invocation { program: String::from_str("less"), args }
}

/// The line that announces a look at how a package is built.
pub fn review_line(unit: &AurBuildUnit) -> (r: String)
    ensures
        r@ == notice(
            Colour::Cyan,
            "Reviewing PKGBUILD for "@ + unit@.info.name + " (press 'q' to continue)"@,
        ),
{
    let message = String::from_str("Reviewing PKGBUILD for ").concat(
        unit.info.name.as_str(),
    ).concat(" (press 'q' to continue)");
    note(Colour::Cyan, message.as_str())
}

/// Judges how `less`, run on the file that tells how a package is built, ended.
pub fn open_pkgbuild_in_less(unit: &AurBuildUnit, outcome: &Outcome) -> (r: Result<(), String>)
    ensures
        match *outcome {
            Outcome::NotStarted(reason) => r matches Err(message) && message@
                == "failed to launch less: "@ + reason@,
            Outcome::Ended { success, .. } => if success {
                r is Ok
            } else {
                r matches Err(message) && message@ == "failed to review PKGBUILD: "@ + pkgbuild(
                    unit@,
                )
            },
        },
{
    match outcome {
        Outcome::NotStarted(reason) => Err(
            String::from_str("failed to launch less: ").concat(reason.as_str()),
        ),
        Outcome::Ended { success, .. } => if *success {
            Ok(())
        } else {
            Err(
                String::from_str("failed to review PKGBUILD: ").concat(
                    pkgbuild_path(unit).as_str(),
                ),
            )
        },
    }
}

proof fn lemma_numeral_is_folded(text: Seq<char>)
    requires
        text.len() > 0,
        forall|i: int| 0 <= i < text.len() ==> crate::number::is_digit(#[trigger] text[i]),
    ensures
        folded(text) == text,
{
    assert(!white_space(text[0]));
    assert(crate::number::is_digit(text[0]));
    assert(crate::number::is_digit(text.last()));
    assert(trimmed(text) == text);
    assert(lowered(text) =~= text) by {
        assert forall|i: int| 0 <= i < text.len() implies lowered(text)[i] == text[i] by {
            assert(crate::number::is_digit(text[i]));
        }
    }
}

/// Every number that is offered chooses its package.
pub proof fn offered_number_chooses_its_package(i: int, count: nat)
    requires
        0 <= i < count <= usize::MAX,
    ensures
        choice(numerals(count)[i], count) == Choice::One(i as usize),
{
    let text = decimal((i + 1) as nat);
    crate::number::decimal_is_numeral((i + 1) as nat);
    lemma_numeral_is_folded(text);
    parse_reads_decimal((i + 1) as nat);
    assert(crate::number::is_digit(text[0]));
    reveal_strlit("a");
    reveal_strlit("all");
    reveal_strlit("n");
    reveal_strlit("none");
    reveal_strlit("");
}

/// Every choice that is made is among the packages that there are.
pub proof fn choice_is_among_the_packages(line: Seq<char>, count: nat)
    requires
        count <= usize::MAX,
    ensures
        chosen_places(choice(line, count), count) matches Some(places) ==> forall|i: int|
            0 <= i < places.len() ==> (#[trigger] places[i]) < count,
{
}

/// Whether an answer says no, or nothing at all.
pub open spec fn is_no_or_silence(line: Option<Seq<char>>) -> bool {
    match line {
        None => true,
        Some(text) => folded(text) == ""@ || folded(text) == "n"@ || folded(text) == "no"@,
    }
}

/// Where the default is no, silence is a no.
pub proof fn silence_keeps_the_default(line: Option<Seq<char>>)
    requires
        is_no_or_silence(line),
    ensures
        answer(line, false) == Some(false),
{
    reveal_strlit("");
    reveal_strlit("n");
    reveal_strlit("no");
    reveal_strlit("y");
    reveal_strlit("yes");
    assert("n"@[0] != "y"@[0] && "no"@[0] != "y"@[0] && "no"@[0] != "yes"@[0]);
    assert("n"@.len() != "yes"@.len());
}

proof fn lemma_folded_core(front: Seq<char>, typed: Seq<char>, back: Seq<char>)
    requires
        forall|i: int| 0 <= i < front.len() ==> white_space(#[trigger] front[i]),
        forall|i: int| 0 <= i < back.len() ==> white_space(#[trigger] back[i]),
        typed.len() > 0 ==> !white_space(typed[0]) && !white_space(typed.last()),
    ensures
        folded(front + typed + back) == lowered(typed),
        typed.len() == 0 <==> folded(front + typed + back) == ""@,
{
    reveal_strlit("");
    trimming_leaves_the_core(front, typed, back);
    assert(lowered(typed).len() == typed.len());
    if typed.len() == 0 {
        assert(lowered(typed) =~= ""@);
    }
}

/// An answer is read without the white space around it and in either case: the two words and their
/// first letters are yes and no, nothing else is an answer, and only a blank line or the end of the
/// input leaves it at the default.
pub proof fn answer_is_yes_or_no(
    front: Seq<char>,
    typed: Seq<char>,
    back: Seq<char>,
    default_yes: bool,
)
    requires
        forall|i: int| 0 <= i < front.len() ==> white_space(#[trigger] front[i]),
        forall|i: int| 0 <= i < back.len() ==> white_space(#[trigger] back[i]),
        typed.len() > 0 ==> !white_space(typed[0]) && !white_space(typed.last()),
    ensures
        ({
            let given = answer(Some(front + typed + back), default_yes);
            let yes = lowered(typed) == "y"@ || lowered(typed) == "yes"@;
            let no = lowered(typed) == "n"@ || lowered(typed) == "no"@;
            &&& yes ==> given == Some(true)
            &&& no ==> given == Some(false)
            &&& typed.len() == 0 ==> given == Some(default_yes)
            &&& typed.len() > 0 && !yes && !no ==> given is None
            &&& answer(None, default_yes) == Some(default_yes)
        }),
{
    reveal_strlit("");
    reveal_strlit("y");
    reveal_strlit("yes");
    reveal_strlit("n");
    reveal_strlit("no");
    lemma_folded_core(front, typed, back);
    assert("y"@.len() == 1 && "n"@.len() == 1 && "yes"@.len() == 3 && "no"@.len() == 2);
    assert("n"@[0] != "y"@[0]);
}

/// A question shows its default in capitals, so that the two defaults are told apart.
pub proof fn question_shows_its_default(question: Seq<char>)
    ensures
        confirm_question(question, true) == painted(Colour::Cyan, "==>"@) + " "@ + (question + " "@
            + "[Y/n]"@ + " "@),
        confirm_question(question, false) == painted(Colour::Cyan, "==>"@) + " "@ + (question + " "@
            + "[y/N]"@ + " "@),
        task_text(Task::Install) == "Proceed with installation?"@,
        task_text(Task::Upgrade) == "Proceed with upgrade?"@,
        task_text(Task::Remove) == "Proceed with removal?"@,
{
}

/// A choice is read without the white space around it and in either case: all, none, which is also
/// what a blank line means, or the number of a package, counted from one. Any other number is out of
/// range, and anything else makes no choice.
pub proof fn choice_is_all_none_or_a_number(
    front: Seq<char>,
    typed: Seq<char>,
    back: Seq<char>,
    number: nat,
    count: nat,
)
    requires
        forall|i: int| 0 <= i < front.len() ==> white_space(#[trigger] front[i]),
        forall|i: int| 0 <= i < back.len() ==> white_space(#[trigger] back[i]),
        typed.len() > 0 ==> !white_space(typed[0]) && !white_space(typed.last()),
        number <= usize::MAX,
        count <= usize::MAX,
    ensures
        ({
            let made = choice(front + typed + back, count);
            let all = lowered(typed) == "a"@ || lowered(typed) == "all"@;
            let none = typed.len() == 0 || lowered(typed) == "n"@ || lowered(typed) == "none"@;
            &&& all ==> made is All
            &&& none ==> made is Nothing
            &&& !all && !none && parsed(lowered(typed)) is None ==> made is Unclear
        }),
        ({
            let made = choice(front + decimal(number) + back, count);
            &&& 1 <= number <= count ==> made == Choice::One((number - 1) as usize)
            &&& !(1 <= number <= count) ==> made is OutOfRange
        }),
{
    reveal_strlit("");
    reveal_strlit("a");
    reveal_strlit("all");
    reveal_strlit("n");
    reveal_strlit("none");
    lemma_folded_core(front, typed, back);
    assert("a"@.len() == 1 && "n"@.len() == 1 && "all"@.len() == 3 && "none"@.len() == 4);
    assert("n"@[0] != "a"@[0]);
    let text = decimal(number);
    crate::number::decimal_is_numeral(number);
    assert(crate::number::is_digit(text[0]));
    assert(crate::number::is_digit(text.last()));
    assert(!white_space(text[0]) && !white_space(text.last()));
    lemma_folded_core(front, text, back);
    lemma_numeral_is_folded(text);
    trimming_leaves_the_core(Seq::empty(), text, Seq::empty());
    assert(Seq::empty() + text + Seq::empty() =~= text);
    assert(lowered(text) == text);
    parse_reads_decimal(number);
}

/// The numbers that are offered are those from one to the number of packages.
pub proof fn numbers_are_offered_from_one(count: nat, i: int)
    requires
        0 <= i < count,
    ensures
        numerals(count).len() == count,
        numerals(count)[i] == decimal((i + 1) as nat),
        review_question(count) == painted(Colour::Cyan, "==>"@) + " "@ + ("Choice [A/"@ + joined(
            numerals(count),
            "/"@,
        ) + "/N]: "@),
{
}

/// One more package in the queue is shown behind the others, under the next number, by its name, its
/// version and its description, if it has one.
pub proof fn queue_shows_every_package(units: Seq<UnitModel>, unit: UnitModel)
    ensures
        queue_entries(Seq::empty()) == Seq::<Seq<char>>::empty(),
        queue_entries(units).is_prefix_of(queue_entries(units.push(unit))),
        ({
            let before = queue_entries(units).len() as int;
            let lines = queue_entries(units.push(unit));
            &&& lines[before] == "  ["@ + decimal((units.len() + 1) as nat) + "] "@ + unit.info.name
                + " "@ + unit.info.version
            &&& unit.info.description is Some ==> lines.len() == before + 2 && lines[before + 1]
                == "      "@ + unit.info.description->0
            &&& unit.info.description is None ==> lines.len() == before + 1
        }),
{
    assert(units.push(unit).drop_last() =~= units);
    let whole = queue_entries(units.push(unit));
    assert(queue_entries(units) =~= whole.subrange(0, queue_entries(units).len() as int));
}

/// The queue is announced between its title and the question, and not at all if it is empty.
pub proof fn queue_stands_between_its_title_and_the_question(units: Seq<UnitModel>)
    ensures
        units.len() == 0 ==> queue_report(units).len() == 0,
        units.len() > 0 ==> {
            let lines = queue_report(units);
            let n = lines.len();
            &&& n == queue_entries(units).len() + 2
            &&& lines[0] == painted(Colour::Cyan, "==>"@) + " "@ + "AUR build queue:"@
            &&& lines.subrange(1, n - 1) == queue_entries(units)
            &&& lines[n - 1] == painted(Colour::Cyan, "==>"@) + " "@
                + "Review PKGBUILD files? [A]ll, [X] Number, [N]one"@
        },
{
    if units.len() > 0 {
        let lines = queue_report(units);
        assert(lines.subrange(1, lines.len() - 1) =~= queue_entries(units));
    }
}

/// The packages to look at are all of them, each once and in order, or none, or the one that was
/// chosen; where no choice was made there are no such packages.
pub proof fn chosen_packages_are_looked_at(count: nat, place: usize)
    requires
        count <= usize::MAX,
    ensures
        chosen_places(Choice::All, count) is Some,
        (chosen_places(Choice::All, count)->0).len() == count,
        forall|i: int|
            0 <= i < count ==> #[trigger] (chosen_places(Choice::All, count)->0)[i] == i,
        chosen_places(Choice::Nothing, count) == Some(Seq::<usize>::empty()),
        chosen_places(Choice::One(place), count) == Some(seq![place]),
        chosen_places(Choice::OutOfRange, count) is None,
        chosen_places(Choice::Unclear, count) is None,
{
}

/// What is looked at is the file of that name among the sources of the package.
pub proof fn pkgbuild_is_among_the_sources(unit: UnitModel)
    requires
        unit.build_dir.len() > 0,
        unit.build_dir.last() != '/',
    ensures
        pkgbuild(unit) == unit.build_dir + "/"@ + "PKGBUILD"@,
{
    reveal_strlit("PKGBUILD");
    parts_are_joined_by_one_separator(unit.build_dir, "PKGBUILD"@);
}

} // verus!
