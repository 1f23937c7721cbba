//! Starting a transaction on the package database, which only one program at a time may lock.

use crate::process::{Invocation, InvocationModel};
use crate::prompt::{answer, is_no_or_silence, silence_keeps_the_default, Question};
use crate::style::{paint, painted, Colour};
use crate::text::{
    contains, copy_strings, join, joined, lowered, occurrence_is_a_part, occurs_in, texts,
    to_ascii_lowercase,
};
use vstd::prelude::*;

verus! {

/// What has to be done next to start a transaction.
#[derive(Debug)]
pub enum StartStep {
    /// Try to start it.
    Try,
    /// See whether the lock file is there and which package managers are running.
    Inspect,
    /// Ask whether to remove a lock file that seems to be left over.
    ConfirmStale,
    /// Ask whether to stop the package managers that are running.
    ConfirmStop(Vec<String>),
    /// Remove the lock file.
    RemoveLock,
    /// Stop these package managers and remove the lock file.
    StopAndRemoveLock(Vec<String>),
    /// Try once more to start it.
    TryAgain,
    /// Nothing: the transaction is started.
    Started,
    /// Nothing: it cannot be started, with this message.
    Failed(String),
}

/// The step, with its texts.
#[verifier::ext_equal]
pub enum StartModel {
    Try,
    Inspect,
    ConfirmStale,
    ConfirmStop(Seq<Seq<char>>),
    RemoveLock,
    StopAndRemoveLock(Seq<Seq<char>>),
    TryAgain,
    Started,
    Failed(Seq<char>),
}

impl View for StartStep {
    type V = StartModel;

    open spec fn view(&self) -> StartModel {
        match self {
            StartStep::Try => StartModel::Try,
            StartStep::Inspect => StartModel::Inspect,
            StartStep::ConfirmStale => StartModel::ConfirmStale,
            StartStep::ConfirmStop(running) => StartModel::ConfirmStop(texts(running@)),
            StartStep::RemoveLock => StartModel::RemoveLock,
            StartStep::StopAndRemoveLock(running) => StartModel::StopAndRemoveLock(
                texts(running@),
            ),
            StartStep::TryAgain => StartModel::TryAgain,
            StartStep::Started => StartModel::Started,
            StartStep::Failed(message) => StartModel::Failed(message@),
        }
    }
}

/// What came of a step.
#[derive(Debug)]
pub enum StartEvent {
    /// The transaction was started.
    Started,
    /// The transaction was not started, for this reason.
    NotStarted(String),
    /// The lock file is there or not, and these package managers are running.
    Inspected { lock_exists: bool, running: Vec<String> },
    /// The user said yes or no.
    Answered(bool),
    /// The user could not be asked, for this reason.
    NotAnswered(String),
    /// The lock file is gone.
    Removed,
    /// The lock file could not be removed, for this reason.
    NotRemoved(String),
    /// The package managers were told to stop, and the lock file to go.
    Stopped,
}

/// Whether an event can come of a step.
pub open spec fn start_event_fits(step: StartModel, event: StartEvent) -> bool {
    match step {
        StartModel::Try => event is Started || event is NotStarted,
        StartModel::Inspect => event is Inspected,
        StartModel::ConfirmStale => event is Answered || event is NotAnswered,
        StartModel::ConfirmStop(_) => event is Answered || event is NotAnswered,
        StartModel::RemoveLock => event is Removed || event is NotRemoved,
        StartModel::StopAndRemoveLock(_) => event is Stopped,
        StartModel::TryAgain => event is Started || event is NotStarted,
        _ => false,
    }
}

/// Whether the reason for a failure to start is the lock.
pub open spec fn is_lock_conflict(reason: Seq<char>) -> bool {
    occurs_in(lowered(reason), "lock"@)
}

/// The message for a database that cannot be locked although nothing holds a lock.
pub open spec fn denied_message() -> Seq<char> {
    "unable to lock the package database (permission denied).\nTry running with sudo: sudo brew upgrade"@
}

/// The step that follows a step, by what came of it.
pub open spec fn following_start_step(step: StartModel, event: StartEvent) -> StartModel {
    match (step, event) {
        (StartModel::Try, StartEvent::Started) => StartModel::Started,
        (StartModel::Try, StartEvent::NotStarted(reason)) => if is_lock_conflict(reason@) {
            StartModel::Inspect
        } else {
            StartModel::Failed("failed to start transaction: "@ + reason@)
        },
        (StartModel::Inspect, StartEvent::Inspected { lock_exists, running }) => if running@.len()
            > 0 {
            StartModel::ConfirmStop(texts(running@))
        } else if lock_exists {
            StartModel::ConfirmStale
        } else {
            StartModel::Failed(denied_message())
        },
        (StartModel::ConfirmStale, StartEvent::Answered(yes)) => if yes {
            StartModel::RemoveLock
        } else {
            StartModel::Failed("aborted by user."@)
        },
        (StartModel::ConfirmStop(running), StartEvent::Answered(yes)) => if yes {
            StartModel::StopAndRemoveLock(running)
        } else {
            StartModel::Failed("aborted by user."@)
        },
        (StartModel::ConfirmStale, StartEvent::NotAnswered(reason)) => StartModel::Failed(reason@),
        (StartModel::ConfirmStop(_), StartEvent::NotAnswered(reason)) => StartModel::Failed(
            reason@,
        ),
        (StartModel::RemoveLock, StartEvent::Removed) => StartModel::TryAgain,
        (StartModel::RemoveLock, StartEvent::NotRemoved(reason)) => StartModel::Failed(
            "failed to remove lock file: "@ + reason@,
        ),
        (StartModel::StopAndRemoveLock(_), StartEvent::Stopped) => StartModel::TryAgain,
        (StartModel::TryAgain, StartEvent::Started) => StartModel::Started,
        (StartModel::TryAgain, StartEvent::NotStarted(reason)) => StartModel::Failed(
            "failed to start transaction after clearing lock: "@ + reason@,
        ),
        _ => step,
    }
}

/// Where starting a transaction begins.
pub fn first_start_step() -> (r: StartStep)
    ensures
        r@ == StartModel::Try,
{
    StartStep::Try
}

/// Decides what to do after a step. What cannot come of the step changes nothing.
pub fn start_transaction(step: StartStep, event: &StartEvent) -> (r: StartStep)
    ensures
        r@ == following_start_step(step@, *event),
{
    match (step, event) {
        (StartStep::Try, StartEvent::Started) => StartStep::Started,
        (StartStep::Try, StartEvent::NotStarted(reason)) => if contains(
            to_ascii_lowercase(reason.as_str()).as_str(),
            "lock",
        ) {
            StartStep::Inspect
        } else {
            StartStep::Failed(
                String::from_str("failed to start transaction: ").concat(reason.as_str()),
            )
        },
        (StartStep::Inspect, StartEvent::Inspected { lock_exists, running }) => {
            if running.is_empty() && !*lock_exists {
                StartStep::Failed(
                    String::from_str(
                        "unable to lock the package database (permission denied).\nTry running with sudo: sudo brew upgrade",
                    ),
                )
            } else if running.is_empty() {
                StartStep::ConfirmStale
            } else {
                StartStep::ConfirmStop(copy_strings(running))
            }
        },
        (StartStep::ConfirmStale, StartEvent::Answered(yes)) => if *yes {
            StartStep::RemoveLock
        } else {
            StartStep::Failed(String::from_str("aborted by user."))
        },
        (StartStep::ConfirmStop(running), StartEvent::Answered(yes)) => if *yes {
            StartStep::StopAndRemoveLock(running)
        } else {
            StartStep::Failed(String::from_str("aborted by user."))
        },
        (StartStep::ConfirmStale, StartEvent::NotAnswered(reason)) => StartStep::Failed(
            reason.clone(),
        ),
        (StartStep::ConfirmStop(_), StartEvent::NotAnswered(reason)) => StartStep::Failed(
            reason.clone(),
        ),
        (StartStep::RemoveLock, StartEvent::Removed) => StartStep::TryAgain,
        (StartStep::RemoveLock, StartEvent::NotRemoved(reason)) => StartStep::Failed(
            String::from_str("failed to remove lock file: ").concat(reason.as_str()),
        ),
        (StartStep::StopAndRemoveLock(_), StartEvent::Stopped) => StartStep::TryAgain,
        (StartStep::TryAgain, StartEvent::Started) => StartStep::Started,
        (StartStep::TryAgain, StartEvent::NotStarted(reason)) => StartStep::Failed(
            String::from_str("failed to start transaction after clearing lock: ").concat(
                reason.as_str(),
            ),
        ),
        (step, _) => step,
    }
}

/// What came of removing a lock file: one that was not there is gone as well. `failure` is the
/// reason for which it was not removed, and `missing` tells whether that is that there was none.
pub fn lock_removal(failure: Option<&str>, missing: bool) -> (r: StartEvent)
    ensures
        match failure {
            None => r is Removed,
            Some(reason) => if missing {
                r is Removed
            } else {
                r matches StartEvent::NotRemoved(told) && told@ == reason@
            },
        },
{
    match failure {
        None => StartEvent::Removed,
        Some(reason) => if missing {
            StartEvent::Removed
        } else {
            StartEvent::NotRemoved(reason.to_owned())
        },
    }
}

/// What silence means where the lock is in question: things are left as they are.
pub open spec fn lock_default() -> bool {
    false
}

/// The warnings before the question that a step asks.
pub open spec fn start_warnings(step: StartModel) -> Seq<Seq<char>> {
    match step {
        StartModel::ConfirmStale => seq![
            painted(Colour::Yellow, "warn:"@)
                + " The package database is locked but no package manager appears to be running."@,
            "The lock file may be stale: /var/lib/pacman/db.lck"@,
        ],
        StartModel::ConfirmStop(running) => seq![
            painted(Colour::Yellow, "warn:"@)
                + " The following package manager(s) are currently running: "@ + painted(
                Colour::Red,
                joined(running, ", "@),
            ),
            "Forcibly stopping them may leave the package database in an inconsistent state."@,
        ],
        _ => seq![],
    }
}

/// The question that a step asks.
pub open spec fn start_question(step: StartModel) -> Option<Seq<char>> {
    match step {
        StartModel::ConfirmStale => Some("Remove the stale lock file and continue?"@),
        StartModel::ConfirmStop(running) => Some(
            "Force-stop "@ + joined(running, ", "@) + " and remove the database lock?"@,
        ),
        _ => None,
    }
}

/// The question that a step asks, if it asks one. The default is to leave things as they are.
pub fn lock_question(step: &StartStep) -> (r: Option<Question>)
    ensures
        match r {
            Some(question) => start_question(step@) == Some(question.text@) && texts(
                question.warnings@,
            ) == start_warnings(step@) && question.default_yes == lock_default(),
            None => start_question(step@) is None,
        },
{
    match step {
        StartStep::ConfirmStale => {
            let warnings = vec![
                paint(Colour::Yellow, "warn:").concat(
                    " The package database is locked but no package manager appears to be running.",
                ),
                String::from_str("The lock file may be stale: /var/lib/pacman/db.lck"),
            ];
            assert(texts(warnings@) =~= start_warnings(step@));
            Some(
                Question {
                    warnings,
                    text: String::from_str("Remove the stale lock file and continue?"),
                    default_yes: false,
                },
            )
        },
        StartStep::ConfirmStop(running) => {
            let list = join(running, ", ");
            let warnings = vec![
                paint(Colour::Yellow, "warn:").concat(
                    " The following package manager(s) are currently running: ",
                ).concat(paint(Colour::Red, list.as_str()).as_str()),
                String::from_str(
                    "Forcibly stopping them may leave the package database in an inconsistent state.",
                ),
            ];
            assert(texts(warnings@) =~= start_warnings(step@));
            Some(
                Question {
                    warnings,
                    text: String::from_str("Force-stop ").concat(list.as_str()).concat(
                        " and remove the database lock?",
                    ),
                    default_yes: false,
                },
            )
        },
        _ => None,
    }
}

/// The package managers that may hold the lock.
pub open spec fn competing_managers() -> Seq<Seq<char>> {
    seq!["pacman"@, "paru"@, "yay"@]
}

/// The names of the package managers that may hold the lock.
pub fn competing_pkg_managers() -> (r: Vec<String>)
    ensures
        texts(r@) == competing_managers(),
{
    let r = vec![String::from_str("pacman"), String::from_str("paru"), String::from_str("yay")];
    assert(texts(r@) =~= competing_managers());
    r
}

/// The program that succeeds if a program of exactly that name is running.
pub fn running_command(name: &str) -> (r: Invocation)
    ensures
        r@ == (InvocationModel { program: "pgrep"@, args: seq!["-x"@, name@] }),
{
    let args = vec![String::from_str("-x"), name.to_owned()];
    assert(texts(args@) =~= seq!["-x"@, name@]);
    Invocation { program: String::from_str("pgrep"), args }
}

/// The names whose flag is set; a name without a flag counts as one whose flag is not.
pub open spec fn flagged(names: Seq<Seq<char>>, flags: Seq<bool>) -> Seq<Seq<char>>
    decreases names.len(),
{
    if names.len() == 0 {
        seq![]
    } else {
        let before = flagged(names.drop_last(), flags);
        if names.len() <= flags.len() && flags[names.len() - 1] {
            before.push(names.last())
        } else {
            before
        }
    }
}

/// The package managers that are running, by whether each was found.
pub fn find_running_pkg_managers(names: &Vec<String>, found: &Vec<bool>) -> (r: Vec<String>)
    ensures
        texts(r@) == flagged(texts(names@), found@),
{
    let ghost all = texts(names@);
    let mut r: Vec<String> = Vec::new();
    let mut i: usize = 0;
    assert(all.take(0) =~= Seq::<Seq<char>>::empty());
    assert(texts(r@) =~= Seq::<Seq<char>>::empty());
    while i < names.len()
        invariant
            i <= names@.len(),
            all == texts(names@),
            texts(r@) == flagged(all.take(i as int), found@),
        decreases names@.len() - i,
    {
        let ghost held = texts(r@);
        let is_running = i < found.len() && found[i];
        i += 1;
        assert(all.take(i as int).drop_last() =~= all.take(i - 1));
        if is_running {
            r.push(names[i - 1].clone());
            assert(texts(r@) =~= held.push(names@[i - 1]@));
        }
    }
    assert(all.take(i as int) =~= all);
    r
}

/// What is done to stop package managers.
#[derive(Debug)]
pub enum StopStep {
    /// Run this program, however it ends.
    Kill(Invocation),
    /// Wait for so many milliseconds.
    Wait(u64),
}

/// The step, with its texts.
#[verifier::ext_equal]
pub enum StopModel {
    Kill(InvocationModel),
    Wait(u64),
}

impl View for StopStep {
    type V = StopModel;

    open spec fn view(&self) -> StopModel {
        match self {
            StopStep::Kill(command) => StopModel::Kill(command@),
            StopStep::Wait(millis) => StopModel::Wait(*millis),
        }
    }
}

/// The texts that a list of such steps holds.
pub open spec fn stop_models(steps: Seq<StopStep>) -> Seq<StopModel> {
    Seq::new(steps.len(), |i: int| steps[i]@)
}

/// A signal to the programs of exactly these names, one after another.
pub open spec fn signals(signal: Seq<char>, names: Seq<Seq<char>>) -> Seq<StopModel> {
    Seq::new(
        names.len(),
        |i: int|
            StopModel::Kill(
                InvocationModel { program: "pkill"@, args: seq![signal, "-x"@, names[i]] },
            ),
    )
}

fn add_signals(steps: &mut Vec<StopStep>, signal: &str, names: &Vec<String>)
    ensures
        stop_models(final(steps)@) == stop_models(old(steps)@) + signals(signal@, texts(names@)),
{
    let ghost before = stop_models(steps@);
    let ghost all = signals(signal@, texts(names@));
    let mut i: usize = 0;
    assert(before + all.take(0) =~= before);
    while i < names.len()
        invariant
            i <= names@.len(),
            all == signals(signal@, texts(names@)),
            stop_models(steps@) == before + all.take(i as int),
        decreases names@.len() - i,
    {
        let ghost held = stop_models(steps@);
        let args = vec![signal.to_owned(), String::from_str("-x"), names[i].clone()];
        assert(texts(args@) =~= seq![signal@, "-x"@, names@[i as int]@]);
        steps.push(StopStep::Kill(Invocation { program: String::from_str("pkill"), args }));
        i += 1;
        assert(stop_models(steps@) =~= held.push(all[i - 1]));
        assert(stop_models(steps@) =~= before + all.take(i as int));
    }
    assert(all.take(i as int) =~= all);
}

/// How package managers are stopped: they are asked to end, given a moment, and then ended.
pub fn kill_pkg_managers(names: &Vec<String>) -> (r: Vec<StopStep>)
    ensures
        stop_models(r@) == signals("-TERM"@, texts(names@)) + seq![StopModel::Wait(800)]
            + signals("-KILL"@, texts(names@)),
{
    let mut steps: Vec<StopStep> = Vec::new();
    add_signals(&mut steps, "-TERM", names);
    let ghost asked = stop_models(steps@);
    assert(asked =~= signals("-TERM"@, texts(names@)));
    steps.push(StopStep::Wait(800));
    assert(stop_models(steps@) =~= asked + seq![StopModel::Wait(800)]);
    add_signals(&mut steps, "-KILL", names);
    steps
}

/// How many steps can still follow a step.
pub open spec fn start_steps_left(step: StartModel) -> nat {
    match step {
        StartModel::Try => 5,
        StartModel::Inspect => 4,
        StartModel::ConfirmStale => 3,
        StartModel::ConfirmStop(_) => 3,
        StartModel::RemoveLock => 2,
        StartModel::StopAndRemoveLock(_) => 2,
        StartModel::TryAgain => 1,
        _ => 0,
    }
}

/// Starting comes to an end: every step leaves fewer steps.
pub proof fn starting_ends(step: StartModel, event: StartEvent)
    requires
        start_event_fits(step, event),
    ensures
        start_steps_left(following_start_step(step, event)) < start_steps_left(step),
{
}

/// The lock file is not removed, and nothing is stopped, unless the user said yes to that question.
pub proof fn nothing_is_cleared_without_consent(step: StartModel, event: StartEvent)
    requires
        start_event_fits(step, event),
    ensures
        following_start_step(step, event) is RemoveLock ==> step is ConfirmStale && event
            == StartEvent::Answered(true),
        following_start_step(step, event) matches StartModel::StopAndRemoveLock(stopped) ==> step
            == StartModel::ConfirmStop(stopped) && event == StartEvent::Answered(true),
{
}

/// A lock file that a running package manager holds is not taken for a stale one.
pub proof fn held_lock_is_not_stale(event: StartEvent)
    requires
        start_event_fits(StartModel::Inspect, event),
        following_start_step(StartModel::Inspect, event) is ConfirmStale,
    ensures
        event matches StartEvent::Inspected { lock_exists, running } && lock_exists
            && running@.len() == 0,
{
}

/// A transaction counts as started only when it was.
pub proof fn started_means_started(step: StartModel, event: StartEvent)
    requires
        start_event_fits(step, event),
        following_start_step(step, event) is Started,
    ensures
        event is Started,
{
}

/// The step that is reached after these events, one after another.
pub open spec fn start_run(events: Seq<StartEvent>) -> StartModel
    decreases events.len(),
{
    if events.len() == 0 {
        StartModel::Try
    } else {
        following_start_step(start_run(events.drop_last()), events.last())
    }
}

/// Whether the user said yes, at this place, to a question about the lock.
pub open spec fn consented_at(events: Seq<StartEvent>, i: int) -> bool {
    &&& 0 <= i < events.len()
    &&& start_question(start_run(events.take(i))) is Some
    &&& events[i] == StartEvent::Answered(true)
}

/// Whether the lock is being cleared, or has been.
pub open spec fn is_clearing(step: StartModel) -> bool {
    step is RemoveLock || step is StopAndRemoveLock || step is TryAgain
}

/// However starting a transaction goes, the lock is cleared only after the user said yes to that.
pub proof fn cleared_lock_was_consented_to(events: Seq<StartEvent>)
    requires
        is_clearing(start_run(events)),
    ensures
        exists|i: int| #[trigger] consented_at(events, i),
    decreases events.len(),
{
    let before = events.drop_last();
    let step = start_run(before);
    if is_clearing(step) {
        cleared_lock_was_consented_to(before);
        let i = choose|i: int| #[trigger] consented_at(before, i);
        assert(events.take(i) =~= before.take(i));
        assert(consented_at(events, i));
    } else {
        assert(events.take(events.len() - 1) =~= before);
        assert(consented_at(events, events.len() - 1));
    }
}

/// Whether each event can come of the step at which it came.
pub open spec fn start_events_fit(events: Seq<StartEvent>) -> bool {
    forall|i: int|
        0 <= i < events.len() ==> start_event_fits(
            start_run(#[trigger] events.take(i)),
            events[i],
        )
}

/// Starting a transaction takes five steps at most.
pub proof fn starting_is_short(events: Seq<StartEvent>)
    requires
        start_events_fit(events),
    ensures
        events.len() + start_steps_left(start_run(events)) <= 5,
    decreases events.len(),
{
    if events.len() > 0 {
        let before = events.drop_last();
        let n = events.len() - 1;
        assert forall|i: int| 0 <= i < before.len() implies start_event_fits(
            start_run(#[trigger] before.take(i)),
            before[i],
        ) by {
            assert(before.take(i) =~= events.take(i));
        }
        starting_is_short(before);
        assert(events.take(n) =~= before);
        starting_ends(start_run(before), events[n]);
    }
}

/// A no, an empty line or the end of the input, where the lock is in question, ends the start: the
/// lock file is not removed, nothing is stopped, and the transaction is not tried again.
pub proof fn silence_leaves_the_lock_alone(step: StartModel, line: Option<Seq<char>>)
    requires
        start_question(step) is Some,
        is_no_or_silence(line),
    ensures
        answer(line, lock_default()) == Some(false),
        following_start_step(step, StartEvent::Answered(false)) == StartModel::Failed(
            "aborted by user."@,
        ),
{
    silence_keeps_the_default(line);
}

/// A failure is taken for a conflict over the lock exactly if its reason holds the word, in
/// whichever case.
pub proof fn lock_conflicts_speak_of_a_lock(reason: Seq<char>)
    ensures
        is_lock_conflict(reason) <==> exists|i: int, j: int|
            0 <= i <= j <= reason.len() && #[trigger] lowered(reason).subrange(i, j) == "lock"@,
{
    occurrence_is_a_part(lowered(reason), "lock"@);
    assert(lowered(reason).len() == reason.len());
}

/// The package managers that are running are those whose own flag is set, in their order.
pub proof fn flags_belong_to_their_names(
    names: Seq<Seq<char>>,
    name: Seq<char>,
    flags: Seq<bool>,
)
    ensures
        flagged(Seq::empty(), flags) == Seq::<Seq<char>>::empty(),
        names.len() < flags.len() && flags[names.len() as int] ==> flagged(names.push(name), flags)
            == flagged(names, flags).push(name),
        !(names.len() < flags.len() && flags[names.len() as int]) ==> flagged(
            names.push(name),
            flags,
        ) == flagged(names, flags),
{
    assert(names.push(name).drop_last() =~= names);
}

/// A signal goes to every program, each by its exact name, in their order.
pub proof fn every_program_gets_the_signal(
    signal: Seq<char>,
    names: Seq<Seq<char>>,
    i: int,
)
    requires
        0 <= i < names.len(),
    ensures
        signals(signal, names).len() == names.len(),
        signals(signal, names)[i] is Kill,
        signals(signal, names)[i]->Kill_0.program == "pkill"@,
        signals(signal, names)[i]->Kill_0.args == seq![signal, "-x"@, names[i]],
{
}

/// What follows a failure to start: only one that speaks of the lock leads on, to a look at the lock
/// and at who may hold it. All who are running are asked about, a lock that nobody holds is asked
/// about as a stale one, and without a lock it is the rights that are missing.
pub proof fn lock_is_looked_into(reason: String, lock_exists: bool, running: Vec<String>)
    ensures
        is_lock_conflict(reason@) ==> following_start_step(
            StartModel::Try,
            StartEvent::NotStarted(reason),
        ) is Inspect,
        !is_lock_conflict(reason@) ==> following_start_step(
            StartModel::Try,
            StartEvent::NotStarted(reason),
        ) == StartModel::Failed("failed to start transaction: "@ + reason@),
        ({
            let step = following_start_step(
                StartModel::Inspect,
                StartEvent::Inspected { lock_exists, running },
            );
            &&& running@.len() > 0 ==> step == StartModel::ConfirmStop(texts(running@))
            &&& running@.len() == 0 && lock_exists ==> step is ConfirmStale
            &&& running@.len() == 0 && !lock_exists ==> step == StartModel::Failed(
                "unable to lock the package database (permission denied).\nTry running with sudo: sudo brew upgrade"@,
            )
        }),
        following_start_step(StartModel::Try, StartEvent::Started) is Started,
        following_start_step(StartModel::TryAgain, StartEvent::Started) is Started,
        following_start_step(StartModel::TryAgain, StartEvent::NotStarted(reason))
            == StartModel::Failed("failed to start transaction after clearing lock: "@ + reason@),
{
}

/// What follows a question about the lock: yes clears it, and stops exactly those that were asked
/// about; no, and no answer, end it. Once it is cleared the transaction is tried again.
pub proof fn answer_about_the_lock_is_obeyed(running: Seq<Seq<char>>, reason: String)
    ensures
        following_start_step(StartModel::ConfirmStale, StartEvent::Answered(true)) is RemoveLock,
        following_start_step(StartModel::ConfirmStop(running), StartEvent::Answered(true))
            == StartModel::StopAndRemoveLock(running),
        following_start_step(StartModel::ConfirmStale, StartEvent::Answered(false))
            == StartModel::Failed("aborted by user."@),
        following_start_step(StartModel::ConfirmStop(running), StartEvent::Answered(false))
            == StartModel::Failed("aborted by user."@),
        following_start_step(StartModel::ConfirmStale, StartEvent::NotAnswered(reason))
            == StartModel::Failed(reason@),
        following_start_step(StartModel::ConfirmStop(running), StartEvent::NotAnswered(reason))
            == StartModel::Failed(reason@),
        following_start_step(StartModel::RemoveLock, StartEvent::Removed) is TryAgain,
        following_start_step(StartModel::RemoveLock, StartEvent::NotRemoved(reason))
            == StartModel::Failed("failed to remove lock file: "@ + reason@),
        following_start_step(StartModel::StopAndRemoveLock(running), StartEvent::Stopped)
            is TryAgain,
{
}

/// The question about running package managers names all of them, in the warning and in the
/// question itself. No other step asks than the two about the lock.
pub proof fn question_names_who_is_running(running: Seq<Seq<char>>, step: StartModel)
    ensures
        start_question(StartModel::ConfirmStop(running)) == Some(
            "Force-stop "@ + joined(running, ", "@) + " and remove the database lock?"@,
        ),
        start_warnings(StartModel::ConfirmStop(running)).len() == 2,
        start_warnings(StartModel::ConfirmStop(running))[0] == painted(Colour::Yellow, "warn:"@)
            + " The following package manager(s) are currently running: "@ + painted(
            Colour::Red,
            joined(running, ", "@),
        ),
        start_question(StartModel::ConfirmStale) == Some(
            "Remove the stale lock file and continue?"@,
        ),
        start_question(step) is Some <==> step is ConfirmStop || step is ConfirmStale,
        start_warnings(step).len() > 0 <==> start_question(step) is Some,
{
}

/// The texts of a step are those of the step.
pub proof fn start_step_texts_are_those_of_the_step(step: StartStep)
    ensures
        step is Try <==> step@ is Try,
        step is Inspect <==> step@ is Inspect,
        step is ConfirmStale <==> step@ is ConfirmStale,
        step is ConfirmStop <==> step@ is ConfirmStop,
        step is RemoveLock <==> step@ is RemoveLock,
        step is StopAndRemoveLock <==> step@ is StopAndRemoveLock,
        step is TryAgain <==> step@ is TryAgain,
        step is Started <==> step@ is Started,
        step is Failed <==> step@ is Failed,
        step is ConfirmStop ==> step@->ConfirmStop_0 == texts(step->ConfirmStop_0@),
        step is StopAndRemoveLock ==> step@->StopAndRemoveLock_0 == texts(
            step->StopAndRemoveLock_0@,
        ),
        step is Failed ==> step@->Failed_0 == step->Failed_0@,
{
}

/// The texts of steps that stop programs are those of the steps, each in its place.
pub proof fn stop_step_texts_are_those_of_the_steps(steps: Seq<StopStep>, i: int)
    requires
        0 <= i < steps.len(),
    ensures
        stop_models(steps).len() == steps.len(),
        steps[i] is Kill ==> stop_models(steps)[i] == StopModel::Kill(steps[i]->Kill_0@),
        steps[i] is Wait ==> stop_models(steps)[i] == StopModel::Wait(steps[i]->Wait_0),
{
}

/// Whoever may hold the lock is looked for: the package manager itself and the two helpers.
pub proof fn three_managers_are_looked_for(name: Seq<char>)
    ensures
        competing_managers().contains(name) <==> name == "pacman"@ || name == "paru"@ || name
            == "yay"@,
{
    assert(competing_managers()[0] == "pacman"@);
    assert(competing_managers()[1] == "paru"@);
    assert(competing_managers()[2] == "yay"@);
}

} // verus!
