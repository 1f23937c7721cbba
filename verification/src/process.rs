//! Programs that are run, and what is made of how they ended.

use crate::command::{command_needs_root, needs_root, Commands};
use crate::style::{note, notice, Colour};
use crate::text::{same, texts, trim, trimmed};
use vstd::prelude::*;

verus! {

/// A program to run, with its arguments.
#[derive(Debug)]
pub struct Invocation {
    pub program: String,
    pub args: Vec<String>,
}

/// The texts that such a call holds.
#[verifier::ext_equal]
pub struct InvocationModel {
    pub program: Seq<char>,
    pub args: Seq<Seq<char>>,
}

impl View for Invocation {
    type V = InvocationModel;

    open spec fn view(&self) -> InvocationModel {
        InvocationModel { program: self.program@, args: texts(self.args@) }
    }
}

/// How running a program ended.
#[derive(Debug)]
pub enum Outcome {
    /// It could not be started, for this reason.
    NotStarted(String),
    /// It ended.
    Ended {
        /// Whether it reported success.
        success: bool,
        /// The status that it ended with, in words.
        status: String,
        /// What it printed.
        stdout: String,
        /// What it printed to the error stream.
        stderr: String,
    },
}

impl Outcome {
    /// Whether the program ran and reported success.
    pub open spec fn succeeded(self) -> bool {
        self matches Outcome::Ended { success, .. } && success
    }
}

/// The program that prints the number of the effective user.
pub fn user_id_command() -> (r: Invocation)
    ensures
        r@ == (InvocationModel { program: "id"@, args: seq!["-u"@] }),
{
    let args = vec![String::from_str("-u")];
    assert(texts(args@) =~= seq!["-u"@]);
    Invocation { program: String::from_str("id"), args }
}

/// Whether the effective user is root, by what `id -u` printed. A number that could not be had is
/// not root's.
pub fn is_root_id(printed: Option<&str>) -> (r: bool)
    ensures
        r == (printed matches Some(uid) && trimmed(uid@) == "0"@),
{
    match printed {
        Some(uid) => same(trim(uid), "0"),
        None => false,
    }
}

/// A program, run as root.
pub open spec fn as_root(program: Seq<char>, args: Seq<Seq<char>>) -> InvocationModel {
    InvocationModel { program: "sudo"@, args: seq![program] + args }
}

/// Has a program run as root.
pub fn sudo_command(program: &str, args: &Vec<String>) -> (r: Invocation)
    ensures
        r@ == as_root(program@, texts(args@)),
{
    let mut all: Vec<String> = Vec::new();
    all.push(program.to_owned());
    let mut i: usize = 0;
    assert(texts(all@) =~= seq![program@] + texts(args@).take(0));
    while i < args.len()
        invariant
            i <= args@.len(),
            texts(all@) == seq![program@] + texts(args@).take(i as int),
        decreases args@.len() - i,
    {
        let ghost held = texts(all@);
        all.push(args[i].clone());
        i += 1;
        assert(texts(all@) =~= held.push(args@[i - 1]@));
        assert(texts(all@) =~= seq![program@] + texts(args@).take(i as int));
    }
    assert(texts(args@).take(i as int) =~= texts(args@));
    Invocation { program: String::from_str("sudo"), args: all }
}

/// The message for a program run as root that did not end well.
pub open spec fn fakeroot_message(program: Seq<char>, outcome: Outcome) -> Seq<char> {
    match outcome {
        Outcome::NotStarted(reason) => "failed to enter fakeroot environment: "@ + reason@,
        Outcome::Ended { status, .. } => program + " exited with status "@ + status@,
    }
}

/// Judges how a program that was run as root ended.
pub fn run_with_fakeroot(program: &str, outcome: &Outcome) -> (r: Result<(), String>)
    ensures
        match r {
            Ok(()) => outcome.succeeded(),
            Err(message) => !outcome.succeeded() && message@ == fakeroot_message(
                program@,
                *outcome,
            ),
        },
{
    match outcome {
        Outcome::NotStarted(reason) => Err(
            String::from_str("failed to enter fakeroot environment: ").concat(reason.as_str()),
        ),
        Outcome::Ended { success, status, .. } => if *success {
            Ok(())
        } else {
            Err(program.to_owned().concat(" exited with status ").concat(status.as_str()))
        },
    }
}

/// How the program goes on where a command may need root's rights.
#[derive(Debug)]
pub enum Entry {
    /// As it is.
    Stay,
    /// The path of its own executable has to be found.
    FindExecutable,
    /// It runs itself again, as root.
    Run(Invocation),
    /// It ends, and reports success or not; the message tells why it could not go on.
    Leave { success: bool, message: Option<String> },
}

/// Decides how the program goes on where `command` may need root's rights. The path of its own
/// executable and how running it again ended are missing until they are known.
pub fn maybe_enter_fakeroot(
    command: &Commands,
    root: bool,
    raw_args: &Vec<String>,
    executable: &Option<Result<String, String>>,
    outcome: &Option<Outcome>,
) -> (r: Entry)
    ensures
        if !needs_root(*command) || root {
            r is Stay
        } else {
            match (*executable, *outcome) {
                (None, _) => r is FindExecutable,
                (Some(Err(reason)), _) => match r {
                    Entry::Leave { success, message: Some(message) } => !success && message@
                        == "failed to resolve executable path: "@ + reason@,
                    _ => false,
                },
                (Some(Ok(path)), None) => match r {
                    Entry::Run(again) => again@ == as_root(path@, texts(raw_args@)),
                    _ => false,
                },
                (Some(Ok(_)), Some(Outcome::NotStarted(reason))) => match r {
                    Entry::Leave { success, message: Some(message) } => !success && message@
                        == "failed to enter fakeroot environment: "@ + reason@,
                    _ => false,
                },
                (Some(Ok(_)), Some(Outcome::Ended { success, .. })) => r == (Entry::Leave {
                    success,
                    message: None,
                }),
            }
        },
{
    if !command_needs_root(command) || root {
        return Entry::Stay;
    }
    match executable {
        None => Entry::FindExecutable,
        Some(Err(reason)) => Entry::Leave {
            success: false,
            message: Some(
                String::from_str("failed to resolve executable path: ").concat(reason.as_str()),
            ),
        },
        Some(Ok(path)) => match outcome {
            None => Entry::Run(sudo_command(path.as_str(), raw_args)),
            Some(Outcome::NotStarted(reason)) => Entry::Leave {
                success: false,
                message: Some(
                    String::from_str("failed to enter fakeroot environment: ").concat(
                        reason.as_str(),
                    ),
                ),
            },
            Some(Outcome::Ended { success, .. }) => Entry::Leave {
                success: *success,
                message: None,
            },
        },
    }
}

/// The line that tells that something is run as root.
pub fn fakeroot_line() -> (r: String)
    ensures
        r@ == notice(Colour::Green, "Entering fakeroot environment"@),
{
    note(Colour::Green, "Entering fakeroot environment")
}

/// The program that makes a request for an address.
pub fn request_command(url: &str) -> (r: Invocation)
    ensures
        r@ == (InvocationModel { program: "curl"@, args: seq!["-fsSL"@, url@] }),
{
    let args = vec![String::from_str("-fsSL"), url.to_owned()];
    assert(texts(args@) =~= seq!["-fsSL"@, url@]);
    Invocation { program: String::from_str("curl"), args }
}

/// What a request for an address brought.
#[derive(Debug)]
pub enum Response {
    /// The program that makes the request could not be run, for this reason.
    NotStarted(String),
    /// The request failed; this was printed about it.
    Refused(String),
    /// The body is no text, for this reason.
    NotText(String),
    /// The body.
    Body(String),
}

/// Judges the response to a request.
pub fn http_get(url: &str, response: Response) -> (r: Result<String, String>)
    ensures
        match response {
            Response::NotStarted(reason) => r matches Err(message) && message@
                == "failed to execute curl: "@ + reason@,
            Response::Refused(printed) => r matches Err(message) && message@
                == "HTTP request failed for '"@ + url@ + "': "@ + printed@,
            Response::NotText(reason) => r matches Err(message) && message@ == "response for '"@
                + url@ + "' is not UTF-8: "@ + reason@,
            Response::Body(body) => r == Ok::<String, String>(body),
        },
{
    match response {
        Response::NotStarted(reason) => Err(
            String::from_str("failed to execute curl: ").concat(reason.as_str()),
        ),
        Response::Refused(printed) => Err(
            String::from_str("HTTP request failed for '").concat(url).concat("': ").concat(
                printed.as_str(),
            ),
        ),
        Response::NotText(reason) => Err(
            String::from_str("response for '").concat(url).concat("' is not UTF-8: ").concat(
                reason.as_str(),
            ),
        ),
        Response::Body(body) => Ok(body),
    }
}

/// The user for whom packages are built: the one who called `sudo`, or else the current one.
pub fn current_build_user(sudo_user: Option<String>, user: Option<String>) -> (r: Result<
    String,
    String,
>)
    ensures
        match (sudo_user, user) {
            (Some(name), _) => r == Ok::<String, String>(name),
            (None, Some(name)) => r == Ok::<String, String>(name),
            (None, None) => r matches Err(message) && message@
                == "unable to determine build user"@,
        },
{
    match sudo_user {
        Some(name) => Ok(name),
        None => match user {
            Some(name) => Ok(name),
            None => Err(String::from_str("unable to determine build user")),
        },
    }
}

/// Running a program as root keeps the program and every argument, in their order.
pub proof fn root_gets_every_argument(program: Seq<char>, args: Seq<Seq<char>>)
    ensures
        as_root(program, args).program == "sudo"@,
        as_root(program, args).args.len() == args.len() + 1,
        as_root(program, args).args[0] == program,
        forall|i: int|
            0 <= i < args.len() ==> #[trigger] as_root(program, args).args[1 + i]
                == #[trigger] args[i],
{
}

/// A program that was run as root and failed is told by its status, and one that could not be
/// started by the reason.
pub proof fn failure_under_root_is_told(program: Seq<char>, outcome: Outcome)
    ensures
        outcome is NotStarted ==> fakeroot_message(program, outcome)
            == "failed to enter fakeroot environment: "@ + outcome->NotStarted_0@,
        outcome is Ended ==> fakeroot_message(program, outcome) == program
            + " exited with status "@ + outcome->status@,
        outcome.succeeded() <==> outcome is Ended && outcome->success,
{
}

/// The texts of a program to run are those of its fields.
pub proof fn invocation_texts_are_its_fields(command: Invocation)
    ensures
        command@.program == command.program@,
        command@.args == texts(command.args@),
{
}

} // verus!
