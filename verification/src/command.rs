//! Command lines of the build stages and the verdict on a finished process.
//!
//! Every stage is run the same way: the command line is announced, the
//! process runs to its end, and exit code zero alone counts as success.
//! Anything else is a [`Failure`] that says which step failed, with which
//! command line and how the process ended.

use vstd::prelude::*;
use vstd::string::*;
use crate::text::{join_with_spaces, join_words, signed_decimal, strings_view, to_signed_decimal};

verus! {

/// A process to start: a program, its arguments in order and the directory
/// to run it in.
#[derive(Clone, Debug, PartialEq, Eq)]
pub struct Invocation {
    pub program: String,
    pub args: Vec<String>,
    pub dir: String,
}

/// Mathematical value of an [`Invocation`].
pub struct InvocationView {
    pub program: Seq<char>,
    pub args: Seq<Seq<char>>,
    pub dir: Seq<char>,
}

impl View for Invocation {
    type V = InvocationView;

    open spec fn view(&self) -> InvocationView {
        InvocationView { program: self.program@, args: strings_view(self.args@), dir: self.dir@ }
    }
}

/// The command line as shown to the operator: the program and its
/// arguments, separated by single spaces.
pub open spec fn command_line_of(c: InvocationView) -> Seq<char> {
    join_words(seq![c.program] + c.args)
}

/// The line that announces a command before it is started.
pub open spec fn announcement_of(c: InvocationView) -> Seq<char> {
    "running '"@ + command_line_of(c) + "'"@
}

impl Invocation {
    /// The command line as shown to the operator.
    pub fn command_line(&self) -> (line: String)
        ensures
            line@ == command_line_of(self@),
    {
        join_with_spaces(self.program.as_str(), &self.args)
    }

    /// The line to report before the command is started.
    pub fn announcement(&self) -> (line: String)
        ensures
            line@ == announcement_of(self@),
    {
        let mut line = String::from_str("running '");
        line.append(self.command_line().as_str());
        line.append("'");
        line
    }
}

/// One stage of the build: what to run, and how to call the step when it
/// fails.
#[derive(Clone, Debug, PartialEq, Eq)]
pub struct Step {
    pub desc: String,
    pub command: Invocation,
}

/// Mathematical value of a [`Step`].
pub struct StepView {
    pub desc: Seq<char>,
    pub command: InvocationView,
}

impl View for Step {
    type V = StepView;

    open spec fn view(&self) -> StepView {
        StepView { desc: self.desc@, command: self.command@ }
    }
}

/// How an attempt to run a command ended.
#[derive(Clone, Copy, Debug, PartialEq, Eq)]
pub enum ProcessOutcome {
    /// The process could not be started.
    NotStarted,
    /// The process ran and exited with this code.
    Exited(i32),
    /// The process ran and ended without an exit code.
    Killed,
}

/// Why a step failed. Every failure is final: nothing is retried.
#[derive(Clone, Debug, PartialEq, Eq)]
pub enum Failure {
    /// The program could not be started.
    ProcessLaunchFailure { desc: String, command: String },
    /// The program ran and did not exit with code zero. `status` is the
    /// exit code, where the process had one.
    ProcessExitFailure { desc: String, command: String, status: Option<i32> },
}

/// Mathematical value of a [`Failure`].
pub enum FailureView {
    ProcessLaunchFailure { desc: Seq<char>, command: Seq<char> },
    ProcessExitFailure { desc: Seq<char>, command: Seq<char>, status: Option<i32> },
}

impl View for Failure {
    type V = FailureView;

    open spec fn view(&self) -> FailureView {
        match self {
            Failure::ProcessLaunchFailure { desc, command } => FailureView::ProcessLaunchFailure {
                desc: desc@,
                command: command@,
            },
            Failure::ProcessExitFailure { desc, command, status } => {
                FailureView::ProcessExitFailure { desc: desc@, command: command@, status: *status }
            },
        }
    }
}

/// How the end of a process is written in a failure message.
pub open spec fn status_text(status: Option<i32>) -> Seq<char> {
    match status {
        Some(code) => signed_decimal(code as int),
        None => "none"@,
    }
}

/// The message of a failure: the step, the command line and how the
/// process ended.
pub open spec fn message_of(f: FailureView) -> Seq<char> {
    match f {
        FailureView::ProcessLaunchFailure { desc, command } => "\n\nError: "@ + desc
            + "\n  Command: "@ + command + "\n  The command could not be started\n\n"@,
        FailureView::ProcessExitFailure { desc, command, status } => "\n\nError: "@ + desc
            + "\n  Command: "@ + command + "\n  Exit status: "@ + status_text(status) + "\n\n"@,
    }
}

impl Failure {
    /// The message to show for this failure.
    pub fn message(&self) -> (text: String)
        ensures
            text@ == message_of(self@),
    {
        let mut text = String::from_str("\n\nError: ");
        match self {
            Failure::ProcessLaunchFailure { desc, command } => {
                text.append(desc.as_str());
                text.append("\n  Command: ");
                text.append(command.as_str());
                text.append("\n  The command could not be started\n\n");
            },
            Failure::ProcessExitFailure { desc, command, status } => {
                text.append(desc.as_str());
                text.append("\n  Command: ");
                text.append(command.as_str());
                text.append("\n  Exit status: ");
                match status {
                    Some(code) => {
                        text.append(to_signed_decimal(*code).as_str());
                    },
                    None => {
                        text.append("none");
                    },
                }
                text.append("\n\n");
            },
        }
        text
    }
}

/// The verdict on a finished step, as a value: success for exit code zero,
/// else the failure that names the step, the command line and the status.
pub open spec fn verdict(c: InvocationView, desc: Seq<char>, outcome: ProcessOutcome) -> Result<
    (),
    FailureView,
> {
    match outcome {
        ProcessOutcome::NotStarted => Err(
            FailureView::ProcessLaunchFailure { desc, command: command_line_of(c) },
        ),
        ProcessOutcome::Exited(code) => if code == 0 {
            Ok(())
        } else {
            Err(
                FailureView::ProcessExitFailure {
                    desc,
                    command: command_line_of(c),
                    status: Some(code),
                },
            )
        },
        ProcessOutcome::Killed => Err(
            FailureView::ProcessExitFailure { desc, command: command_line_of(c), status: None },
        ),
    }
}

/// Judges how the step `desc`, run as `command`, ended. Only exit code zero
/// is a success; every other outcome is a failure that carries the step's
/// description, the command line and the exit status.
pub fn run_command(command: &Invocation, desc: &str, outcome: ProcessOutcome) -> (r: Result<
    (),
    Failure,
>)
    ensures
        r.is_ok() == (outcome == ProcessOutcome::Exited(0)),
        match r {
            Ok(_) => verdict(command@, desc@, outcome).is_ok(),
            Err(f) => verdict(command@, desc@, outcome) == Err::<(), FailureView>(f@),
        },
{
    match outcome {
        ProcessOutcome::NotStarted => Err(
            Failure::ProcessLaunchFailure {
                desc: String::from_str(desc),
                command: command.command_line(),
            },
        ),
        ProcessOutcome::Exited(code) => {
            if code == 0 {
                Ok(())
            } else {
                Err(
                    Failure::ProcessExitFailure {
                        desc: String::from_str(desc),
                        command: command.command_line(),
                        status: Some(code),
                    },
                )
            }
        },
        ProcessOutcome::Killed => Err(
            Failure::ProcessExitFailure {
                desc: String::from_str(desc),
                command: command.command_line(),
                status: None,
            },
        ),
    }
}

} // verus!
