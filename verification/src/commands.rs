//! Commands to be run, and what came of them.

use vstd::prelude::*;
use vstd::utf8::{decode_utf8, valid_utf8};

use crate::decoding::{lossy_text, text_from_utf8, text_from_utf8_lossy};
use crate::spaces::{trim, trimmed};
use crate::text::{concat, holds_part, lemma_part_is_held, owned, views};

verus! {

/// A command to be run.
#[derive(Debug, PartialEq, Eq)]
pub struct CommandPlan {
    pub program: String,
    pub arguments: Vec<String>,
    /// Where it is run, if not in the working directory.
    pub directory: Option<String>,
    /// What it is for.
    pub description: String,
}

/// What came of a command that was only watched for its success.
#[derive(Debug)]
pub enum StatusOutcome {
    /// It could not be started, and why.
    NotStarted(String),
    Finished(bool),
}

/// What came of a command whose output was kept.
#[derive(Debug)]
pub enum CapturedOutcome {
    /// It could not be started, and why.
    NotStarted(String),
    /// It failed, with this on its error output.
    Failed(Vec<u8>),
    /// It succeeded, with this on its output.
    Finished(Vec<u8>),
}

/// Why a command was of no use.
#[derive(Debug, PartialEq, Eq)]
pub enum CommandError {
    NotStarted(String, String),
    Failed(String),
    FailedWith(String, String),
    NotText(String),
}

impl CommandError {
    /// What the error says.
    pub open spec fn text(self) -> Seq<char> {
        match self {
            CommandError::NotStarted(description, detail) => "failed to "@ + description@ + ": "@
                + detail@,
            CommandError::Failed(description) => "failed to "@ + description@,
            CommandError::FailedWith(description, output) => "failed to "@ + description@ + ": "@
                + output@,
            CommandError::NotText(detail) => "command output was not valid UTF-8: "@ + detail@,
        }
    }

    /// Says what is wrong with a command.
    pub fn message(&self) -> (message: String)
        ensures
            message@ == self.text(),
    {
        match self {
            CommandError::NotStarted(description, detail) => {
                let mut message = concat("failed to ", description.as_str());
                message.append(": ");
                message.append(detail.as_str());
                message
            },
            CommandError::Failed(description) => concat("failed to ", description.as_str()),
            CommandError::FailedWith(description, output) => {
                let mut message = concat("failed to ", description.as_str());
                message.append(": ");
                message.append(output.as_str());
                message
            },
            CommandError::NotText(detail) => concat(
                "command output was not valid UTF-8: ",
                detail.as_str(),
            ),
        }
    }
}

/// Whether a command is this one.
pub open spec fn is_command(
    plan: CommandPlan,
    program: Seq<char>,
    arguments: Seq<Seq<char>>,
    description: Seq<char>,
) -> bool {
    &&& plan.program@ == program
    &&& views(plan.arguments@) == arguments
    &&& plan.directory is None
    &&& plan.description@ == description
}

/// What is wrong with a command that had to succeed, if anything is.
pub open spec fn status_fault(outcome: StatusOutcome, description: Seq<char>) -> Option<Seq<char>> {
    match outcome {
        StatusOutcome::NotStarted(detail) => Some(
            "failed to "@ + description + ": "@ + detail@,
        ),
        StatusOutcome::Finished(true) => None,
        StatusOutcome::Finished(false) => Some("failed to "@ + description),
    }
}

/// What a command that had to succeed gives.
pub fn run_status(outcome: &StatusOutcome, description: &str) -> (result: Result<(), CommandError>)
    ensures
        match outcome {
            StatusOutcome::NotStarted(detail) => {
                &&& result matches Err(CommandError::NotStarted(what, why))
                &&& what@ == description@
                &&& why@ == detail@
            },
            StatusOutcome::Finished(true) => result is Ok,
            StatusOutcome::Finished(false) => {
                &&& result matches Err(CommandError::Failed(what))
                &&& what@ == description@
            },
        },
{
    match outcome {
        StatusOutcome::NotStarted(detail) => Err(
            CommandError::NotStarted(owned(description), detail.clone()),
        ),
        StatusOutcome::Finished(success) => {
            if *success {
                Ok(())
            } else {
                Err(CommandError::Failed(owned(description)))
            }
        },
    }
}

/// The text that a command gives: its output, or why there is none.
pub fn run_captured(outcome: CapturedOutcome, description: &str) -> (result: Result<
    String,
    CommandError,
>)
    ensures
        match outcome {
            CapturedOutcome::NotStarted(detail) => {
                &&& result matches Err(CommandError::NotStarted(what, why))
                &&& what@ == description@
                &&& why@ == detail@
            },
            CapturedOutcome::Failed(output) => {
                &&& result matches Err(CommandError::FailedWith(what, why))
                &&& what@ == description@
                &&& why@ == trimmed(lossy_text(output@))
                &&& valid_utf8(output@) ==> why@ == trimmed(decode_utf8(output@))
            },
            CapturedOutcome::Finished(output) => match result {
                Ok(text) => valid_utf8(output@) && text@ == decode_utf8(output@),
                Err(error) => !valid_utf8(output@) && error is NotText,
            },
        },
{
    match outcome {
        CapturedOutcome::NotStarted(detail) => Err(
            CommandError::NotStarted(owned(description), detail),
        ),
        CapturedOutcome::Failed(output) => {
            let text = text_from_utf8_lossy(&output);
            Err(CommandError::FailedWith(owned(description), trim(text.as_str())))
        },
        CapturedOutcome::Finished(output) => match text_from_utf8(output) {
            Ok(text) => Ok(text),
            Err(detail) => Err(CommandError::NotText(detail)),
        },
    }
}

/// A command is no fault exactly where it was started and succeeded; else what it was for is said,
/// and why it could not be started.
pub proof fn law_faults_say_what_failed(outcome: StatusOutcome, description: Seq<char>)
    ensures
        status_fault(outcome, description) is None <==> outcome == StatusOutcome::Finished(true),
        status_fault(outcome, description) matches Some(text) ==> ("failed to "@
            + description).is_prefix_of(text) && match outcome {
            StatusOutcome::NotStarted(detail) => detail@.is_suffix_of(text) && text.len() == (
            "failed to "@ + description).len() + 2 + detail@.len(),
            _ => text.len() == ("failed to "@ + description).len(),
        },
{
    reveal_strlit(": ");
    if let Some(text) = status_fault(outcome, description) {
        let head = "failed to "@ + description;
        assert(head =~= text.subrange(0, head.len() as int));
        if let StatusOutcome::NotStarted(detail) = outcome {
            assert(detail@ =~= text.subrange(text.len() - detail@.len(), text.len() as int));
        }
    }
}

/// A plan for a command has the program, all arguments in their order, and no directory of its own.
pub proof fn law_plans_hold_their_arguments(
    plan: CommandPlan,
    program: Seq<char>,
    arguments: Seq<Seq<char>>,
    description: Seq<char>,
)
    requires
        is_command(plan, program, arguments, description),
    ensures
        plan.program@ == program,
        plan.description@ == description,
        plan.directory is None,
        plan.arguments@.len() == arguments.len(),
        forall|at: int|
            0 <= at < arguments.len() ==> (#[trigger] plan.arguments@[at])@ == arguments[at],
{
    assert(views(plan.arguments@).len() == plan.arguments@.len());
    assert forall|at: int| 0 <= at < arguments.len() implies (#[trigger] plan.arguments@[at])@
        == arguments[at] by {
        assert(views(plan.arguments@)[at] == plan.arguments@[at]@);
    }
}

/// An error names what the command was for, and what was wrong.
pub proof fn law_errors_say_what_was_wrong(error: CommandError)
    ensures
        ({
            let text = error.text();
            match error {
                CommandError::NotStarted(description, detail) => {
                    &&& holds_part(text, description@)
                    &&& holds_part(text, detail@)
                },
                CommandError::Failed(description) => holds_part(text, description@),
                CommandError::FailedWith(description, output) => {
                    &&& holds_part(text, description@)
                    &&& holds_part(text, output@)
                },
                CommandError::NotText(detail) => holds_part(text, detail@),
            }
        }),
{
    let text = error.text();
    match error {
        CommandError::NotStarted(description, detail) => {
            let front = "failed to "@;
            let back = ": "@ + detail@;
            assert(text =~= front + description@ + back);
            lemma_part_is_held(front, description@, back);
            let front = "failed to "@ + description@ + ": "@;
            let back = Seq::<char>::empty();
            assert(text =~= front + detail@ + back);
            lemma_part_is_held(front, detail@, back);
        },
        CommandError::Failed(description) => {
            let front = "failed to "@;
            let back = Seq::<char>::empty();
            assert(text =~= front + description@ + back);
            lemma_part_is_held(front, description@, back);
        },
        CommandError::FailedWith(description, output) => {
            let front = "failed to "@;
            let back = ": "@ + output@;
            assert(text =~= front + description@ + back);
            lemma_part_is_held(front, description@, back);
            let front = "failed to "@ + description@ + ": "@;
            let back = Seq::<char>::empty();
            assert(text =~= front + output@ + back);
            lemma_part_is_held(front, output@, back);
        },
        CommandError::NotText(detail) => {
            let front = "command output was not valid UTF-8: "@;
            let back = Seq::<char>::empty();
            assert(text =~= front + detail@ + back);
            lemma_part_is_held(front, detail@, back);
        },
    }
}

} // verus!
