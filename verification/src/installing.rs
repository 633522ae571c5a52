//! Putting a binary into the directory of managed binaries.

use vstd::prelude::*;

use crate::layout::{binary_in, InstallLayout};
use crate::text::{concat, holds_part, lemma_part_is_held, owned};

verus! {

/// What is known of an installation so far: whether something stood at the destination, and how the
/// attempts went that were made.
#[derive(Debug)]
pub struct InstallProgress {
    pub exists: Option<bool>,
    pub removed: Option<Result<(), String>>,
    pub linked: Option<Result<(), String>>,
    pub copied: Option<Result<(), String>>,
}

/// What comes next in an installation.
#[derive(Debug, PartialEq, Eq)]
pub enum InstallStep {
    /// See whether something stands at this path.
    Check(String),
    /// Remove what stands at this path.
    Remove(String),
    /// Make a hard link to the first path at the second.
    Link(String, String),
    /// Copy the first path to the second.
    Copy(String, String),
    /// The binary stands at this path.
    Done(String),
    Failed(InstallError),
}

/// Why a binary could not be installed.
#[derive(Debug, PartialEq, Eq)]
pub enum InstallError {
    Irreplaceable(String, String),
    /// The copy failed: from where, to where and why.
    Uncopiable(String, String, String),
    /// The copy failed, after the hard link had failed for the first reason.
    UncopiableAfterLink(String, String, String, String),
}

/// What is said of a copy that failed.
pub open spec fn copy_failure(
    source: Seq<char>,
    destination: Seq<char>,
    detail: Seq<char>,
) -> Seq<char> {
    "failed to copy binary from "@ + source + " to "@ + destination + ": "@ + detail
}

impl InstallError {
    /// What the error says.
    pub open spec fn text(self) -> Seq<char> {
        match self {
            InstallError::Irreplaceable(path, detail) => "failed to replace "@ + path@ + ": "@
                + detail@,
            InstallError::Uncopiable(source, destination, detail) => copy_failure(
                source@,
                destination@,
                detail@,
            ),
            InstallError::UncopiableAfterLink(cause, source, destination, detail) =>
                "hard link failed first: "@ + cause@ + ": "@ + copy_failure(
                source@,
                destination@,
                detail@,
            ),
        }
    }

    /// Says why a binary could not be installed.
    pub fn message(&self) -> (message: String)
        ensures
            message@ == self.text(),
    {
        match self {
            InstallError::Irreplaceable(path, detail) => {
                let mut message = concat("failed to replace ", path.as_str());
                message.append(": ");
                message.append(detail.as_str());
                message
            },
            InstallError::Uncopiable(source, destination, detail) => copy_failure_text(
                source.as_str(),
                destination.as_str(),
                detail.as_str(),
            ),
            InstallError::UncopiableAfterLink(cause, source, destination, detail) => {
                let mut message = concat("hard link failed first: ", cause.as_str());
                message.append(": ");
                let failure = copy_failure_text(
                    source.as_str(),
                    destination.as_str(),
                    detail.as_str(),
                );
                message.append(failure.as_str());
                message
            },
        }
    }
}

/// Says that a copy failed.
fn copy_failure_text(source: &str, destination: &str, detail: &str) -> (message: String)
    ensures
        message@ == copy_failure(source@, destination@, detail@),
{
    let mut message = concat("failed to copy binary from ", source);
    message.append(" to ");
    message.append(destination);
    message.append(": ");
    message.append(detail);
    message
}

/// Whether `step` comes next in copying, given why a hard link failed if one was tried.
pub open spec fn is_copy_step(
    source: Seq<char>,
    destination: Seq<char>,
    copied: Option<Result<(), String>>,
    cause: Option<String>,
    step: InstallStep,
) -> bool {
    match (copied, cause) {
        (None, _) => {
            &&& step matches InstallStep::Copy(from, to)
            &&& from@ == source
            &&& to@ == destination
        },
        (Some(Ok(_)), _) => step matches InstallStep::Done(path) && path@ == destination,
        (Some(Err(why)), None) => {
            &&& step matches InstallStep::Failed(InstallError::Uncopiable(from, to, detail))
            &&& from@ == source
            &&& to@ == destination
            &&& detail@ == why@
        },
        (Some(Err(why)), Some(before)) => {
            &&& step matches InstallStep::Failed(
                InstallError::UncopiableAfterLink(first, from, to, detail),
            )
            &&& first@ == before@
            &&& from@ == source
            &&& to@ == destination
            &&& detail@ == why@
        },
    }
}

/// Whether `step` comes next in an installation: what stands at the destination is removed, then
/// the binary is linked, or copied where that is asked for or the link fails.
pub open spec fn is_install_step(
    source: Seq<char>,
    destination: Seq<char>,
    always_copy: bool,
    progress: InstallProgress,
    step: InstallStep,
) -> bool {
    if progress.exists is None {
        step matches InstallStep::Check(path) && path@ == destination
    } else if progress.exists == Some(true) && progress.removed is None {
        step matches InstallStep::Remove(path) && path@ == destination
    } else if progress.exists == Some(true) && progress.removed->Some_0 is Err {
        &&& step matches InstallStep::Failed(InstallError::Irreplaceable(path, detail))
        &&& path@ == destination
        &&& detail@ == progress.removed->Some_0->Err_0@
    } else if always_copy {
        is_copy_step(source, destination, progress.copied, None, step)
    } else {
        match progress.linked {
            None => {
                &&& step matches InstallStep::Link(from, to)
                &&& from@ == source
                &&& to@ == destination
            },
            Some(Ok(_)) => step matches InstallStep::Done(path) && path@ == destination,
            Some(Err(why)) => is_copy_step(source, destination, progress.copied, Some(why), step),
        }
    }
}

/// What comes next in copying.
fn next_copy_step(
    source: &str,
    destination: String,
    copied: &Option<Result<(), String>>,
    cause: Option<&String>,
) -> (step: InstallStep)
    ensures
        is_copy_step(
            source@,
            destination@,
            *copied,
            match cause {
                Some(why) => Some(*why),
                None => None,
            },
            step,
        ),
{
    match copied {
        None => InstallStep::Copy(owned(source), destination),
        Some(Ok(_)) => InstallStep::Done(destination),
        Some(Err(why)) => match cause {
            None => InstallStep::Failed(
                InstallError::Uncopiable(owned(source), destination, why.clone()),
            ),
            Some(before) => InstallStep::Failed(
                InstallError::UncopiableAfterLink(
                    before.clone(),
                    owned(source),
                    destination,
                    why.clone(),
                ),
            ),
        },
    }
}

/// What comes next in installing a binary under a name.
pub fn install_binary_file(
    layout: &InstallLayout,
    source: &str,
    binary_name: &str,
    always_copy: bool,
    progress: &InstallProgress,
) -> (step: InstallStep)
    ensures
        is_install_step(
            source@,
            binary_in(layout@, binary_name@),
            always_copy,
            *progress,
            step,
        ),
{
    let destination = layout.binary_path(binary_name);
    match &progress.exists {
        None => return InstallStep::Check(destination),
        Some(exists) => {
            if *exists {
                match &progress.removed {
                    None => return InstallStep::Remove(destination),
                    Some(Err(detail)) => return InstallStep::Failed(
                        InstallError::Irreplaceable(destination, detail.clone()),
                    ),
                    Some(Ok(_)) => {},
                }
            }
        },
    }
    if always_copy {
        return next_copy_step(source, destination, &progress.copied, None);
    }
    match &progress.linked {
        None => InstallStep::Link(owned(source), destination),
        Some(Ok(_)) => InstallStep::Done(destination),
        Some(Err(why)) => next_copy_step(source, destination, &progress.copied, Some(why)),
    }
}

/// Every step asks for something that is not known yet, so that an installation ends after four
/// steps at most.
pub proof fn law_no_step_is_repeated(
    source: Seq<char>,
    destination: Seq<char>,
    always_copy: bool,
    progress: InstallProgress,
    step: InstallStep,
)
    requires
        is_install_step(source, destination, always_copy, progress, step),
    ensures
        step is Check ==> progress.exists is None,
        step is Remove ==> progress.removed is None,
        step is Link ==> progress.linked is None,
        step is Copy ==> progress.copied is None,
{
}

/// An installation that is done leaves the binary at its destination, linked or copied, and nothing
/// else that stood there.
pub proof fn law_done_means_linked_or_copied(
    source: Seq<char>,
    destination: Seq<char>,
    always_copy: bool,
    progress: InstallProgress,
    step: InstallStep,
)
    requires
        is_install_step(source, destination, always_copy, progress, step),
        step is Done,
    ensures
        step->Done_0@ == destination,
        progress.exists == Some(false) || (progress.removed matches Some(outcome)
            && outcome is Ok),
        (progress.linked matches Some(outcome) && outcome is Ok) || (progress.copied matches Some(
            outcome,
        ) && outcome is Ok),
        always_copy ==> (progress.copied matches Some(outcome) && outcome is Ok),
{
}

/// What stands at the destination is removed first. Then a link is made, unless a copy is wanted; a
/// copy is made where it is wanted or the link failed.
pub proof fn law_steps_of_an_installation(
    source: Seq<char>,
    destination: Seq<char>,
    always_copy: bool,
    progress: InstallProgress,
    step: InstallStep,
)
    requires
        is_install_step(source, destination, always_copy, progress, step),
    ensures
        ({
            let is_free = progress.exists == Some(false) || (progress.exists == Some(true) && (
            progress.removed matches Some(outcome) && outcome is Ok));
            let is_copied = always_copy || (progress.linked matches Some(outcome)
                && outcome is Err);
            &&& step is Check <==> progress.exists is None
            &&& step is Remove <==> progress.exists == Some(true) && progress.removed is None
            &&& step is Link <==> is_free && !always_copy && progress.linked is None
            &&& step is Copy <==> is_free && is_copied && progress.copied is None
            &&& step is Done <==> is_free && (if is_copied {
                progress.copied matches Some(outcome) && outcome is Ok
            } else {
                progress.linked matches Some(outcome) && outcome is Ok
            })
            &&& match step {
                InstallStep::Check(path) => path@ == destination,
                InstallStep::Remove(path) => path@ == destination,
                InstallStep::Link(from, to) => from@ == source && to@ == destination,
                InstallStep::Copy(from, to) => from@ == source && to@ == destination,
                InstallStep::Done(path) => path@ == destination,
                InstallStep::Failed(_) => true,
            }
        }),
{
    if let Some(is_there) = progress.exists {
        if is_there {
            assert(progress.exists == Some(true));
        } else {
            assert(progress.exists == Some(false));
        }
    }
}

/// An installation fails where what stood there could not be removed, or where the copy failed;
/// then it names the paths, what was wrong, and what was wrong with the link if that was tried.
pub proof fn law_installation_fails_for_a_reason(
    source: Seq<char>,
    destination: Seq<char>,
    always_copy: bool,
    progress: InstallProgress,
    error: InstallError,
)
    requires
        is_install_step(source, destination, always_copy, progress, InstallStep::Failed(error)),
    ensures
        match error {
            InstallError::Irreplaceable(path, detail) => {
                &&& path@ == destination
                &&& progress.exists == Some(true)
                &&& progress.removed matches Some(Err(why))
                &&& detail@ == why@
            },
            InstallError::Uncopiable(from, to, detail) => {
                &&& from@ == source
                &&& to@ == destination
                &&& always_copy
                &&& progress.copied matches Some(Err(why))
                &&& detail@ == why@
            },
            InstallError::UncopiableAfterLink(first, from, to, detail) => {
                &&& from@ == source
                &&& to@ == destination
                &&& !always_copy
                &&& progress.linked matches Some(Err(cause))
                &&& first@ == cause@
                &&& progress.copied matches Some(Err(why))
                &&& detail@ == why@
            },
        },
{
}

/// An error names the paths that it is about, and all that was wrong.
pub proof fn law_errors_name_the_paths(error: InstallError)
    ensures
        ({
            let text = error.text();
            match error {
                InstallError::Irreplaceable(path, detail) => {
                    &&& holds_part(text, path@)
                    &&& holds_part(text, detail@)
                },
                InstallError::Uncopiable(source, destination, detail) => {
                    &&& holds_part(text, source@)
                    &&& holds_part(text, destination@)
                    &&& holds_part(text, detail@)
                },
                InstallError::UncopiableAfterLink(cause, source, destination, detail) => {
                    &&& holds_part(text, cause@)
                    &&& holds_part(text, source@)
                    &&& holds_part(text, destination@)
                    &&& holds_part(text, detail@)
                },
            }
        }),
{
    let text = error.text();
    match error {
        InstallError::Irreplaceable(path, detail) => {
            let front = "failed to replace "@;
            let back = ": "@ + detail@;
            assert(text =~= front + path@ + back);
            lemma_part_is_held(front, path@, back);
            let front = "failed to replace "@ + path@ + ": "@;
            let back = Seq::<char>::empty();
            assert(text =~= front + detail@ + back);
            lemma_part_is_held(front, detail@, back);
        },
        InstallError::Uncopiable(source, destination, detail) => {
            let front = "failed to copy binary from "@;
            let back = " to "@ + destination@ + ": "@ + detail@;
            assert(text =~= front + source@ + back);
            lemma_part_is_held(front, source@, back);
            let front = "failed to copy binary from "@ + source@ + " to "@;
            let back = ": "@ + detail@;
            assert(text =~= front + destination@ + back);
            lemma_part_is_held(front, destination@, back);
            let front = "failed to copy binary from "@ + source@ + " to "@ + destination@ + ": "@;
            let back = Seq::<char>::empty();
            assert(text =~= front + detail@ + back);
            lemma_part_is_held(front, detail@, back);
        },
        InstallError::UncopiableAfterLink(cause, source, destination, detail) => {
            let front = "hard link failed first: "@;
            let back = ": "@ + "failed to copy binary from "@ + source@ + " to "@ + destination@
                + ": "@ + detail@;
            assert(text =~= front + cause@ + back);
            lemma_part_is_held(front, cause@, back);
            let front = "hard link failed first: "@ + cause@ + ": "@
                + "failed to copy binary from "@;
            let back = " to "@ + destination@ + ": "@ + detail@;
            assert(text =~= front + source@ + back);
            lemma_part_is_held(front, source@, back);
            let front = "hard link failed first: "@ + cause@ + ": "@
                + "failed to copy binary from "@ + source@ + " to "@;
            let back = ": "@ + detail@;
            assert(text =~= front + destination@ + back);
            lemma_part_is_held(front, destination@, back);
            let front = "hard link failed first: "@ + cause@ + ": "@
                + "failed to copy binary from "@ + source@ + " to "@ + destination@ + ": "@;
            let back = Seq::<char>::empty();
            assert(text =~= front + detail@ + back);
            lemma_part_is_held(front, detail@, back);
        },
    }
}

} // verus!
