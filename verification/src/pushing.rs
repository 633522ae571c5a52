//! Pushing prepared packages to a feed, one after the other.

use vstd::prelude::*;

use crate::commands::StatusOutcome;
use crate::text::{concat, holds_part, lemma_part_is_held, owned, views};
use crate::uploads::{push_arguments, push_words, require_api_key, PackageUpload, PreparedUpload};

verus! {

/// Why packages were not pushed.
#[derive(Debug, PartialEq, Eq)]
pub enum PushError {
    MissingApiKey,
    NotInvoked(String, String),
    Failed(String),
}

/// What comes next in pushing packages.
#[derive(Debug, PartialEq, Eq)]
pub enum PushStep {
    /// Run `dotnet` with these arguments.
    Push(Vec<String>),
    Done,
    Stop(PushError),
}

impl PushError {
    /// What the error says.
    pub open spec fn text(self) -> Seq<char> {
        match self {
            PushError::MissingApiKey =>
                "missing API key; pass --api-key or set the packagingFeedKey environment variable"@,
            PushError::NotInvoked(path, detail) => "failed to invoke dotnet nuget push for "@
                + path@ + ": "@ + detail@,
            PushError::Failed(path) => "dotnet nuget push failed for "@ + path@,
        }
    }

    /// Says why packages were not pushed.
    pub fn message(&self) -> (message: String)
        ensures
            message@ == self.text(),
    {
        match self {
            PushError::MissingApiKey => owned(
                "missing API key; pass --api-key or set the packagingFeedKey environment variable",
            ),
            PushError::NotInvoked(path, detail) => {
                let mut message = concat(
                    "failed to invoke dotnet nuget push for ",
                    path.as_str(),
                );
                message.append(": ");
                message.append(detail.as_str());
                message
            },
            PushError::Failed(path) => concat("dotnet nuget push failed for ", path.as_str()),
        }
    }
}

/// Whether this is what came of pushing an upload.
pub open spec fn is_push_result(
    upload: PackageUpload,
    outcome: StatusOutcome,
    result: Result<(), PushError>,
) -> bool {
    match outcome {
        StatusOutcome::NotStarted(detail) => {
            &&& result matches Err(PushError::NotInvoked(path, why))
            &&& path@ == upload.upload_path@
            &&& why@ == detail@
        },
        StatusOutcome::Finished(true) => result is Ok,
        StatusOutcome::Finished(false) => {
            &&& result matches Err(PushError::Failed(path))
            &&& path@ == upload.upload_path@
        },
    }
}

/// What came of pushing an upload.
pub fn push_package(upload: &PackageUpload, outcome: &StatusOutcome) -> (result: Result<
    (),
    PushError,
>)
    ensures
        is_push_result(*upload, *outcome, result),
{
    match outcome {
        StatusOutcome::NotStarted(detail) => Err(
            PushError::NotInvoked(upload.upload_path.clone(), detail.clone()),
        ),
        StatusOutcome::Finished(success) => {
            if *success {
                Ok(())
            } else {
                Err(PushError::Failed(upload.upload_path.clone()))
            }
        },
    }
}

/// Whether `step` comes next in pushing, given how the first uploads went: a dry run pushes
/// nothing, the feed needs a key, and what fails stops the rest.
pub open spec fn is_push_step(
    uploads: Seq<PreparedUpload>,
    source: Seq<char>,
    api_key: Option<String>,
    skip_duplicate: bool,
    dry_run: bool,
    outcomes: Seq<StatusOutcome>,
    step: PushStep,
) -> bool {
    if dry_run {
        step == PushStep::Done
    } else if api_key is None {
        step == PushStep::Stop(PushError::MissingApiKey)
    } else if outcomes.len() > 0 && outcomes.last() != StatusOutcome::Finished(true) {
        &&& step matches PushStep::Stop(error)
        &&& is_push_result(
            uploads[outcomes.len() - 1].upload,
            outcomes.last(),
            Err::<(), PushError>(error),
        )
    } else if outcomes.len() < uploads.len() {
        &&& step matches PushStep::Push(arguments)
        &&& views(arguments@) == push_words(
            uploads[outcomes.len() as int].upload,
            source,
            api_key->Some_0@,
            skip_duplicate,
        )
    } else {
        step == PushStep::Done
    }
}

/// What comes next in pushing, given how the first uploads went.
pub fn next_push(
    uploads: &Vec<PreparedUpload>,
    source: &str,
    api_key: &Option<String>,
    skip_duplicate: bool,
    dry_run: bool,
    outcomes: &Vec<StatusOutcome>,
) -> (step: PushStep)
    requires
        outcomes@.len() <= uploads@.len(),
    ensures
        is_push_step(
            uploads@,
            source@,
            *api_key,
            skip_duplicate,
            dry_run,
            outcomes@,
            step,
        ),
{
    if dry_run {
        return PushStep::Done;
    }
    let key = match require_api_key(api_key) {
        Ok(key) => key,
        Err(_) => return PushStep::Stop(PushError::MissingApiKey),
    };
    let count: usize = outcomes.len();
    if count > 0 {
        if let Err(error) = push_package(&uploads[count - 1].upload, &outcomes[count - 1]) {
            return PushStep::Stop(error);
        }
    }
    if count < uploads.len() {
        PushStep::Push(
            push_arguments(&uploads[count].upload, source, key.as_str(), skip_duplicate),
        )
    } else {
        PushStep::Done
    }
}

/// A dry run pushes nothing, and nothing is pushed without a key.
pub proof fn law_nothing_is_pushed_without_leave(
    uploads: Seq<PreparedUpload>,
    source: Seq<char>,
    api_key: Option<String>,
    skip_duplicate: bool,
    dry_run: bool,
    outcomes: Seq<StatusOutcome>,
    step: PushStep,
)
    requires
        is_push_step(uploads, source, api_key, skip_duplicate, dry_run, outcomes, step),
        step is Push,
    ensures
        !dry_run,
        api_key is Some,
{
}

/// Where pushing is done and was no dry run, every upload was pushed, provided that each went well
/// before the next was begun.
pub proof fn law_done_means_all_were_pushed(
    uploads: Seq<PreparedUpload>,
    source: Seq<char>,
    api_key: Option<String>,
    skip_duplicate: bool,
    outcomes: Seq<StatusOutcome>,
    step: PushStep,
)
    requires
        outcomes.len() <= uploads.len(),
        is_push_step(uploads, source, api_key, skip_duplicate, false, outcomes, step),
        step is Done,
    ensures
        outcomes.len() == uploads.len(),
        outcomes.len() > 0 ==> outcomes.last() == StatusOutcome::Finished(true),
{
}

/// Pushes go in order: the next is that of the first upload that was not tried, when all that were
/// tried have succeeded at the last.
pub proof fn law_uploads_are_pushed_in_order(
    uploads: Seq<PreparedUpload>,
    source: Seq<char>,
    api_key: Option<String>,
    skip_duplicate: bool,
    dry_run: bool,
    outcomes: Seq<StatusOutcome>,
    step: PushStep,
)
    requires
        is_push_step(uploads, source, api_key, skip_duplicate, dry_run, outcomes, step),
        outcomes.len() <= uploads.len(),
    ensures
        step is Push <==> !dry_run && api_key is Some && outcomes.len() < uploads.len() && (
        outcomes.len() > 0 ==> outcomes.last() == StatusOutcome::Finished(true)),
        step matches PushStep::Push(arguments) ==> {
            &&& arguments@.len() == if skip_duplicate {
                8nat
            } else {
                7nat
            }
            &&& arguments@[0]@ == "nuget"@
            &&& arguments@[1]@ == "push"@
            &&& arguments@[2]@ == uploads[outcomes.len() as int].upload.upload_path@
            &&& arguments@[3]@ == "--source"@
            &&& arguments@[4]@ == source
            &&& arguments@[5]@ == "--api-key"@
            &&& arguments@[6]@ == api_key->Some_0@
            &&& skip_duplicate ==> arguments@[7]@ == "--skip-duplicate"@
        },
{
    if let PushStep::Push(arguments) = step {
        let words = views(arguments@);
        assert(words.len() == arguments@.len());
        assert(forall|at: int| 0 <= at < words.len() ==> words[at] == (#[trigger] arguments@[at])@);
    }
}

/// Pushing stops for want of a key before anything is pushed, or at the first push that fails,
/// which is named with its path.
pub proof fn law_pushing_stops_at_the_first_failure(
    uploads: Seq<PreparedUpload>,
    source: Seq<char>,
    api_key: Option<String>,
    skip_duplicate: bool,
    dry_run: bool,
    outcomes: Seq<StatusOutcome>,
    step: PushStep,
)
    requires
        is_push_step(uploads, source, api_key, skip_duplicate, dry_run, outcomes, step),
        outcomes.len() <= uploads.len(),
    ensures
        step is Stop <==> !dry_run && (api_key is None || (outcomes.len() > 0 && outcomes.last()
            != StatusOutcome::Finished(true))),
        step matches PushStep::Stop(error) ==> match error {
            PushError::MissingApiKey => api_key is None,
            PushError::NotInvoked(path, why) => outcomes.len() > 0 && path@ == uploads[outcomes.len()
                - 1].upload.upload_path@ && (outcomes.last() matches StatusOutcome::NotStarted(
                detail,
            ) && why@ == detail@),
            PushError::Failed(path) => outcomes.len() > 0 && path@ == uploads[outcomes.len()
                - 1].upload.upload_path@ && outcomes.last() == StatusOutcome::Finished(false),
        },
{
}

/// A push succeeds exactly where its command was started and succeeded.
pub proof fn law_push_succeeds_with_its_command(
    upload: PackageUpload,
    outcome: StatusOutcome,
    result: Result<(), PushError>,
)
    requires
        is_push_result(upload, outcome, result),
    ensures
        result is Ok <==> outcome == StatusOutcome::Finished(true),
        result matches Err(error) ==> match error {
            PushError::MissingApiKey => false,
            PushError::NotInvoked(path, why) => path@ == upload.upload_path@ && (
            outcome matches StatusOutcome::NotStarted(detail) && why@ == detail@),
            PushError::Failed(path) => path@ == upload.upload_path@ && outcome
                == StatusOutcome::Finished(false),
        },
{
}

/// An error names the package that it is about, and what was wrong.
pub proof fn law_errors_name_the_path(error: PushError)
    ensures
        ({
            let text = error.text();
            match error {
                PushError::NotInvoked(path, detail) => {
                    &&& holds_part(text, path@)
                    &&& holds_part(text, detail@)
                },
                PushError::Failed(path) => holds_part(text, path@),
                _ => true,
            }
        }),
{
    let text = error.text();
    match error {
        PushError::NotInvoked(path, detail) => {
            let front = "failed to invoke dotnet nuget push for "@;
            let back = ": "@ + detail@;
            assert(text =~= front + path@ + back);
            lemma_part_is_held(front, path@, back);
            let front = "failed to invoke dotnet nuget push for "@ + path@ + ": "@;
            let back = Seq::<char>::empty();
            assert(text =~= front + detail@ + back);
            lemma_part_is_held(front, detail@, back);
        },
        PushError::Failed(path) => {
            let front = "dotnet nuget push failed for "@;
            let back = Seq::<char>::empty();
            assert(text =~= front + path@ + back);
            lemma_part_is_held(front, path@, back);
        },
        _ => {},
    }
}

} // verus!
