//! Building a tool in a worktree of its own, and installing it from there.

use vstd::prelude::*;

use crate::catalog::RepoTool;
use crate::commands::{is_command, run_status, status_fault, CommandPlan, StatusOutcome};
use crate::exe_names::exe_name;
use crate::layout::{repo_in, InstallLayout, LayoutView};
use crate::paths::{is_inside, joined_path, part_inside};
use crate::text::{concat, holds_part, lemma_part_is_held, views};
use crate::tool_versions::{short_of, ToolVersion};
use crate::toolctl::{
    build_description, build_tool, built_binary, create_worktree, ensure_built_binary_exists,
    is_build_plan, outside_text, remove_worktree, worktree_add_arguments,
    worktree_remove_arguments,
};

verus! {

/// What is known so far of building and installing a tool.
#[derive(Debug)]
pub struct BuildProgress {
    /// Whether the directories of the layout are there.
    pub prepared: Option<Result<(), String>>,
    /// What came of making the worktree.
    pub created: Option<StatusOutcome>,
    /// What came of building in it.
    pub built: Option<StatusOutcome>,
    /// Whether the binary is there then.
    pub exists: Option<bool>,
    /// Where it was installed, or why it could not be.
    pub installed: Option<Result<String, String>>,
    /// What came of removing the worktree.
    pub removed: Option<StatusOutcome>,
}

/// What to do about building and installing a tool.
#[derive(Debug, PartialEq, Eq)]
pub enum BuildStep {
    /// Create the directories of the layout.
    Prepare,
    /// Make the worktree.
    Create(CommandPlan),
    /// Build in it.
    Build(CommandPlan),
    /// See whether this file is there.
    Check(String),
    /// Install this file.
    Install(String),
    /// Remove the worktree.
    Remove(CommandPlan),
    /// The tool is installed here.
    Done(String),
    Failed(String),
}

/// How building and installing in the worktree ended, if it did: with the path of the binary or
/// with what went wrong.
pub open spec fn inner_end(
    layout: LayoutView,
    tool: RepoTool,
    version: ToolVersion,
    worktree: Seq<char>,
    progress: BuildProgress,
) -> Option<Result<Seq<char>, Seq<char>>> {
    let binary = built_binary(layout.platform, worktree, tool.binary_name@);
    if !is_inside(layout.platform, tool.manifest_path@, repo_in(layout)) {
        Some(Err(outside_text(tool.manifest_path@, repo_in(layout))))
    } else {
        match progress.built {
            None => None,
            Some(outcome) => match status_fault(outcome, build_description(tool, version)) {
                Some(fault) => Some(Err(fault)),
                None => match progress.exists {
                    None => None,
                    Some(false) => Some(Err("built binary was not found at "@ + binary)),
                    Some(true) => match progress.installed {
                        None => None,
                        Some(Ok(path)) => Some(Ok(path@)),
                        Some(Err(why)) => Some(Err(why@)),
                    },
                },
            },
        }
    }
}

/// Whether `step` comes next in the worktree: building, looking for the binary, installing it.
pub open spec fn is_inner_step(
    layout: LayoutView,
    tool: RepoTool,
    version: ToolVersion,
    worktree: Seq<char>,
    progress: BuildProgress,
    step: BuildStep,
) -> bool {
    let binary = built_binary(layout.platform, worktree, tool.binary_name@);
    if progress.built is None {
        &&& step matches BuildStep::Build(command)
        &&& is_build_plan(layout, tool, version, worktree, command)
    } else if progress.exists is None {
        step matches BuildStep::Check(path) && path@ == binary
    } else {
        step matches BuildStep::Install(path) && path@ == binary
    }
}

/// Whether `step` ends building and installing a tool, given how that went and how the worktree
/// could be removed: it counts as installed only if both went well.
pub open spec fn is_build_end(
    end: Result<Seq<char>, Seq<char>>,
    removal_fault: Option<Seq<char>>,
    step: BuildStep,
) -> bool {
    match (end, removal_fault) {
        (Ok(destination), None) => step matches BuildStep::Done(path) && path@ == destination,
        (Err(fault), None) => step matches BuildStep::Failed(why) && why@ == fault,
        (Ok(_), Some(fault)) => step matches BuildStep::Failed(why) && why@ == fault,
        (Err(fault), Some(also)) => step matches BuildStep::Failed(why) && why@
            == "temporary worktree cleanup also failed: "@ + also + ": "@ + fault,
    }
}

/// Whether `step` comes next in building and installing a tool: the worktree is made first, and it
/// is removed before the end, however the work in it went.
pub open spec fn is_build_step(
    layout: LayoutView,
    tool: RepoTool,
    version: ToolVersion,
    worktree: Seq<char>,
    progress: BuildProgress,
    step: BuildStep,
) -> bool {
    match (progress.prepared, progress.created) {
        (None, _) => step == BuildStep::Prepare,
        (Some(Err(detail)), _) => step matches BuildStep::Failed(why) && why@ == detail@,
        (Some(Ok(_)), None) => {
            &&& step matches BuildStep::Create(command)
            &&& is_command(
                command,
                "git"@,
                worktree_add_arguments(repo_in(layout), worktree, version.commit@),
                "create temporary git worktree"@,
            )
        },
        (Some(Ok(_)), Some(outcome)) => match status_fault(
            outcome,
            "create temporary git worktree"@,
        ) {
            Some(fault) => step matches BuildStep::Failed(why) && why@ == fault,
            None => match (inner_end(layout, tool, version, worktree, progress), progress.removed) {
                (None, _) => is_inner_step(layout, tool, version, worktree, progress, step),
                (Some(_), None) => {
                    &&& step matches BuildStep::Remove(command)
                    &&& is_command(
                        command,
                        "git"@,
                        worktree_remove_arguments(repo_in(layout), worktree),
                        "remove temporary git worktree"@,
                    )
                },
                (Some(end), Some(outcome)) => is_build_end(
                    end,
                    status_fault(outcome, "remove temporary git worktree"@),
                    step,
                ),
            },
        },
    }
}

/// What comes next in the worktree, or how the work in it ended.
enum Stage {
    Next(BuildStep),
    Over(Result<String, String>),
}

/// Finds out what comes next in the worktree.
fn next_stage(
    layout: &InstallLayout,
    tool: &RepoTool,
    version: &ToolVersion,
    worktree_path: &str,
    progress: &BuildProgress,
) -> (stage: Stage)
    requires
        short_of(version.commit@) is Some,
    ensures
        match (stage, inner_end(layout@, *tool, *version, worktree_path@, *progress)) {
            (Stage::Next(step), None) => is_inner_step(
                layout@,
                *tool,
                *version,
                worktree_path@,
                *progress,
                step,
            ),
            (Stage::Over(Ok(path)), Some(Ok(destination))) => path@ == destination,
            (Stage::Over(Err(why)), Some(Err(fault))) => why@ == fault,
            _ => false,
        },
{
    let plan = match build_tool(layout, worktree_path, tool, version) {
        Ok(plan) => plan,
        Err(error) => return Stage::Over(Err(error.message())),
    };
    match &progress.built {
        None => return Stage::Next(BuildStep::Build(plan.command)),
        Some(outcome) => {
            if let Err(error) = run_status(outcome, plan.command.description.as_str()) {
                return Stage::Over(Err(error.message()));
            }
        },
    }
    match progress.exists {
        None => return Stage::Next(BuildStep::Check(plan.binary_path)),
        Some(exists) => {
            if let Err(error) = ensure_built_binary_exists(plan.binary_path.as_str(), exists) {
                return Stage::Over(Err(error.message()));
            }
        },
    }
    match &progress.installed {
        None => Stage::Next(BuildStep::Install(plan.binary_path)),
        Some(Ok(path)) => Stage::Over(Ok(path.clone())),
        Some(Err(why)) => Stage::Over(Err(why.clone())),
    }
}

/// Ends building and installing a tool.
fn end_build(end: Result<String, String>, removed: &StatusOutcome) -> (step: BuildStep)
    ensures
        is_build_end(
            match end {
                Ok(path) => Ok(path@),
                Err(why) => Err(why@),
            },
            status_fault(*removed, "remove temporary git worktree"@),
            step,
        ),
{
    match (end, run_status(removed, "remove temporary git worktree")) {
        (Ok(path), Ok(_)) => BuildStep::Done(path),
        (Err(why), Ok(_)) => BuildStep::Failed(why),
        (Ok(_), Err(error)) => BuildStep::Failed(error.message()),
        (Err(why), Err(error)) => {
            let mut text = concat(
                "temporary worktree cleanup also failed: ",
                error.message().as_str(),
            );
            text.append(": ");
            text.append(why.as_str());
            BuildStep::Failed(text)
        },
    }
}

/// What comes next in building and installing a tool at a version, in a worktree at this path.
pub fn build_and_install(
    layout: &InstallLayout,
    tool: &RepoTool,
    version: &ToolVersion,
    worktree_path: &str,
    progress: &BuildProgress,
) -> (step: BuildStep)
    requires
        short_of(version.commit@) is Some,
    ensures
        is_build_step(layout@, *tool, *version, worktree_path@, *progress, step),
{
    match &progress.prepared {
        None => return BuildStep::Prepare,
        Some(Err(why)) => return BuildStep::Failed(why.clone()),
        Some(Ok(_)) => {},
    }
    match &progress.created {
        None => return BuildStep::Create(
            create_worktree(layout, worktree_path, version.commit.as_str()),
        ),
        Some(outcome) => {
            if let Err(error) = run_status(outcome, "create temporary git worktree") {
                return BuildStep::Failed(error.message());
            }
        },
    }
    match next_stage(layout, tool, version, worktree_path, progress) {
        Stage::Next(step) => step,
        Stage::Over(end) => match &progress.removed {
            None => BuildStep::Remove(remove_worktree(layout.repo_dir(), worktree_path)),
            Some(outcome) => end_build(end, outcome),
        },
    }
}

/// Once the worktree was made, there is no end before its removal was tried.
pub proof fn law_worktree_is_removed_before_the_end(
    layout: LayoutView,
    tool: RepoTool,
    version: ToolVersion,
    worktree: Seq<char>,
    progress: BuildProgress,
    step: BuildStep,
)
    requires
        is_build_step(layout, tool, version, worktree, progress, step),
        progress.prepared matches Some(outcome) && outcome is Ok,
        progress.created == Some(StatusOutcome::Finished(true)),
        step is Done || step is Failed,
    ensures
        progress.removed is Some,
{
}

/// Nothing is built, installed or removed unless the worktree was made.
pub proof fn law_worktree_is_made_first(
    layout: LayoutView,
    tool: RepoTool,
    version: ToolVersion,
    worktree: Seq<char>,
    progress: BuildProgress,
    step: BuildStep,
)
    requires
        is_build_step(layout, tool, version, worktree, progress, step),
        step is Build || step is Check || step is Install || step is Remove || step is Done,
    ensures
        progress.created == Some(StatusOutcome::Finished(true)),
{
}

/// The worktree is removed last: when it is, the work in it is over.
pub proof fn law_worktree_is_removed_last(
    layout: LayoutView,
    tool: RepoTool,
    version: ToolVersion,
    worktree: Seq<char>,
    progress: BuildProgress,
    step: BuildStep,
)
    requires
        is_build_step(layout, tool, version, worktree, progress, step),
        step is Remove,
    ensures
        inner_end(layout, tool, version, worktree, progress) is Some,
        progress.removed is None,
{
}

/// A tool that is done was built, found and installed, and its worktree is gone.
pub proof fn law_done_means_installed_and_cleaned_up(
    layout: LayoutView,
    tool: RepoTool,
    version: ToolVersion,
    worktree: Seq<char>,
    progress: BuildProgress,
    step: BuildStep,
)
    requires
        is_build_step(layout, tool, version, worktree, progress, step),
        step is Done,
    ensures
        progress.built == Some(StatusOutcome::Finished(true)),
        progress.exists == Some(true),
        progress.installed matches Some(Ok(path)) && path@ == step->Done_0@,
        progress.removed == Some(StatusOutcome::Finished(true)),
{
}

/// Every step asks for something that is not known yet, so that a build ends after six steps at
/// most.
pub proof fn law_no_build_step_is_repeated(
    layout: LayoutView,
    tool: RepoTool,
    version: ToolVersion,
    worktree: Seq<char>,
    progress: BuildProgress,
    step: BuildStep,
)
    requires
        is_build_step(layout, tool, version, worktree, progress, step),
    ensures
        step is Prepare ==> progress.prepared is None,
        step is Create ==> progress.created is None,
        step is Build ==> progress.built is None,
        step is Check ==> progress.exists is None,
        step is Install ==> progress.installed is None,
        step is Remove ==> progress.removed is None,
{
}

/// When each step of a build is taken.
pub proof fn law_steps_of_a_build(
    layout: LayoutView,
    tool: RepoTool,
    version: ToolVersion,
    worktree: Seq<char>,
    progress: BuildProgress,
    step: BuildStep,
)
    requires
        is_build_step(layout, tool, version, worktree, progress, step),
    ensures
        ({
            let is_prepared = progress.prepared matches Some(outcome) && outcome is Ok;
            let is_made = is_prepared && progress.created == Some(StatusOutcome::Finished(true));
            let is_inside_repo = is_inside(layout.platform, tool.manifest_path@, repo_in(layout));
            let is_built = progress.built == Some(StatusOutcome::Finished(true));
            let is_due = is_made && is_inside_repo;
            let is_over = !is_inside_repo || (progress.built is Some && !is_built) || (is_built && (
            progress.exists == Some(false) || (progress.exists == Some(true) && progress.installed
                is Some)));
            &&& step is Prepare <==> progress.prepared is None
            &&& step is Create <==> is_prepared && progress.created is None
            &&& step is Build <==> is_due && progress.built is None
            &&& step is Check <==> is_due && is_built && progress.exists is None
            &&& step is Install <==> is_due && is_built && progress.exists == Some(true)
                && progress.installed is None
            &&& step is Remove <==> is_made && is_over && progress.removed is None
            &&& step is Done <==> is_due && is_built && progress.exists == Some(true) && (
            progress.installed matches Some(outcome) && outcome is Ok) && progress.removed == Some(
                StatusOutcome::Finished(true),
            )
        }),
{
    lemma_outcomes(progress.created);
    lemma_outcomes(progress.built);
    lemma_outcomes(progress.removed);
}

/// A command that finished succeeded or failed.
proof fn lemma_outcomes(outcome: Option<StatusOutcome>)
    ensures
        outcome matches Some(StatusOutcome::Finished(is_success)) ==> if is_success {
            outcome == Some(StatusOutcome::Finished(true))
        } else {
            outcome == Some(StatusOutcome::Finished(false))
        },
{
    if let Some(StatusOutcome::Finished(is_success)) = outcome {
        if is_success {
            assert(outcome->Some_0 == StatusOutcome::Finished(true));
        } else {
            assert(outcome->Some_0 == StatusOutcome::Finished(false));
        }
    }
}

/// The binary that is looked for and installed is that of the build: `target/release` in the
/// worktree. The worktree is made at the commit of the version, and the same one is removed.
pub proof fn law_build_stays_in_its_worktree(
    layout: LayoutView,
    tool: RepoTool,
    version: ToolVersion,
    worktree: Seq<char>,
    progress: BuildProgress,
    step: BuildStep,
)
    requires
        is_build_step(layout, tool, version, worktree, progress, step),
    ensures
        ({
            let release = joined_path(
                layout.platform,
                joined_path(layout.platform, worktree, "target"@),
                "release"@,
            );
            let binary = joined_path(
                layout.platform,
                release,
                exe_name(layout.platform, tool.binary_name@),
            );
            match step {
                BuildStep::Check(path) => path@ == binary,
                BuildStep::Install(path) => path@ == binary,
                BuildStep::Create(command) => {
                    &&& command.program@ == "git"@
                    &&& command.arguments@.len() == 7
                    &&& command.arguments@[1]@ == repo_in(layout)
                    &&& command.arguments@[2]@ == "worktree"@
                    &&& command.arguments@[3]@ == "add"@
                    &&& command.arguments@[5]@ == worktree
                    &&& command.arguments@[6]@ == version.commit@
                },
                BuildStep::Remove(command) => {
                    &&& command.program@ == "git"@
                    &&& command.arguments@.len() == 6
                    &&& command.arguments@[1]@ == repo_in(layout)
                    &&& command.arguments@[2]@ == "worktree"@
                    &&& command.arguments@[3]@ == "remove"@
                    &&& command.arguments@[5]@ == worktree
                },
                BuildStep::Build(command) => {
                    &&& command.program@ == "cargo"@
                    &&& command.directory matches Some(directory) && directory@ == worktree
                    &&& command.arguments@.len() == 6
                    &&& command.arguments@[0]@ == "build"@
                    &&& command.arguments@[1]@ == "--release"@
                    &&& command.arguments@[3]@ == joined_path(
                        layout.platform,
                        worktree,
                        part_inside(layout.platform, tool.manifest_path@, repo_in(layout)),
                    )
                    &&& command.arguments@[5]@ == tool.binary_name@
                },
                _ => true,
            }
        }),
{
    match step {
        BuildStep::Create(command) => lemma_argument_views(command),
        BuildStep::Remove(command) => lemma_argument_views(command),
        BuildStep::Build(command) => lemma_argument_views(command),
        _ => {},
    }
}

proof fn lemma_argument_views(command: CommandPlan)
    ensures
        views(command.arguments@).len() == command.arguments@.len(),
        forall|at: int|
            0 <= at < command.arguments@.len() ==> views(command.arguments@)[at] == (
            #[trigger] command.arguments@[at])@,
{
}

/// Why a build fails: its directories could not be made, or the worktree, or it does not succeed in
/// the worktree, or the worktree could not be removed. Where the last two come together both are
/// told.
pub proof fn law_build_fails_for_a_reason(
    layout: LayoutView,
    tool: RepoTool,
    version: ToolVersion,
    worktree: Seq<char>,
    progress: BuildProgress,
    why: String,
)
    requires
        is_build_step(layout, tool, version, worktree, progress, BuildStep::Failed(why)),
    ensures
        progress.prepared is Some,
        progress.prepared matches Some(Err(detail)) ==> why@ == detail@,
        progress.prepared matches Some(Ok(_)) ==> {
            &&& progress.created matches Some(created)
            &&& created != StatusOutcome::Finished(true) ==> status_fault(
                created,
                "create temporary git worktree"@,
            ) == Some(why@)
            &&& created == StatusOutcome::Finished(true) ==> {
                let fault = status_fault(
                    progress.removed->Some_0,
                    "remove temporary git worktree"@,
                );
                &&& progress.removed is Some
                &&& match inner_end(layout, tool, version, worktree, progress) {
                    Some(Ok(_)) => fault == Some(why@),
                    Some(Err(cause)) => holds_part(why@, cause) && (fault is None ==> why@ == cause)
                        && (fault matches Some(also) ==> holds_part(why@, also)),
                    None => false,
                }
            }
        },
{
    lemma_outcomes(progress.created);
    lemma_outcomes(progress.removed);
    if let (Some(Err(cause)), Some(removed)) = (
        inner_end(layout, tool, version, worktree, progress),
        progress.removed,
    ) {
        if let Some(also) = status_fault(removed, "remove temporary git worktree"@) {
            let front = "temporary worktree cleanup also failed: "@;
            let both = front + also + ": "@ + cause;
            assert(both =~= front + also + (": "@ + cause));
            lemma_part_is_held(front, also, ": "@ + cause);
            assert(both =~= (front + also + ": "@) + cause + Seq::<char>::empty());
            lemma_part_is_held(front + also + ": "@, cause, Seq::empty());
        }
        assert(cause =~= Seq::<char>::empty() + cause + Seq::<char>::empty());
        lemma_part_is_held(Seq::empty(), cause, Seq::empty());
    }
}

/// How it goes in the worktree: it fails where the manifest is not of the clone, the build does not
/// succeed, or its binary is not there or cannot be installed; and it is over when it failed or the
/// binary was installed.
pub proof fn law_build_in_the_worktree(
    layout: LayoutView,
    tool: RepoTool,
    version: ToolVersion,
    worktree: Seq<char>,
    progress: BuildProgress,
)
    ensures
        ({
            let is_inside_repo = is_inside(layout.platform, tool.manifest_path@, repo_in(layout));
            let is_built = progress.built == Some(StatusOutcome::Finished(true));
            match inner_end(layout, tool, version, worktree, progress) {
                None => is_inside_repo && (progress.built is None || (is_built && (progress.exists
                    is None || (progress.exists == Some(true) && progress.installed is None)))),
                Some(Ok(path)) => is_inside_repo && is_built && progress.exists == Some(true) && (
                progress.installed matches Some(Ok(place)) && path == place@),
                Some(Err(why)) => {
                    ||| !is_inside_repo && holds_part(why, tool.manifest_path@)
                    ||| is_inside_repo && progress.built is Some && !is_built && status_fault(
                        progress.built->Some_0,
                        build_description(tool, version),
                    ) == Some(why)
                    ||| is_inside_repo && is_built && progress.exists == Some(false) && holds_part(
                        why,
                        built_binary(layout.platform, worktree, tool.binary_name@),
                    )
                    ||| is_inside_repo && is_built && progress.exists == Some(true) && (
                    progress.installed matches Some(Err(detail)) && why == detail@)
                },
            }
        }),
{
    lemma_outcomes(progress.built);
    if let Some(is_there) = progress.exists {
        if is_there {
            assert(progress.exists == Some(true));
        } else {
            assert(progress.exists == Some(false));
        }
    }
    let path = tool.manifest_path@;
    let back = " is not inside "@ + repo_in(layout) + ": prefix not found"@;
    assert(outside_text(path, repo_in(layout)) =~= Seq::<char>::empty() + path + back);
    lemma_part_is_held(Seq::empty(), path, back);
    let binary = built_binary(layout.platform, worktree, tool.binary_name@);
    let front = "built binary was not found at "@;
    assert(front + binary =~= front + binary + Seq::<char>::empty());
    lemma_part_is_held(front, binary, Seq::empty());
}

} // verus!
