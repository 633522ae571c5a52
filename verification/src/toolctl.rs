//! Building tools from the source repository and keeping them installed.

use vstd::prelude::*;

use crate::ascii::{is_alphanumeric, is_ascii_alphanumeric};
use crate::catalog::RepoTool;
use crate::commands::{is_command, CommandPlan};
use crate::digits::{decimal, decimal_of, law_numeral_is_read_back, lemma_decimal_digits, number_in};
use crate::discovery::{is_bin_result, tools_home_of, DiscoveryError, ToolsEnvironment};
use crate::exe_names::{exe_name, with_exe_suffix};
use crate::layout::{
    binary_in, law_data_stays_at_home, repo_in, worktrees_in, InstallLayout, InstalledToolRecord,
    LayoutView,
};
use crate::path_laws::{
    is_one_piece, is_plain_name, is_tidy_relative, law_join_adds_a_component, law_join_is_undone,
    lemma_body_has_no_prefix, lemma_letters_have_no_prefix, takes_names,
};
use crate::paths::{
    components, file_name_of, has_drive_dot, is_inside, join_path, joined_path, marks, part_inside,
    root_end, strip_prefix, ComponentView,
};
use crate::platform::Platform;
use crate::prefixes::{is_drive_at, is_separator, is_verbatim, prefix_of};
use crate::text::{chars_of, concat, holds_part, lemma_part_is_held, owned, views};
use crate::tool_versions::{lemma_part_is_prefix, short_commit, short_of, ToolVersion};

verus! {

/// The control program, with the layout that it works on.
#[derive(Debug, PartialEq, Eq)]
pub struct ToolctlContext {
    pub layout: InstallLayout,
}

/// What a tool could not be built or run for.
#[derive(Debug, PartialEq, Eq)]
pub enum ToolctlError {
    MissingCache(String),
    OutsideRepo(String, String),
    MissingBuild(String),
    MissingBinary(String, String),
    Unlaunchable(String, String),
}

/// How the clone of the source repository is made ready.
#[derive(Debug, PartialEq, Eq)]
pub enum CachePlan {
    /// It is used as it is.
    Use,
    /// These commands are run first.
    Sync(Vec<CommandPlan>),
}

/// How a tool is built: the command, and where the binary is then.
#[derive(Debug, PartialEq, Eq)]
pub struct BuildPlan {
    pub command: CommandPlan,
    pub binary_path: String,
}

impl ToolctlError {
    /// What the error says.
    pub open spec fn text(self) -> Seq<char> {
        match self {
            ToolctlError::MissingCache(path) => "repo cache is missing at "@ + path@
                + "; run `toolctl sync` or omit --no-sync"@,
            ToolctlError::OutsideRepo(path, repo) => outside_text(path@, repo@),
            ToolctlError::MissingBuild(path) => "built binary was not found at "@ + path@,
            ToolctlError::MissingBinary(name, path) => "managed binary '"@ + name@
                + "' was not found at "@ + path@,
            ToolctlError::Unlaunchable(path, detail) => "failed to launch "@ + path@ + ": "@
                + detail@,
        }
    }

    /// Says what a tool could not be built or run for.
    pub fn message(&self) -> (message: String)
        ensures
            message@ == self.text(),
    {
        match self {
            ToolctlError::MissingCache(path) => {
                let mut message = concat("repo cache is missing at ", path.as_str());
                message.append("; run `toolctl sync` or omit --no-sync");
                message
            },
            ToolctlError::OutsideRepo(path, repo) => {
                let mut message = concat(path.as_str(), " is not inside ");
                message.append(repo.as_str());
                message.append(": prefix not found");
                message
            },
            ToolctlError::MissingBuild(path) => concat(
                "built binary was not found at ",
                path.as_str(),
            ),
            ToolctlError::MissingBinary(name, path) => {
                let mut message = concat("managed binary '", name.as_str());
                message.append("' was not found at ");
                message.append(path.as_str());
                message
            },
            ToolctlError::Unlaunchable(path, detail) => {
                let mut message = concat("failed to launch ", path.as_str());
                message.append(": ");
                message.append(detail.as_str());
                message
            },
        }
    }
}

/// What is said of a manifest that is not in the clone.
pub open spec fn outside_text(path: Seq<char>, repo: Seq<char>) -> Seq<char> {
    path + " is not inside "@ + repo + ": prefix not found"@
}

/// The source repository.
pub open spec fn repository_url() -> Seq<char> {
    "https://github.com/on9au/tools.git"@
}

/// The arguments that bring all of the remote repository into a clone.
pub open spec fn fetch_arguments(repo: Seq<char>) -> Seq<Seq<char>> {
    seq!["-C"@, repo, "fetch"@, "--all"@, "--tags"@, "--prune"@]
}

/// The arguments that go to the default branch of a clone.
pub open spec fn checkout_arguments(repo: Seq<char>) -> Seq<Seq<char>> {
    seq!["-C"@, repo, "checkout"@, "main"@]
}

/// The arguments that bring the default branch of a clone up to date.
pub open spec fn pull_arguments(repo: Seq<char>) -> Seq<Seq<char>> {
    seq!["-C"@, repo, "pull"@, "--ff-only"@, "origin"@, "main"@]
}

/// The arguments that make a clone.
pub open spec fn clone_arguments(repo: Seq<char>) -> Seq<Seq<char>> {
    seq!["clone"@, "--branch"@, "main"@, "--single-branch"@, repository_url(), repo]
}

/// Whether these commands bring the clone up to date, or make it where there is none.
pub open spec fn are_sync_commands(
    repo: Seq<char>,
    has_clone: bool,
    commands: Seq<CommandPlan>,
) -> bool {
    if has_clone {
        &&& commands.len() == 3
        &&& is_command(commands[0], "git"@, fetch_arguments(repo), "fetch tool repository"@)
        &&& is_command(commands[1], "git"@, checkout_arguments(repo), "checkout default branch"@)
        &&& is_command(commands[2], "git"@, pull_arguments(repo), "pull latest default branch"@)
    } else {
        &&& commands.len() == 1
        &&& is_command(commands[0], "git"@, clone_arguments(repo), "clone tool repository"@)
    }
}

/// A command of git.
fn git_command(arguments: Vec<String>, description: &str) -> (plan: CommandPlan)
    ensures
        is_command(plan, "git"@, views(arguments@), description@),
{
    CommandPlan {
        program: owned("git"),
        arguments,
        directory: None,
        description: owned(description),
    }
}

/// The commands that bring the clone up to date, or make it where there is none.
pub fn sync_commands(layout: &InstallLayout, has_clone: bool) -> (commands: Vec<CommandPlan>)
    ensures
        are_sync_commands(repo_in(layout@), has_clone, commands@),
{
    let repo = layout.repo_dir();
    let mut commands: Vec<CommandPlan> = Vec::new();
    if has_clone {
        let mut fetch: Vec<String> = Vec::new();
        fetch.push(owned("-C"));
        fetch.push(owned(repo));
        fetch.push(owned("fetch"));
        fetch.push(owned("--all"));
        fetch.push(owned("--tags"));
        fetch.push(owned("--prune"));
        assert(views(fetch@) =~= fetch_arguments(repo@));
        let mut checkout: Vec<String> = Vec::new();
        checkout.push(owned("-C"));
        checkout.push(owned(repo));
        checkout.push(owned("checkout"));
        checkout.push(owned("main"));
        assert(views(checkout@) =~= checkout_arguments(repo@));
        let mut pull: Vec<String> = Vec::new();
        pull.push(owned("-C"));
        pull.push(owned(repo));
        pull.push(owned("pull"));
        pull.push(owned("--ff-only"));
        pull.push(owned("origin"));
        pull.push(owned("main"));
        assert(views(pull@) =~= pull_arguments(repo@));
        commands.push(git_command(fetch, "fetch tool repository"));
        commands.push(git_command(checkout, "checkout default branch"));
        commands.push(git_command(pull, "pull latest default branch"));
    } else {
        let mut clone: Vec<String> = Vec::new();
        clone.push(owned("clone"));
        clone.push(owned("--branch"));
        clone.push(owned("main"));
        clone.push(owned("--single-branch"));
        clone.push(owned("https://github.com/on9au/tools.git"));
        clone.push(owned(repo));
        assert(views(clone@) =~= clone_arguments(repo@));
        commands.push(git_command(clone, "clone tool repository"));
    }
    commands
}

/// Requires that there is a clone.
pub fn ensure_repo_cache_exists(layout: &InstallLayout, has_clone: bool) -> (result: Result<
    (),
    ToolctlError,
>)
    ensures
        match result {
            Ok(_) => has_clone,
            Err(error) => {
                &&& !has_clone
                &&& error matches ToolctlError::MissingCache(path)
                &&& path@ == repo_in(layout@)
            },
        },
{
    if has_clone {
        Ok(())
    } else {
        Err(ToolctlError::MissingCache(owned(layout.repo_dir())))
    }
}

impl ToolctlContext {
    /// The control program on the layout that is found out.
    pub fn new(platform: Platform, environment: &ToolsEnvironment) -> (result: Result<
        ToolctlContext,
        DiscoveryError,
    >)
        ensures
            match tools_home_of(platform, *environment) {
                Some(home) => match result {
                    Ok(context) => context.layout@.platform == platform && context.layout@.home
                        == home && exists|bin: String|
                        context.layout@.bin == bin@ && #[trigger] is_bin_result(
                            platform,
                            *environment,
                            Ok::<String, DiscoveryError>(bin),
                        ),
                    Err(error) => is_bin_result(
                        platform,
                        *environment,
                        Err::<String, DiscoveryError>(error),
                    ),
                },
                None => result == Err::<ToolctlContext, DiscoveryError>(
                    DiscoveryError::NoToolsHome,
                ),
            },
    {
        match InstallLayout::discover(platform, environment) {
            Ok(layout) => Ok(ToolctlContext { layout }),
            Err(error) => Err(error),
        }
    }

    /// The commands that bring the clone up to date.
    pub fn sync_repo(&self, has_clone: bool) -> (commands: Vec<CommandPlan>)
        ensures
            are_sync_commands(repo_in(self.layout@), has_clone, commands@),
    {
        sync_commands(&self.layout, has_clone)
    }

    /// How the clone is made ready: without syncing it has to be there already.
    pub fn prepare_repo_cache(&self, no_sync: bool, has_clone: bool) -> (result: Result<
        CachePlan,
        ToolctlError,
    >)
        ensures
            if no_sync {
                match result {
                    Ok(plan) => has_clone && plan is Use,
                    Err(error) => {
                        &&& !has_clone
                        &&& error matches ToolctlError::MissingCache(path)
                        &&& path@ == repo_in(self.layout@)
                    },
                }
            } else {
                &&& result matches Ok(CachePlan::Sync(commands))
                &&& are_sync_commands(repo_in(self.layout@), has_clone, commands@)
            },
    {
        if no_sync {
            match ensure_repo_cache_exists(&self.layout, has_clone) {
                Ok(_) => Ok(CachePlan::Use),
                Err(error) => Err(error),
            }
        } else {
            Ok(CachePlan::Sync(self.sync_repo(has_clone)))
        }
    }
}

/// The arguments that list the packages of the clone.
pub open spec fn metadata_arguments(platform: Platform, repo: Seq<char>) -> Seq<Seq<char>> {
    seq![
        "metadata"@,
        "--format-version"@,
        "1"@,
        "--no-deps"@,
        "--manifest-path"@,
        joined_path(platform, repo, "Cargo.toml"@),
    ]
}

/// The command that lists the packages of the clone.
pub fn metadata_command(layout: &InstallLayout) -> (plan: CommandPlan)
    ensures
        is_command(
            plan,
            "cargo"@,
            metadata_arguments(layout@.platform, repo_in(layout@)),
            "read cargo metadata"@,
        ),
{
    let mut arguments: Vec<String> = Vec::new();
    arguments.push(owned("metadata"));
    arguments.push(owned("--format-version"));
    arguments.push(owned("1"));
    arguments.push(owned("--no-deps"));
    arguments.push(owned("--manifest-path"));
    arguments.push(join_path(layout.platform(), layout.repo_dir(), "Cargo.toml"));
    assert(views(arguments@) =~= metadata_arguments(layout@.platform, repo_in(layout@)));
    CommandPlan {
        program: owned("cargo"),
        arguments,
        directory: None,
        description: owned("read cargo metadata"),
    }
}

/// The arguments that log the last commits of a directory.
pub open spec fn log_arguments(repo: Seq<char>, directory: Seq<char>, limit: nat) -> Seq<
    Seq<char>,
> {
    seq![
        "-C"@,
        repo,
        "log"@,
        "-n"@ + decimal(limit),
        "--format=%H%x09%cs%x09%s"@,
        "--"@,
        directory,
    ]
}

/// The command that logs the last commits of a directory.
pub fn log_command(layout: &InstallLayout, package_dir: &str, limit: usize) -> (plan: CommandPlan)
    ensures
        is_command(
            plan,
            "git"@,
            log_arguments(repo_in(layout@), package_dir@, limit as nat),
            "read tool versions from git history"@,
        ),
{
    let mut arguments: Vec<String> = Vec::new();
    arguments.push(owned("-C"));
    arguments.push(owned(layout.repo_dir()));
    arguments.push(owned("log"));
    arguments.push(concat("-n", decimal_of(limit as u64).as_str()));
    arguments.push(owned("--format=%H%x09%cs%x09%s"));
    arguments.push(owned("--"));
    arguments.push(owned(package_dir));
    assert(views(arguments@) =~= log_arguments(
        repo_in(layout@),
        package_dir@,
        limit as nat,
    ));
    git_command(arguments, "read tool versions from git history")
}

/// The arguments that show the commit of a reference.
pub open spec fn show_arguments(repo: Seq<char>, reference: Seq<char>) -> Seq<Seq<char>> {
    seq!["-C"@, repo, "show"@, "--no-patch"@, "--format=%H%x09%cs%x09%s"@, reference]
}

/// The command that shows the commit of a reference.
pub fn show_command(layout: &InstallLayout, reference: &str) -> (plan: CommandPlan)
    ensures
        is_command(
            plan,
            "git"@,
            show_arguments(repo_in(layout@), reference@),
            "resolve git reference"@,
        ),
{
    let mut arguments: Vec<String> = Vec::new();
    arguments.push(owned("-C"));
    arguments.push(owned(layout.repo_dir()));
    arguments.push(owned("show"));
    arguments.push(owned("--no-patch"));
    arguments.push(owned("--format=%H%x09%cs%x09%s"));
    arguments.push(owned(reference));
    assert(views(arguments@) =~= show_arguments(repo_in(layout@), reference@));
    git_command(arguments, "resolve git reference")
}

/// The character that stands for a character in the name of a directory.
pub open spec fn safe_char(character: char) -> char {
    if is_alphanumeric(character) || character == '-' {
        character
    } else {
        '-'
    }
}

/// A name made of ASCII letters, digits and dashes only.
pub open spec fn safe_name(name: Seq<char>) -> Seq<char> {
    name.map_values(|character: char| safe_char(character))
}

/// Makes a name of ASCII letters, digits and dashes only.
pub fn sanitize_name(input: &str) -> (name: String)
    ensures
        name@ == safe_name(input@),
{
    let chars = chars_of(input);
    let mut name = String::new();
    let mut at: usize = 0;
    while at < chars.len()
        invariant
            at <= chars@.len(),
            name@ == safe_name(chars@.take(at as int)),
        decreases chars@.len() - at,
    {
        let character = chars[at];
        if is_ascii_alphanumeric(character) || character == '-' {
            name.push(character);
        } else {
            name.push('-');
        }
        at += 1;
        assert(name@ =~= safe_name(chars@.take(at as int)));
    }
    assert(chars@.take(at as int) =~= chars@);
    name
}

/// The name of a worktree.
pub open spec fn worktree_name(
    tool: Seq<char>,
    commit: Seq<char>,
    process_id: nat,
    unix_seconds: nat,
) -> Seq<char> {
    safe_name(tool) + "-"@ + short_of(commit)->Some_0 + "-"@ + decimal(process_id) + "-"@ + decimal(
        unix_seconds,
    )
}

/// The path of a worktree.
pub fn worktree_path(
    layout: &InstallLayout,
    tool_name: &str,
    reference: &str,
    process_id: u32,
    unix_seconds: u64,
) -> (path: String)
    requires
        short_of(reference@) is Some,
    ensures
        path@ == joined_path(
            layout@.platform,
            worktrees_in(layout@),
            worktree_name(tool_name@, reference@, process_id as nat, unix_seconds as nat),
        ),
{
    let mut name = sanitize_name(tool_name);
    name.append("-");
    name.append(short_commit(reference).as_str());
    name.append("-");
    name.append(decimal_of(process_id as u64).as_str());
    name.append("-");
    name.append(decimal_of(unix_seconds).as_str());
    join_path(layout.platform(), layout.worktrees_dir(), name.as_str())
}

/// The arguments that make a worktree at a commit.
pub open spec fn worktree_add_arguments(
    repo: Seq<char>,
    worktree: Seq<char>,
    reference: Seq<char>,
) -> Seq<Seq<char>> {
    seq!["-C"@, repo, "worktree"@, "add"@, "--detach"@, worktree, reference]
}

/// The command that makes a worktree at a commit.
pub fn create_worktree(layout: &InstallLayout, worktree_path: &str, reference: &str) -> (plan:
    CommandPlan)
    ensures
        is_command(
            plan,
            "git"@,
            worktree_add_arguments(repo_in(layout@), worktree_path@, reference@),
            "create temporary git worktree"@,
        ),
{
    let mut arguments: Vec<String> = Vec::new();
    arguments.push(owned("-C"));
    arguments.push(owned(layout.repo_dir()));
    arguments.push(owned("worktree"));
    arguments.push(owned("add"));
    arguments.push(owned("--detach"));
    arguments.push(owned(worktree_path));
    arguments.push(owned(reference));
    assert(views(arguments@) =~= worktree_add_arguments(
        repo_in(layout@),
        worktree_path@,
        reference@,
    ));
    git_command(arguments, "create temporary git worktree")
}

/// The arguments that remove a worktree.
pub open spec fn worktree_remove_arguments(repo: Seq<char>, worktree: Seq<char>) -> Seq<Seq<char>> {
    seq!["-C"@, repo, "worktree"@, "remove"@, "--force"@, worktree]
}

/// The command that removes a worktree.
pub fn remove_worktree(repo_dir: &str, worktree_path: &str) -> (plan: CommandPlan)
    ensures
        is_command(
            plan,
            "git"@,
            worktree_remove_arguments(repo_dir@, worktree_path@),
            "remove temporary git worktree"@,
        ),
{
    let mut arguments: Vec<String> = Vec::new();
    arguments.push(owned("-C"));
    arguments.push(owned(repo_dir));
    arguments.push(owned("worktree"));
    arguments.push(owned("remove"));
    arguments.push(owned("--force"));
    arguments.push(owned(worktree_path));
    assert(views(arguments@) =~= worktree_remove_arguments(repo_dir@, worktree_path@));
    git_command(arguments, "remove temporary git worktree")
}

/// The manifest in a worktree that stands for a manifest in the clone.
pub fn worktree_manifest_path(
    layout: &InstallLayout,
    worktree_path: &str,
    manifest_path: &str,
) -> (result: Result<String, ToolctlError>)
    ensures
        match result {
            Ok(path) => is_inside(layout@.platform, manifest_path@, repo_in(layout@)) && path@
                == joined_path(
                layout@.platform,
                worktree_path@,
                part_inside(layout@.platform, manifest_path@, repo_in(layout@)),
            ),
            Err(error) => {
                &&& !is_inside(layout@.platform, manifest_path@, repo_in(layout@))
                &&& error matches ToolctlError::OutsideRepo(path, repo)
                &&& path@ == manifest_path@
                &&& repo@ == repo_in(layout@)
            },
        },
{
    match strip_prefix(layout.platform(), manifest_path, layout.repo_dir()) {
        Some(part) => Ok(join_path(layout.platform(), worktree_path, part.as_str())),
        None => Err(ToolctlError::OutsideRepo(owned(manifest_path), owned(layout.repo_dir()))),
    }
}

/// The path of a binary that was built in a worktree.
pub open spec fn built_binary(platform: Platform, worktree: Seq<char>, name: Seq<char>) -> Seq<
    char,
> {
    joined_path(
        platform,
        joined_path(platform, joined_path(platform, worktree, "target"@), "release"@),
        exe_name(platform, name),
    )
}

/// The path of a binary that was built in a worktree.
pub fn built_binary_path(platform: Platform, worktree_path: &str, binary_name: &str) -> (path:
    String)
    ensures
        path@ == built_binary(platform, worktree_path@, binary_name@),
{
    let target = join_path(platform, worktree_path, "target");
    let release = join_path(platform, target.as_str(), "release");
    join_path(platform, release.as_str(), with_exe_suffix(platform, binary_name).as_str())
}

/// Requires that a binary was built.
pub fn ensure_built_binary_exists(binary_path: &str, exists: bool) -> (result: Result<
    (),
    ToolctlError,
>)
    ensures
        match result {
            Ok(_) => exists,
            Err(error) => {
                &&& !exists
                &&& error matches ToolctlError::MissingBuild(path)
                &&& path@ == binary_path@
            },
        },
{
    if exists {
        Ok(())
    } else {
        Err(ToolctlError::MissingBuild(owned(binary_path)))
    }
}

/// The arguments that build a tool.
pub open spec fn build_arguments(manifest: Seq<char>, binary: Seq<char>) -> Seq<Seq<char>> {
    seq!["build"@, "--release"@, "--manifest-path"@, manifest, "--bin"@, binary]
}

/// What a build is for.
pub open spec fn build_description(tool: RepoTool, version: ToolVersion) -> Seq<char> {
    "build "@ + tool.binary_name@ + " at "@ + short_of(version.commit@)->Some_0
}

/// Whether a command builds a tool in a worktree.
pub open spec fn is_build_plan(
    layout: LayoutView,
    tool: RepoTool,
    version: ToolVersion,
    worktree: Seq<char>,
    command: CommandPlan,
) -> bool {
    &&& command.program@ == "cargo"@
    &&& views(command.arguments@) == build_arguments(
        joined_path(
            layout.platform,
            worktree,
            part_inside(layout.platform, tool.manifest_path@, repo_in(layout)),
        ),
        tool.binary_name@,
    )
    &&& command.directory matches Some(directory)
    &&& directory@ == worktree
    &&& command.description@ == build_description(tool, version)
}

/// How a tool is built in a worktree.
pub fn build_tool(
    layout: &InstallLayout,
    worktree_path: &str,
    tool: &RepoTool,
    version: &ToolVersion,
) -> (result: Result<BuildPlan, ToolctlError>)
    requires
        short_of(version.commit@) is Some,
    ensures
        match result {
            Ok(plan) => {
                &&& is_inside(layout@.platform, tool.manifest_path@, repo_in(layout@))
                &&& is_build_plan(layout@, *tool, *version, worktree_path@, plan.command)
                &&& plan.binary_path@ == built_binary(
                    layout@.platform,
                    worktree_path@,
                    tool.binary_name@,
                )
            },
            Err(error) => {
                &&& !is_inside(layout@.platform, tool.manifest_path@, repo_in(layout@))
                &&& error matches ToolctlError::OutsideRepo(path, repo)
                &&& path@ == tool.manifest_path@
                &&& repo@ == repo_in(layout@)
            },
        },
{
    let manifest = match worktree_manifest_path(
        layout,
        worktree_path,
        tool.manifest_path.as_str(),
    ) {
        Ok(manifest) => manifest,
        Err(error) => return Err(error),
    };
    let ghost manifest_text = manifest@;
    let mut arguments: Vec<String> = Vec::new();
    arguments.push(owned("build"));
    arguments.push(owned("--release"));
    arguments.push(owned("--manifest-path"));
    arguments.push(manifest);
    arguments.push(owned("--bin"));
    arguments.push(tool.binary_name.clone());
    assert(views(arguments@) =~= build_arguments(manifest_text, tool.binary_name@));
    let mut description = concat("build ", tool.binary_name.as_str());
    description.append(" at ");
    description.append(short_commit(version.commit.as_str()).as_str());
    let command = CommandPlan {
        program: owned("cargo"),
        arguments,
        directory: Some(owned(worktree_path)),
        description,
    };
    Ok(
        BuildPlan {
            command,
            binary_path: built_binary_path(
                layout.platform(),
                worktree_path,
                tool.binary_name.as_str(),
            ),
        },
    )
}

/// A moment as text: the seconds since the beginning of 1970.
pub fn iso_like_timestamp(unix_seconds: u64) -> (text: String)
    ensures
        text@ == decimal(unix_seconds as nat),
{
    decimal_of(unix_seconds)
}

/// The record of a tool that was installed at a moment.
pub fn installed_record(tool: &RepoTool, version: &ToolVersion, unix_seconds: u64) -> (record:
    InstalledToolRecord)
    ensures
        record.tool_name@ == tool.binary_name@,
        record.package_name@ == tool.package_name@,
        record.commit@ == version.commit@,
        record.commit_date@ == version.commit_date@,
        record.installed_at@ == decimal(unix_seconds as nat),
        record.repository_url@ == repository_url(),
{
    InstalledToolRecord {
        tool_name: tool.binary_name.clone(),
        package_name: tool.package_name.clone(),
        commit: version.commit.clone(),
        commit_date: version.commit_date.clone(),
        installed_at: iso_like_timestamp(unix_seconds),
        repository_url: owned("https://github.com/on9au/tools.git"),
    }
}

/// The path of a managed binary that is to be run; it has to be there.
pub fn binary_to_run(
    layout: &InstallLayout,
    binary_name: &str,
    exists: bool,
) -> (result: Result<String, ToolctlError>)
    ensures
        match result {
            Ok(path) => exists && path@ == binary_in(layout@, binary_name@),
            Err(error) => {
                &&& !exists
                &&& error matches ToolctlError::MissingBinary(name, path)
                &&& name@ == binary_name@
                &&& path@ == binary_in(layout@, binary_name@)
            },
        },
{
    let path = layout.binary_path(binary_name);
    if exists {
        Ok(path)
    } else {
        Err(ToolctlError::MissingBinary(owned(binary_name), path))
    }
}

/// The exit code that is handed on: the low byte of that of the binary, and 1 where it was killed.
pub fn exit_code(status: Option<i32>) -> (code: u8)
    ensures
        match status {
            Some(value) => code == (value as int) % 256,
            None => code == 1,
        },
{
    match status {
        Some(value) => {
            let shifted: i64 = value as i64 + 2147483648;
            let low: u64 = (shifted as u64) % 256;
            assert(low == (value as int + 2147483648) % 256);
            assert((value as int + 2147483648) % 256 == (value as int) % 256);
            low as u8
        },
        None => 1,
    }
}

/// The worktree of a build stands in the directory of worktrees, under a name that holds no
/// separators, whatever the tool is called.
pub proof fn law_worktree_stays_in_its_directory(
    layout: LayoutView,
    tool: Seq<char>,
    commit: Seq<char>,
    process_id: nat,
    unix_seconds: nat,
)
    requires
        short_of(commit) is Some,
        is_one_piece(layout.platform, commit),
        takes_names(layout.platform, layout.home),
    ensures
        ({
            let name = worktree_name(tool, commit, process_id, unix_seconds);
            let path = joined_path(layout.platform, worktrees_in(layout), name);
            &&& is_plain_name(layout.platform, name)
            &&& is_inside(layout.platform, path, worktrees_in(layout))
            &&& file_name_of(layout.platform, path) == Some(name)
        }),
{
    reveal_strlit("-");
    let name = worktree_name(tool, commit, process_id, unix_seconds);
    let safe = safe_name(tool);
    let short = short_of(commit)->Some_0;
    let first = decimal(process_id);
    let second = decimal(unix_seconds);
    lemma_decimal_digits(process_id);
    lemma_decimal_digits(unix_seconds);
    lemma_part_is_prefix(commit, 8);
    assert(name.len() > 2);
    assert forall|at: int| 0 <= at < name.len() implies !is_separator(
        layout.platform,
        false,
        #[trigger] name[at],
    ) by {
        let one = safe.len() as int;
        let two = one + 1 + short.len();
        let three = two + 1 + first.len();
        if at < one {
            assert(name[at] == safe[at]);
            assert(safe[at] == safe_char(tool[at]));
        } else if one < at < two {
            assert(name[at] == short[at - one - 1]);
            assert(short[at - one - 1] == commit[at - one - 1]);
            assert(!is_separator(layout.platform, false, commit[at - one - 1]));
        } else if two < at < three {
            assert(name[at] == first[at - two - 1]);
        } else if three < at {
            assert(name[at] == second[at - three - 1]);
        }
    }
    assert(!is_drive_at(name, 0)) by {
        if safe.len() > 1 {
            assert(name[1] == safe[1]);
            assert(safe[1] == safe_char(tool[1]));
        } else if safe.len() == 0 {
            assert(name[0] == '-');
        }
    }
    lemma_letters_have_no_prefix(layout.platform, name);
    law_data_stays_at_home(layout);
    law_join_adds_a_component(layout.platform, worktrees_in(layout), name);
}

/// The clone has the prefix of the home, and more components than that.
proof fn lemma_repo_is_no_drive(layout: LayoutView)
    requires
        takes_names(layout.platform, layout.home),
        !is_verbatim(layout.platform, layout.home),
    ensures
        !is_verbatim(layout.platform, repo_in(layout)),
        !(components(layout.platform, repo_in(layout)).len() == 1 && has_drive_dot(
            layout.platform,
            repo_in(layout),
        )),
{
    reveal_strlit("repo");
    assert("repo"@[1] != ':');
    lemma_letters_have_no_prefix(layout.platform, "repo"@);
    law_join_adds_a_component(layout.platform, layout.home, "repo"@);
    let all = components(layout.platform, repo_in(layout));
    if prefix_of(layout.platform, repo_in(layout)) is Some {
        assert(all[0] == marks(layout.platform, repo_in(layout))[0].component);
        assert(all[0] is Prefix);
        if all.len() == 1 {
            assert(all[0] == ComponentView::Normal("repo"@));
        } else {
            assert(all[0] == components(layout.platform, layout.home)[0]);
            lemma_first_is_prefix(layout.platform, layout.home);
        }
    }
}

/// A path whose first component is a prefix has that prefix.
proof fn lemma_first_is_prefix(platform: Platform, path: Seq<char>)
    requires
        components(platform, path).len() > 0,
        components(platform, path)[0] is Prefix,
    ensures
        prefix_of(platform, path) == Some(components(platform, path)[0]->Prefix_0),
{
    lemma_body_has_no_prefix(
        platform,
        is_verbatim(platform, path),
        path,
        root_end(platform, path),
    );
}

/// A manifest stands at the same place in a worktree as in the clone.
pub proof fn law_manifest_keeps_its_place(layout: LayoutView, worktree: Seq<char>, place: Seq<char>)
    requires
        is_tidy_relative(layout.platform, place),
        takes_names(layout.platform, layout.home),
        !is_verbatim(layout.platform, layout.home),
    ensures
        ({
            let manifest = joined_path(layout.platform, repo_in(layout), place);
            &&& is_inside(layout.platform, manifest, repo_in(layout))
            &&& joined_path(
                layout.platform,
                worktree,
                part_inside(layout.platform, manifest, repo_in(layout)),
            ) == joined_path(layout.platform, worktree, place)
        }),
{
    law_data_stays_at_home(layout);
    lemma_repo_is_no_drive(layout);
    law_join_is_undone(layout.platform, repo_in(layout), place);
}

/// Making a name safe again changes nothing.
pub proof fn law_safe_names_stay(name: Seq<char>)
    ensures
        safe_name(safe_name(name)) == safe_name(name),
{
    assert(safe_name(safe_name(name)) =~= safe_name(name));
}

/// Of a name, letters, digits and hyphens stay as they are, and every other character becomes a
/// hyphen.
pub proof fn law_safe_names_keep_letters_and_digits(name: Seq<char>, at: int)
    requires
        0 <= at < name.len(),
    ensures
        safe_name(name).len() == name.len(),
        'a' <= name[at] <= 'z' || 'A' <= name[at] <= 'Z' || '0' <= name[at] <= '9'
            ==> safe_name(name)[at] == name[at],
        !('a' <= name[at] <= 'z' || 'A' <= name[at] <= 'Z' || '0' <= name[at] <= '9')
            ==> safe_name(name)[at] == '-',
{
}

/// A clone that is there is fetched, checked out and pulled, in this order; else one is made at its
/// place.
pub proof fn law_clone_is_made_or_brought_up_to_date(
    repo: Seq<char>,
    has_clone: bool,
    commands: Seq<CommandPlan>,
)
    requires
        are_sync_commands(repo, has_clone, commands),
    ensures
        forall|at: int| 0 <= at < commands.len() ==> (#[trigger] commands[at]).program@ == "git"@,
        has_clone ==> {
            &&& commands.len() == 3
            &&& forall|at: int|
                0 <= at < 3 ==> (#[trigger] commands[at]).arguments@.len() > 2
                    && commands[at].arguments@[0]@ == "-C"@ && commands[at].arguments@[1]@ == repo
            &&& commands[0].arguments@[2]@ == "fetch"@
            &&& commands[1].arguments@[2]@ == "checkout"@
            &&& commands[1].arguments@.last()@ == "main"@
            &&& commands[2].arguments@[2]@ == "pull"@
            &&& commands[2].arguments@.last()@ == "main"@
        },
        !has_clone ==> {
            &&& commands.len() == 1
            &&& commands[0].arguments@[0]@ == "clone"@
            &&& commands[0].arguments@[4]@ == "https://github.com/on9au/tools.git"@
            &&& commands[0].arguments@.last()@ == repo
        },
{
    assert forall|at: int| 0 <= at < commands.len() implies views(
        (#[trigger] commands[at]).arguments@,
    ).len() == commands[at].arguments@.len() && (forall|place: int|
        0 <= place < commands[at].arguments@.len() ==> views(commands[at].arguments@)[place] == (
        #[trigger] commands[at].arguments@[place])@) by {}
    if has_clone {
        assert(views(commands[0].arguments@) == fetch_arguments(repo));
        assert(views(commands[1].arguments@) == checkout_arguments(repo));
        assert(views(commands[2].arguments@) == pull_arguments(repo));
    } else {
        assert(views(commands[0].arguments@) == clone_arguments(repo));
    }
}

/// The name of a worktree tells the tool, the short commit, the process and the moment apart by
/// hyphens.
pub proof fn law_worktree_name_is_made_up(
    tool: Seq<char>,
    commit: Seq<char>,
    process_id: nat,
    unix_seconds: nat,
)
    ensures
        ({
            let name = worktree_name(tool, commit, process_id, unix_seconds);
            let behind = seq!['-'] + short_of(commit)->Some_0 + seq!['-'] + decimal(process_id)
                + seq!['-'] + decimal(unix_seconds);
            &&& name.len() == tool.len() + behind.len()
            &&& name.take(tool.len() as int) == safe_name(tool)
            &&& name.skip(tool.len() as int) == behind
        }),
{
    reveal_strlit("-");
    assert("-"@ =~= seq!['-']);
    let name = worktree_name(tool, commit, process_id, unix_seconds);
    let behind = seq!['-'] + short_of(commit)->Some_0 + seq!['-'] + decimal(process_id) + seq!['-']
        + decimal(unix_seconds);
    assert(name =~= safe_name(tool) + behind);
    assert(name.take(tool.len() as int) =~= safe_name(tool));
    assert(name.skip(tool.len() as int) =~= behind);
}

/// What is asked of the history: at most as many versions as wanted, of the directory, from the
/// clone.
pub proof fn law_history_is_asked_for(repo: Seq<char>, directory: Seq<char>, limit: nat)
    ensures
        log_arguments(repo, directory, limit).len() == 7,
        log_arguments(repo, directory, limit)[1] == repo,
        log_arguments(repo, directory, limit)[3].take(2) == "-n"@,
        number_in(log_arguments(repo, directory, limit)[3].skip(2), 10) == limit,
        log_arguments(repo, directory, limit)[5] == "--"@,
        log_arguments(repo, directory, limit)[6] == directory,
{
    reveal_strlit("-n");
    let word = log_arguments(repo, directory, limit)[3];
    assert(word.take(2) =~= "-n"@);
    assert(word.skip(2) =~= decimal(limit));
    law_numeral_is_read_back(limit, 10);
}

/// An error names the paths or the binary that it is about, and what was wrong.
pub proof fn law_errors_name_their_subject(error: ToolctlError)
    ensures
        ({
            let text = error.text();
            match error {
                ToolctlError::MissingCache(path) => holds_part(text, path@),
                ToolctlError::OutsideRepo(path, repo) => {
                    &&& holds_part(text, path@)
                    &&& holds_part(text, repo@)
                },
                ToolctlError::MissingBuild(path) => holds_part(text, path@),
                ToolctlError::MissingBinary(name, path) => {
                    &&& holds_part(text, name@)
                    &&& holds_part(text, path@)
                },
                ToolctlError::Unlaunchable(path, detail) => {
                    &&& holds_part(text, path@)
                    &&& holds_part(text, detail@)
                },
            }
        }),
{
    let text = error.text();
    match error {
        ToolctlError::MissingCache(path) => {
            let front = "repo cache is missing at "@;
            let back = "; run `toolctl sync` or omit --no-sync"@;
            assert(text =~= front + path@ + back);
            lemma_part_is_held(front, path@, back);
        },
        ToolctlError::OutsideRepo(path, repo) => {
            let front = Seq::<char>::empty();
            let back = " is not inside "@ + repo@ + ": prefix not found"@;
            assert(text =~= front + path@ + back);
            lemma_part_is_held(front, path@, back);
            let front = path@ + " is not inside "@;
            let back = ": prefix not found"@;
            assert(text =~= front + repo@ + back);
            lemma_part_is_held(front, repo@, back);
        },
        ToolctlError::MissingBuild(path) => {
            let front = "built binary was not found at "@;
            let back = Seq::<char>::empty();
            assert(text =~= front + path@ + back);
            lemma_part_is_held(front, path@, back);
        },
        ToolctlError::MissingBinary(name, path) => {
            let front = "managed binary '"@;
            let back = "' was not found at "@ + path@;
            assert(text =~= front + name@ + back);
            lemma_part_is_held(front, name@, back);
            let front = "managed binary '"@ + name@ + "' was not found at "@;
            let back = Seq::<char>::empty();
            assert(text =~= front + path@ + back);
            lemma_part_is_held(front, path@, back);
        },
        ToolctlError::Unlaunchable(path, detail) => {
            let front = "failed to launch "@;
            let back = ": "@ + detail@;
            assert(text =~= front + path@ + back);
            lemma_part_is_held(front, path@, back);
            let front = "failed to launch "@ + path@ + ": "@;
            let back = Seq::<char>::empty();
            assert(text =~= front + detail@ + back);
            lemma_part_is_held(front, detail@, back);
        },
    }
}

/// What is asked of a reference: the commit that it stands for, in the clone.
pub proof fn law_reference_is_asked_for(repo: Seq<char>, reference: Seq<char>)
    ensures
        show_arguments(repo, reference).len() == 6,
        show_arguments(repo, reference)[1] == repo,
        show_arguments(repo, reference)[2] == "show"@,
        show_arguments(repo, reference)[4] == log_arguments(repo, reference, 1)[4],
        show_arguments(repo, reference).last() == reference,
{
}

/// The packages are asked for by the manifest at the top of the clone.
pub proof fn law_packages_are_asked_for(platform: Platform, repo: Seq<char>)
    ensures
        metadata_arguments(platform, repo)[0] == "metadata"@,
        metadata_arguments(platform, repo).contains("--no-deps"@),
        metadata_arguments(platform, repo)[4] == "--manifest-path"@,
        metadata_arguments(platform, repo).last() == joined_path(platform, repo, "Cargo.toml"@),
{
    assert(metadata_arguments(platform, repo)[3] == "--no-deps"@);
}

/// A binary is built at `target/release` in its worktree, under the name that it has on the system.
pub proof fn law_binary_is_built_in_the_worktree(
    platform: Platform,
    worktree: Seq<char>,
    name: Seq<char>,
)
    requires
        takes_names(platform, worktree),
        is_plain_name(platform, exe_name(platform, name)),
    ensures
        components(platform, built_binary(platform, worktree, name)) == components(
            platform,
            worktree,
        ) + seq![
            ComponentView::Normal("target"@),
            ComponentView::Normal("release"@),
            ComponentView::Normal(exe_name(platform, name)),
        ],
{
    reveal_strlit("target");
    reveal_strlit("release");
    lemma_letters_have_no_prefix(platform, "target"@);
    lemma_letters_have_no_prefix(platform, "release"@);
    let target = joined_path(platform, worktree, "target"@);
    let release = joined_path(platform, target, "release"@);
    law_join_adds_a_component(platform, worktree, "target"@);
    law_join_adds_a_component(platform, target, "release"@);
    law_join_adds_a_component(platform, release, exe_name(platform, name));
    assert(components(platform, built_binary(platform, worktree, name)) =~= components(
        platform,
        worktree,
    ) + seq![
        ComponentView::Normal("target"@),
        ComponentView::Normal("release"@),
        ComponentView::Normal(exe_name(platform, name)),
    ]);
}

} // verus!
