//! What to upload, from where and under which version: the command line, then the config file, then
//! the defaults.

use vstd::prelude::*;

use crate::dates::is_in_calendar;
use crate::spaces::{is_blank, is_blank_text};
use crate::text::{concat, holds_part, lemma_part_is_held, owned, same_text, views};
use crate::version::{copy_of, default_version_suffix, is_default_suffix, VersionRewrite};
use crate::xml::maybe_view;

verus! {

/// What the command line asks for.
#[derive(Debug)]
pub struct Cli {
    pub config: Option<String>,
    pub source: Option<String>,
    pub api_key: Option<String>,
    pub directories: Vec<String>,
    pub package_version: Option<String>,
    /// Given without a value, it asks for a generated suffix.
    pub version_suffix: Option<Option<String>>,
    pub prefix_version: Option<String>,
    pub no_rewrite_workspace_dependency_versions: bool,
    pub skip_duplicate: bool,
    pub dry_run: bool,
}

/// What the config file asks for.
#[derive(Debug, PartialEq, Eq)]
pub struct PduploadConfig {
    pub source: Option<String>,
    pub api_key: Option<String>,
    pub directories: Option<Vec<String>>,
    pub package_version: Option<String>,
    pub version_suffix: Option<String>,
    pub prefix_version: Option<String>,
    pub rewrite_workspace_dependency_versions: Option<bool>,
    pub skip_duplicate: Option<bool>,
    pub dry_run: Option<bool>,
}

/// What is done in the end.
#[derive(Debug, PartialEq, Eq)]
pub struct ResolvedOptions {
    pub source: String,
    pub api_key: Option<String>,
    pub directories: Vec<String>,
    pub version_rewrite: Option<VersionRewrite>,
    pub rewrite_workspace_dependency_versions: bool,
    pub skip_duplicate: bool,
    pub dry_run: bool,
}

/// What stands at a path.
#[derive(Debug, Clone, Copy, PartialEq, Eq, Structural)]
pub enum PathKind {
    Missing,
    Directory,
    Other,
}

/// What was found at a path.
#[derive(Debug)]
pub struct PathFact {
    pub path: String,
    pub kind: PathKind,
}

/// The moment and the process that a generated suffix is made of.
#[derive(Debug, Clone, Copy)]
pub struct Moment {
    pub unix_timestamp_nanos: i128,
    pub process_id: u32,
}

/// Why there is nothing that can be done.
#[derive(Debug, PartialEq, Eq)]
pub enum OptionsError {
    MissingSource,
    MissingDirectory(String),
    NotADirectory(String),
    NoDefaultDirectory,
    PackageVersionWithSuffix,
    PackageVersionWithPrefix,
    ConfigVersionWithSuffix,
    ConfigVersionWithPrefix,
    UnwritableDate,
    MissingConfig(String),
}

impl OptionsError {
    /// What the error says.
    pub open spec fn text(self) -> Seq<char> {
        match self {
            OptionsError::MissingSource =>
                "missing source; pass --source or set source in pdupload.toml"@,
            OptionsError::MissingDirectory(path) => "configured directory does not exist: "@
                + path@,
            OptionsError::NotADirectory(path) => "configured path is not a directory: "@ + path@,
            OptionsError::NoDefaultDirectory =>
                "none of the default package directories exist: bin/nuget, package"@,
            OptionsError::PackageVersionWithSuffix =>
                "--package-version and --version-suffix are mutually exclusive"@,
            OptionsError::PackageVersionWithPrefix =>
                "--package-version and --prefix-version are mutually exclusive"@,
            OptionsError::ConfigVersionWithSuffix =>
                "config file cannot set both package_version and version_suffix"@,
            OptionsError::ConfigVersionWithPrefix =>
                "config file cannot set both package_version and prefix_version"@,
            OptionsError::UnwritableDate =>
                "failed to format the default package version suffix date"@,
            OptionsError::MissingConfig(path) => "configured config file does not exist: "@ + path@,
        }
    }

    /// Says what is wrong.
    pub fn message(&self) -> (message: String)
        ensures
            message@ == self.text(),
    {
        match self {
            OptionsError::MissingSource => owned(
                "missing source; pass --source or set source in pdupload.toml",
            ),
            OptionsError::MissingDirectory(path) => concat(
                "configured directory does not exist: ",
                path.as_str(),
            ),
            OptionsError::NotADirectory(path) => concat(
                "configured path is not a directory: ",
                path.as_str(),
            ),
            OptionsError::NoDefaultDirectory => owned(
                "none of the default package directories exist: bin/nuget, package",
            ),
            OptionsError::PackageVersionWithSuffix => owned(
                "--package-version and --version-suffix are mutually exclusive",
            ),
            OptionsError::PackageVersionWithPrefix => owned(
                "--package-version and --prefix-version are mutually exclusive",
            ),
            OptionsError::ConfigVersionWithSuffix => owned(
                "config file cannot set both package_version and version_suffix",
            ),
            OptionsError::ConfigVersionWithPrefix => owned(
                "config file cannot set both package_version and prefix_version",
            ),
            OptionsError::UnwritableDate => owned(
                "failed to format the default package version suffix date",
            ),
            OptionsError::MissingConfig(path) => concat(
                "configured config file does not exist: ",
                path.as_str(),
            ),
        }
    }
}

/// The directories that are scanned where none are named.
pub open spec fn default_directories() -> Seq<Seq<char>> {
    seq!["bin/nuget"@, "package"@]
}

/// The directories that are scanned where none are named.
pub fn default_package_directories() -> (directories: Vec<String>)
    ensures
        views(directories@) == default_directories(),
{
    let mut directories: Vec<String> = Vec::new();
    directories.push(owned("bin/nuget"));
    directories.push(owned("package"));
    assert(views(directories@) =~= default_directories());
    directories
}

/// What the facts say of a path; nothing is known to stand at a path that they do not name.
pub open spec fn kind_at(facts: Seq<PathFact>, path: Seq<char>) -> PathKind
    decreases facts.len(),
{
    if facts.len() == 0 {
        PathKind::Missing
    } else if facts[0].path@ == path {
        facts[0].kind
    } else {
        kind_at(facts.drop_first(), path)
    }
}

/// Finds what stands at a path.
pub fn find_kind(facts: &Vec<PathFact>, path: &str) -> (kind: PathKind)
    ensures
        kind == kind_at(facts@, path@),
{
    let mut at: usize = 0;
    assert(facts@.skip(0) =~= facts@);
    while at < facts.len()
        invariant
            at <= facts@.len(),
            kind_at(facts@, path@) == kind_at(facts@.skip(at as int), path@),
        decreases facts@.len() - at,
    {
        assert(facts@.skip(at as int)[0] == facts@[at as int]);
        assert(facts@.skip(at as int).drop_first() =~= facts@.skip(at + 1));
        if same_text(facts[at].path.as_str(), path) {
            return facts[at].kind;
        }
        at += 1;
    }
    PathKind::Missing
}

/// Whether looking `directories` up, all of which have to be there, has this result: all of them,
/// or what is wrong with the first that is no directory.
pub open spec fn is_lookup_of(
    directories: Seq<Seq<char>>,
    facts: Seq<PathFact>,
    result: Result<Vec<String>, OptionsError>,
) -> bool {
    match result {
        Ok(found) => views(found@) == directories && forall|at: int|
            0 <= at < directories.len() ==> kind_at(facts, #[trigger] directories[at])
                == PathKind::Directory,
        Err(error) => exists|at: int|
            0 <= at < directories.len() && is_lookup_fault(
                error,
                #[trigger] directories[at],
                facts,
            ) && forall|before: int|
                0 <= before < at ==> kind_at(facts, #[trigger] directories[before])
                    == PathKind::Directory,
    }
}

/// Whether `error` says what is wrong with a path that should be a directory.
pub open spec fn is_lookup_fault(
    error: OptionsError,
    directory: Seq<char>,
    facts: Seq<PathFact>,
) -> bool {
    match kind_at(facts, directory) {
        PathKind::Missing => error matches OptionsError::MissingDirectory(path) && path@
            == directory,
        PathKind::Other => error matches OptionsError::NotADirectory(path) && path@ == directory,
        PathKind::Directory => false,
    }
}

/// The directories among `candidates` that are there.
pub open spec fn present_directories(
    candidates: Seq<Seq<char>>,
    facts: Seq<PathFact>,
) -> Seq<Seq<char>> {
    candidates.filter(|path: Seq<char>| kind_at(facts, path) == PathKind::Directory)
}

/// The directories that the command line or the config file names, the command line first.
pub open spec fn named_directories(cli: Cli, config: Option<PduploadConfig>) -> Option<
    Seq<Seq<char>>,
> {
    if cli.directories@.len() > 0 {
        Some(views(cli.directories@))
    } else {
        match config {
            Some(config) => match config.directories {
                Some(directories) => Some(views(directories@)),
                None => None,
            },
            None => None,
        }
    }
}

/// Whether resolving the directories to scan has this result.
pub open spec fn is_directories_result(
    cli: Cli,
    config: Option<PduploadConfig>,
    facts: Seq<PathFact>,
    result: Result<Vec<String>, OptionsError>,
) -> bool {
    match named_directories(cli, config) {
        Some(directories) => is_lookup_of(directories, facts, result),
        None => {
            let present = present_directories(default_directories(), facts);
            match result {
                Ok(found) => present.len() > 0 && views(found@) == present,
                Err(error) => present.len() == 0 && error is NoDefaultDirectory,
            }
        },
    }
}

/// Looks up directories all of which have to be there.
fn look_up_directories(directories: &Vec<String>, facts: &Vec<PathFact>) -> (result: Result<
    Vec<String>,
    OptionsError,
>)
    ensures
        is_lookup_of(views(directories@), facts@, result),
{
    let ghost wanted = views(directories@);
    let mut found: Vec<String> = Vec::new();
    let mut at: usize = 0;
    while at < directories.len()
        invariant
            wanted == views(directories@),
            at <= directories@.len(),
            views(found@) == wanted.take(at as int),
            forall|before: int|
                0 <= before < at ==> kind_at(facts@, #[trigger] wanted[before])
                    == PathKind::Directory,
        decreases directories@.len() - at,
    {
        assert(wanted[at as int] == directories@[at as int]@);
        let path = directories[at].clone();
        match find_kind(facts, path.as_str()) {
            PathKind::Missing => {
                let error = OptionsError::MissingDirectory(path);
                assert(is_lookup_fault(error, wanted[at as int], facts@));
                return Err(error);
            },
            PathKind::Other => {
                let error = OptionsError::NotADirectory(path);
                assert(is_lookup_fault(error, wanted[at as int], facts@));
                return Err(error);
            },
            PathKind::Directory => {
                let ghost before = found@;
                found.push(path);
                assert(views(found@) =~= views(before).push(path@));
                at += 1;
                assert(views(found@) =~= wanted.take(at as int));
            },
        }
    }
    assert(wanted.take(at as int) =~= wanted);
    Ok(found)
}

/// Resolves the directories to scan: those of the command line, else those of the config file,
/// else the default ones that are there.
pub fn resolve_search_directories(
    cli: &Cli,
    config: Option<&PduploadConfig>,
    facts: &Vec<PathFact>,
) -> (result: Result<Vec<String>, OptionsError>)
    ensures
        is_directories_result(*cli, owned_config(config), facts@, result),
{
    if cli.directories.len() > 0 {
        return look_up_directories(&cli.directories, facts);
    }
    if let Some(config) = config {
        if let Some(directories) = &config.directories {
            return look_up_directories(directories, facts);
        }
    }
    let candidates = default_package_directories();
    let ghost wanted = default_directories();
    let ghost is_present = |path: Seq<char>| kind_at(facts@, path) == PathKind::Directory;
    let mut present: Vec<String> = Vec::new();
    let mut at: usize = 0;
    assert(wanted.take(0).filter(is_present) =~= Seq::<Seq<char>>::empty()) by {
        reveal(Seq::filter);
    }
    assert(views(present@) =~= Seq::<Seq<char>>::empty());
    while at < candidates.len()
        invariant
            wanted == default_directories(),
            views(candidates@) == wanted,
            wanted.len() == candidates@.len(),
            is_present == (|path: Seq<char>| kind_at(facts@, path) == PathKind::Directory),
            at <= candidates@.len(),
            views(present@) == wanted.take(at as int).filter(is_present),
        decreases candidates@.len() - at,
    {
        let ghost longer = wanted.take(at + 1);
        assert(longer.drop_last() =~= wanted.take(at as int));
        assert(views(candidates@)[at as int] == candidates@[at as int]@);
        assert(longer.last() == candidates@[at as int]@);
        proof {
            reveal(Seq::filter);
        }
        if find_kind(facts, candidates[at].as_str()) == PathKind::Directory {
            let path = candidates[at].clone();
            let ghost before = present@;
            present.push(path);
            assert(views(present@) =~= views(before).push(path@));
        }
        at += 1;
    }
    assert(wanted.take(at as int) =~= wanted);
    assert(views(present@).len() == present@.len());
    if present.len() == 0 {
        Err(OptionsError::NoDefaultDirectory)
    } else {
        Ok(present)
    }
}

/// A config that may be missing, by value.
pub open spec fn owned_config(config: Option<&PduploadConfig>) -> Option<PduploadConfig> {
    match config {
        Some(config) => Some(*config),
        None => None,
    }
}

/// How the versions are to be rewritten.
pub enum RewritePlan {
    Keep,
    Exact(Seq<char>),
    Suffix(Option<Seq<char>>, Seq<char>),
    GeneratedSuffix(Option<Seq<char>>),
    Conflict(OptionsError),
}

/// What the config file asks for.
pub open spec fn config_plan(config: Option<PduploadConfig>) -> RewritePlan {
    match config {
        None => RewritePlan::Keep,
        Some(config) => match (config.package_version, config.version_suffix, config.prefix_version) {
            (Some(_), Some(_), _) => RewritePlan::Conflict(OptionsError::ConfigVersionWithSuffix),
            (Some(_), None, Some(_)) => RewritePlan::Conflict(
                OptionsError::ConfigVersionWithPrefix,
            ),
            (Some(version), None, None) => RewritePlan::Exact(version@),
            (None, Some(suffix), prefix) => if is_blank(suffix@) {
                RewritePlan::GeneratedSuffix(maybe_view(prefix))
            } else {
                RewritePlan::Suffix(maybe_view(prefix), suffix@)
            },
            (None, None, Some(prefix)) => RewritePlan::GeneratedSuffix(Some(prefix@)),
            (None, None, None) => RewritePlan::Keep,
        },
    }
}

/// What the command line asks for, and where it asks for nothing, the config file.
pub open spec fn version_plan(cli: Cli, config: Option<PduploadConfig>) -> RewritePlan {
    match (cli.package_version, cli.version_suffix) {
        (Some(version), _) => RewritePlan::Exact(version@),
        (None, Some(Some(suffix))) => RewritePlan::Suffix(maybe_view(cli.prefix_version), suffix@),
        (None, Some(None)) => RewritePlan::GeneratedSuffix(maybe_view(cli.prefix_version)),
        (None, None) => if cli.prefix_version is Some {
            RewritePlan::GeneratedSuffix(maybe_view(cli.prefix_version))
        } else {
            config_plan(config)
        },
    }
}

/// Whether `result` is what a plan comes to at a moment.
pub open spec fn is_plan_result(
    plan: RewritePlan,
    moment: Moment,
    result: Result<Option<VersionRewrite>, OptionsError>,
) -> bool {
    match plan {
        RewritePlan::Keep => result == Ok::<Option<VersionRewrite>, OptionsError>(None),
        RewritePlan::Exact(version) => result matches Ok(Some(VersionRewrite::Exact(chosen)))
            && chosen@ == version,
        RewritePlan::Suffix(prefix, suffix) => result matches Ok(
            Some(VersionRewrite::Suffix { prefix_version, suffix: chosen }),
        ) && maybe_view(prefix_version) == prefix && chosen@ == suffix,
        RewritePlan::GeneratedSuffix(prefix) => if is_in_calendar(
            moment.unix_timestamp_nanos as int,
        ) {
            result matches Ok(Some(VersionRewrite::Suffix { prefix_version, suffix: chosen }))
                && maybe_view(prefix_version) == prefix && is_default_suffix(
                chosen@,
                moment.unix_timestamp_nanos as int,
                moment.process_id,
            )
        } else {
            result == Err::<Option<VersionRewrite>, OptionsError>(OptionsError::UnwritableDate)
        },
        RewritePlan::Conflict(error) => result == Err::<Option<VersionRewrite>, OptionsError>(
            error,
        ),
    }
}

/// A rewrite with a generated suffix.
fn generated_suffix(prefix_version: &Option<String>, moment: Moment) -> (result: Result<
    Option<VersionRewrite>,
    OptionsError,
>)
    ensures
        is_plan_result(
            RewritePlan::GeneratedSuffix(maybe_view(*prefix_version)),
            moment,
            result,
        ),
{
    match default_version_suffix(moment.unix_timestamp_nanos, moment.process_id) {
        Some(suffix) => Ok(
            Some(VersionRewrite::Suffix { prefix_version: copy_of(prefix_version), suffix }),
        ),
        None => Err(OptionsError::UnwritableDate),
    }
}

/// How the config file asks for versions to be rewritten.
pub fn resolve_version_rewrite_from_config(config: Option<&PduploadConfig>, moment: Moment) -> (result:
    Result<Option<VersionRewrite>, OptionsError>)
    ensures
        is_plan_result(config_plan(owned_config(config)), moment, result),
{
    match config {
        None => Ok(None),
        Some(config) => match (&config.package_version, &config.version_suffix) {
            (Some(_), Some(_)) => Err(OptionsError::ConfigVersionWithSuffix),
            (Some(version), None) => match &config.prefix_version {
                Some(_) => Err(OptionsError::ConfigVersionWithPrefix),
                None => Ok(Some(VersionRewrite::Exact(version.clone()))),
            },
            (None, Some(suffix)) => if is_blank_text(suffix.as_str()) {
                generated_suffix(&config.prefix_version, moment)
            } else {
                Ok(
                    Some(
                        VersionRewrite::Suffix {
                            prefix_version: copy_of(&config.prefix_version),
                            suffix: suffix.clone(),
                        },
                    ),
                )
            },
            (None, None) => match &config.prefix_version {
                Some(_) => generated_suffix(&config.prefix_version, moment),
                None => Ok(None),
            },
        },
    }
}

/// How versions are to be rewritten.
pub fn resolve_version_rewrite(
    cli: &Cli,
    config: Option<&PduploadConfig>,
    moment: Moment,
) -> (result: Result<Option<VersionRewrite>, OptionsError>)
    ensures
        is_plan_result(version_plan(*cli, owned_config(config)), moment, result),
{
    if let Some(version) = &cli.package_version {
        return Ok(Some(VersionRewrite::Exact(version.clone())));
    }
    match &cli.version_suffix {
        Some(Some(suffix)) => Ok(
            Some(
                VersionRewrite::Suffix {
                    prefix_version: copy_of(&cli.prefix_version),
                    suffix: suffix.clone(),
                },
            ),
        ),
        Some(None) => generated_suffix(&cli.prefix_version, moment),
        None => match &cli.prefix_version {
            Some(_) => generated_suffix(&cli.prefix_version, moment),
            None => resolve_version_rewrite_from_config(config, moment),
        },
    }
}

/// Whether the command line asks for two versions at once, and which two: nothing can go with a
/// whole version.
pub open spec fn version_conflict(cli: Cli) -> Option<OptionsError> {
    if cli.package_version is Some && cli.version_suffix is Some {
        Some(OptionsError::PackageVersionWithSuffix)
    } else if cli.package_version is Some && cli.prefix_version is Some {
        Some(OptionsError::PackageVersionWithPrefix)
    } else {
        None
    }
}

/// Refuses a command line that asks for two versions at once.
pub fn validate_version_arguments(cli: &Cli) -> (result: Result<(), OptionsError>)
    ensures
        match version_conflict(*cli) {
            Some(error) => result == Err::<(), OptionsError>(error),
            None => result is Ok,
        },
{
    if cli.package_version.is_some() && cli.version_suffix.is_some() {
        return Err(OptionsError::PackageVersionWithSuffix);
    }
    if cli.package_version.is_some() && cli.prefix_version.is_some() {
        return Err(OptionsError::PackageVersionWithPrefix);
    }
    Ok(())
}

/// The first of two texts that is given.
pub open spec fn first_given(first: Option<String>, second: Option<String>) -> Option<Seq<char>> {
    match first {
        Some(text) => Some(text@),
        None => maybe_view(second),
    }
}

/// The source that the config file names.
pub open spec fn config_source(config: Option<PduploadConfig>) -> Option<String> {
    match config {
        Some(config) => config.source,
        None => None,
    }
}

/// The API key that the config file gives.
pub open spec fn config_api_key(config: Option<PduploadConfig>) -> Option<String> {
    match config {
        Some(config) => config.api_key,
        None => None,
    }
}

/// Whether the versions of dependencies follow those of the packages they name: unless the command
/// line or the config file says no.
pub open spec fn follows_workspace(cli: Cli, config: Option<PduploadConfig>) -> bool {
    &&& !cli.no_rewrite_workspace_dependency_versions
    &&& !(config matches Some(config) && config.rewrite_workspace_dependency_versions == Some(
        false,
    ))
}

/// Whether packages that the feed has already are skipped.
pub open spec fn skips_duplicates(cli: Cli, config: Option<PduploadConfig>) -> bool {
    cli.skip_duplicate || (config matches Some(config) && config.skip_duplicate == Some(true))
}

/// Whether nothing is pushed.
pub open spec fn is_dry_run(cli: Cli, config: Option<PduploadConfig>) -> bool {
    cli.dry_run || (config matches Some(config) && config.dry_run == Some(true))
}

/// Whether resolving the options has this result. The source is looked at first, then the
/// directories, then the version.
pub open spec fn is_options_result(
    cli: Cli,
    config: Option<PduploadConfig>,
    facts: Seq<PathFact>,
    moment: Moment,
    result: Result<ResolvedOptions, OptionsError>,
) -> bool {
    match first_given(cli.source, config_source(config)) {
        None => result == Err::<ResolvedOptions, OptionsError>(OptionsError::MissingSource),
        Some(source) => match result {
            Ok(options) => {
                &&& options.source@ == source
                &&& maybe_view(options.api_key) == first_given(cli.api_key, config_api_key(config))
                &&& is_directories_result(
                    cli,
                    config,
                    facts,
                    Ok::<Vec<String>, OptionsError>(options.directories),
                )
                &&& is_plan_result(
                    version_plan(cli, config),
                    moment,
                    Ok::<Option<VersionRewrite>, OptionsError>(options.version_rewrite),
                )
                &&& options.rewrite_workspace_dependency_versions == follows_workspace(cli, config)
                &&& options.skip_duplicate == skips_duplicates(cli, config)
                &&& options.dry_run == is_dry_run(cli, config)
            },
            Err(error) => is_directories_result(
                cli,
                config,
                facts,
                Err::<Vec<String>, OptionsError>(error),
            ) || (is_plan_result(
                version_plan(cli, config),
                moment,
                Err::<Option<VersionRewrite>, OptionsError>(error),
            ) && exists|directories: Vec<String>| #[trigger]
                is_directories_result(
                    cli,
                    config,
                    facts,
                    Ok::<Vec<String>, OptionsError>(directories),
                )),
        },
    }
}

/// Whether an option of the config file says `wanted`.
fn says(option: Option<bool>, wanted: bool) -> (answer: bool)
    ensures
        answer == (option == Some(wanted)),
{
    match option {
        Some(value) => value == wanted,
        None => false,
    }
}

/// Resolves what is to be done.
pub fn resolve_options(
    cli: &Cli,
    config: Option<&PduploadConfig>,
    facts: &Vec<PathFact>,
    moment: Moment,
) -> (result: Result<ResolvedOptions, OptionsError>)
    ensures
        is_options_result(*cli, owned_config(config), facts@, moment, result),
{
    let mut source = copy_of(&cli.source);
    let mut api_key = copy_of(&cli.api_key);
    let mut follows = !cli.no_rewrite_workspace_dependency_versions;
    let mut skip_duplicate = cli.skip_duplicate;
    let mut dry_run = cli.dry_run;
    if let Some(config) = config {
        if source.is_none() {
            source = copy_of(&config.source);
        }
        if api_key.is_none() {
            api_key = copy_of(&config.api_key);
        }
        follows = follows && !says(config.rewrite_workspace_dependency_versions, false);
        skip_duplicate = skip_duplicate || says(config.skip_duplicate, true);
        dry_run = dry_run || says(config.dry_run, true);
    }
    let source = match source {
        Some(source) => source,
        None => {
            return Err(OptionsError::MissingSource);
        },
    };
    let directories = match resolve_search_directories(cli, config, facts) {
        Ok(directories) => directories,
        Err(error) => {
            return Err(error);
        },
    };
    let version_rewrite = match resolve_version_rewrite(cli, config, moment) {
        Ok(version_rewrite) => version_rewrite,
        Err(error) => {
            assert(is_directories_result(
                *cli,
                owned_config(config),
                facts@,
                Ok::<Vec<String>, OptionsError>(directories),
            ));
            return Err(error);
        },
    };
    Ok(
        ResolvedOptions {
            source,
            api_key,
            directories,
            version_rewrite,
            rewrite_workspace_dependency_versions: follows,
            skip_duplicate,
            dry_run,
        },
    )
}

/// What the command line gives is what is done, whatever the config file says.
pub proof fn law_command_line_overrides_config(
    cli: Cli,
    config: Option<PduploadConfig>,
    other: Option<PduploadConfig>,
)
    ensures
        cli.source is Some ==> first_given(cli.source, config_source(config)) == first_given(
            cli.source,
            config_source(other),
        ),
        cli.api_key is Some ==> first_given(cli.api_key, config_api_key(config)) == first_given(
            cli.api_key,
            config_api_key(other),
        ),
        cli.directories@.len() > 0 ==> named_directories(cli, config) == named_directories(
            cli,
            other,
        ),
        cli.package_version is Some || cli.version_suffix is Some || cli.prefix_version is Some
            ==> version_plan(cli, config) == version_plan(cli, other),
        cli.no_rewrite_workspace_dependency_versions ==> !follows_workspace(cli, config),
        cli.skip_duplicate ==> skips_duplicates(cli, config),
        cli.dry_run ==> is_dry_run(cli, config),
{
}

/// Without a config file and without arguments about versions, versions are kept.
pub proof fn law_versions_are_kept_by_default(cli: Cli)
    requires
        cli.package_version is None,
        cli.version_suffix is None,
        cli.prefix_version is None,
    ensures
        version_plan(cli, None) == RewritePlan::Keep,
{
}

/// What stands at a path is what the first fact on it says; nothing where no fact is on it.
pub proof fn law_first_fact_counts(facts: Seq<PathFact>, path: Seq<char>) -> (at: int)
    ensures
        ({
            ||| 0 <= at < facts.len() && facts[at].path@ == path && kind_at(facts, path)
                == facts[at].kind && forall|before: int|
                0 <= before < at ==> (#[trigger] facts[before]).path@ != path
            ||| kind_at(facts, path) == PathKind::Missing && forall|other: int|
                0 <= other < facts.len() ==> (#[trigger] facts[other]).path@ != path
        }),
    decreases facts.len(),
{
    if facts.len() == 0 || facts[0].path@ == path {
        0
    } else {
        let rest = facts.drop_first();
        let at = law_first_fact_counts(rest, path);
        assert(forall|other: int| 0 < other < facts.len() ==> #[trigger] facts[other] == rest[other
            - 1]);
        at + 1
    }
}

/// Directories that are named, on the command line or else in the config, are all searched, in
/// their order, and have to be there. The first that is not is named.
pub proof fn law_named_directories_are_all_searched(
    cli: Cli,
    config: Option<PduploadConfig>,
    facts: Seq<PathFact>,
    result: Result<Vec<String>, OptionsError>,
) -> (at: int)
    requires
        is_directories_result(cli, config, facts, result),
        cli.directories@.len() > 0 || (config matches Some(config) && config.directories is Some),
    ensures
        ({
            let named = if cli.directories@.len() > 0 {
                cli.directories@
            } else {
                config->Some_0.directories->Some_0@
            };
            match result {
                Ok(found) => {
                    &&& forall|place: int|
                        0 <= place < named.len() ==> kind_at(facts, (#[trigger] named[place])@)
                            == PathKind::Directory
                    &&& found@.len() == named.len()
                    &&& forall|place: int|
                        0 <= place < named.len() ==> (#[trigger] found@[place])@ == named[place]@
                },
                Err(error) => {
                    &&& 0 <= at < named.len()
                    &&& forall|before: int|
                        0 <= before < at ==> kind_at(facts, (#[trigger] named[before])@)
                            == PathKind::Directory
                    &&& match error {
                        OptionsError::MissingDirectory(path) => path@ == named[at]@ && kind_at(
                            facts,
                            path@,
                        ) == PathKind::Missing,
                        OptionsError::NotADirectory(path) => path@ == named[at]@ && kind_at(
                            facts,
                            path@,
                        ) == PathKind::Other,
                        _ => false,
                    }
                },
            }
        }),
{
    let named = if cli.directories@.len() > 0 {
        cli.directories@
    } else {
        config->Some_0.directories->Some_0@
    };
    let directories = views(named);
    assert(named_directories(cli, config) == Some(directories));
    assert(directories.len() == named.len());
    match result {
        Ok(found) => {
            assert(views(found@).len() == found@.len());
            assert forall|at: int| 0 <= at < named.len() implies kind_at(
                facts,
                (#[trigger] named[at])@,
            ) == PathKind::Directory by {
                assert(directories[at] == named[at]@);
            }
            assert forall|at: int| 0 <= at < named.len() implies (#[trigger] found@[at])@
                == named[at]@ by {
                assert(views(found@)[at] == directories[at]);
            }
            0
        },
        Err(error) => {
            let at = choose|at: int|
                0 <= at < directories.len() && is_lookup_fault(
                    error,
                    #[trigger] directories[at],
                    facts,
                ) && forall|before: int|
                    0 <= before < at ==> kind_at(facts, #[trigger] directories[before])
                        == PathKind::Directory;
            assert(directories[at] == named[at]@);
            assert forall|before: int| 0 <= before < at implies kind_at(
                facts,
                (#[trigger] named[before])@,
            ) == PathKind::Directory by {
                assert(directories[before] == named[before]@);
            }
            at
        },
    }
}

/// Where no directories are named, those of `bin/nuget` and `package` that are there are searched.
pub proof fn law_default_directories_are_searched(
    cli: Cli,
    config: Option<PduploadConfig>,
    facts: Seq<PathFact>,
    result: Result<Vec<String>, OptionsError>,
)
    requires
        is_directories_result(cli, config, facts, result),
        cli.directories@.len() == 0,
        config matches Some(config) ==> config.directories is None,
    ensures
        ({
            let has_first = kind_at(facts, "bin/nuget"@) == PathKind::Directory;
            let has_second = kind_at(facts, "package"@) == PathKind::Directory;
            match result {
                Ok(found) => {
                    &&& has_first || has_second
                    &&& has_first ==> found@[0]@ == "bin/nuget"@
                    &&& has_second ==> found@.last()@ == "package"@
                    &&& found@.len() == if has_first && has_second {
                        2nat
                    } else {
                        1nat
                    }
                },
                Err(error) => error is NoDefaultDirectory && !has_first && !has_second,
            }
        }),
{
    let is_there = |path: Seq<char>| kind_at(facts, path) == PathKind::Directory;
    let both = seq!["bin/nuget"@, "package"@];
    let first = seq!["bin/nuget"@];
    reveal(Seq::filter);
    assert(both.drop_last() =~= first);
    assert(first.drop_last() =~= Seq::empty());
    assert(both.last() == "package"@ && first.last() == "bin/nuget"@);
    assert(Seq::<Seq<char>>::empty().filter(is_there).len() == 0);
    assert(first.filter(is_there) == if is_there("bin/nuget"@) {
        Seq::<Seq<char>>::empty().filter(is_there).push("bin/nuget"@)
    } else {
        Seq::<Seq<char>>::empty().filter(is_there)
    });
    assert(both.filter(is_there) == if is_there("package"@) {
        first.filter(is_there).push("package"@)
    } else {
        first.filter(is_there)
    });
    assert(default_directories() == both);
    assert(present_directories(default_directories(), facts) == both.filter(is_there));
    if let Ok(found) = result {
        assert(views(found@).len() == found@.len());
        assert(forall|at: int|
            0 <= at < found@.len() ==> views(found@)[at] == (#[trigger] found@[at])@);
    }
}

/// The options come from the command line where it gives them, and else from the config. Switches
/// on the command line only switch on; the config switches where it says so.
pub proof fn law_options_come_from_command_line_and_config(
    cli: Cli,
    config: Option<PduploadConfig>,
    facts: Seq<PathFact>,
    moment: Moment,
    options: ResolvedOptions,
)
    requires
        is_options_result(
            cli,
            config,
            facts,
            moment,
            Ok::<ResolvedOptions, OptionsError>(options),
        ),
    ensures
        cli.source matches Some(source) ==> options.source@ == source@,
        cli.source is None ==> (config matches Some(config) && (config.source matches Some(source)
            && options.source@ == source@)),
        cli.api_key matches Some(key) ==> (options.api_key matches Some(given) && given@ == key@),
        cli.api_key is None ==> match (config, options.api_key) {
            (Some(config), Some(given)) => config.api_key matches Some(key) && given@ == key@,
            (Some(config), None) => config.api_key is None,
            (None, given) => given is None,
        },
        options.rewrite_workspace_dependency_versions
            <==> !cli.no_rewrite_workspace_dependency_versions && (config matches Some(config)
            ==> config.rewrite_workspace_dependency_versions != Some(false)),
        options.skip_duplicate <==> cli.skip_duplicate || (config matches Some(config)
            && config.skip_duplicate == Some(true)),
        options.dry_run <==> cli.dry_run || (config matches Some(config) && config.dry_run == Some(
            true,
        )),
        is_directories_result(
            cli,
            config,
            facts,
            Ok::<Vec<String>, OptionsError>(options.directories),
        ),
{
}

/// Without a source there is no upload; every other failure is one of the directories or of the
/// version.
pub proof fn law_options_fail_for_a_reason(
    cli: Cli,
    config: Option<PduploadConfig>,
    facts: Seq<PathFact>,
    moment: Moment,
    error: OptionsError,
)
    requires
        is_options_result(
            cli,
            config,
            facts,
            moment,
            Err::<ResolvedOptions, OptionsError>(error),
        ),
    ensures
        cli.source is None && (config matches Some(config) ==> config.source is None) <==> error
            is MissingSource,
        match error {
            OptionsError::MissingSource => true,
            OptionsError::MissingDirectory(path) => kind_at(facts, path@) == PathKind::Missing,
            OptionsError::NotADirectory(path) => kind_at(facts, path@) == PathKind::Other,
            OptionsError::NoDefaultDirectory => cli.directories@.len() == 0 && kind_at(
                facts,
                "bin/nuget"@,
            ) != PathKind::Directory && kind_at(facts, "package"@) != PathKind::Directory,
            OptionsError::ConfigVersionWithSuffix => config matches Some(config)
                && config.package_version is Some && config.version_suffix is Some
                && cli.package_version is None && cli.version_suffix is None && cli.prefix_version
                is None,
            OptionsError::ConfigVersionWithPrefix => config matches Some(config)
                && config.package_version is Some && config.prefix_version is Some
                && cli.package_version is None && cli.version_suffix is None && cli.prefix_version
                is None,
            OptionsError::UnwritableDate => !is_in_calendar(moment.unix_timestamp_nanos as int),
            _ => false,
        },
{
    let failed = Err::<Vec<String>, OptionsError>(error);
    if is_directories_result(cli, config, facts, failed) {
        if cli.directories@.len() > 0 || (config matches Some(config) && config.directories
            is Some) {
            let at = law_named_directories_are_all_searched(cli, config, facts, failed);
        } else {
            law_default_directories_are_searched(cli, config, facts, failed);
        }
    }
}

/// A version on the command line is taken as it is. Else a suffix there is, with the prefix there;
/// a suffix without a value, or a prefix alone, asks for a generated one.
pub proof fn law_command_line_gives_the_version(
    cli: Cli,
    config: Option<PduploadConfig>,
    moment: Moment,
    result: Result<Option<VersionRewrite>, OptionsError>,
)
    requires
        is_plan_result(version_plan(cli, config), moment, result),
    ensures
        cli.package_version matches Some(version) ==> (result matches Ok(
            Some(VersionRewrite::Exact(chosen)),
        ) && chosen@ == version@),
        cli.package_version is None && (cli.version_suffix is Some || cli.prefix_version is Some)
            ==> match result {
            Ok(Some(VersionRewrite::Suffix { prefix_version, suffix })) => {
                &&& maybe_view(prefix_version) == maybe_view(cli.prefix_version)
                &&& match cli.version_suffix {
                    Some(Some(given)) => suffix@ == given@,
                    _ => is_default_suffix(
                        suffix@,
                        moment.unix_timestamp_nanos as int,
                        moment.process_id,
                    ),
                }
            },
            Err(error) => error is UnwritableDate && !(cli.version_suffix matches Some(Some(_)))
                && !is_in_calendar(moment.unix_timestamp_nanos as int),
            _ => false,
        },
{
}

/// Without a version on the command line the config gives it: a version as it is, or a suffix with
/// the prefix; a blank suffix, or a prefix alone, asks for a generated one. Where it says nothing
/// the versions are kept.
pub proof fn law_config_gives_the_version(
    cli: Cli,
    config: Option<PduploadConfig>,
    moment: Moment,
    result: Result<Option<VersionRewrite>, OptionsError>,
)
    requires
        is_plan_result(version_plan(cli, config), moment, result),
        cli.package_version is None,
        cli.version_suffix is None,
        cli.prefix_version is None,
    ensures
        result matches Ok(None) <==> (config matches Some(config) ==> config.package_version is None
            && config.version_suffix is None && config.prefix_version is None),
        result matches Ok(Some(VersionRewrite::Exact(chosen))) ==> (config matches Some(config)
            && (config.package_version matches Some(version) && chosen@ == version@)
            && config.version_suffix is None && config.prefix_version is None),
        result matches Ok(Some(VersionRewrite::Suffix { prefix_version, suffix })) ==> (
        config matches Some(config) && config.package_version is None && maybe_view(prefix_version)
            == maybe_view(config.prefix_version) && match config.version_suffix {
            Some(given) if !is_blank(given@) => suffix@ == given@,
            _ => is_default_suffix(
                suffix@,
                moment.unix_timestamp_nanos as int,
                moment.process_id,
            ),
        }),
        result matches Err(error) ==> (config matches Some(config) && match error {
            OptionsError::ConfigVersionWithSuffix => config.package_version is Some
                && config.version_suffix is Some,
            OptionsError::ConfigVersionWithPrefix => config.package_version is Some
                && config.version_suffix is None && config.prefix_version is Some,
            OptionsError::UnwritableDate => config.package_version is None && !is_in_calendar(
                moment.unix_timestamp_nanos as int,
            ),
            _ => false,
        }),
{
}

/// A version on the command line stands alone.
pub proof fn law_version_arguments_exclude_each_other(cli: Cli)
    ensures
        version_conflict(cli) is None <==> cli.package_version is None || (cli.version_suffix
            is None && cli.prefix_version is None),
        version_conflict(cli) matches Some(error) ==> if cli.version_suffix is Some {
            error is PackageVersionWithSuffix
        } else {
            error is PackageVersionWithPrefix
        },
{
}

/// An error names the path that it is about.
pub proof fn law_errors_name_the_path(error: OptionsError)
    ensures
        ({
            let text = error.text();
            match error {
                OptionsError::MissingDirectory(path) => holds_part(text, path@),
                OptionsError::NotADirectory(path) => holds_part(text, path@),
                OptionsError::MissingConfig(path) => holds_part(text, path@),
                _ => true,
            }
        }),
{
    let text = error.text();
    match error {
        OptionsError::MissingDirectory(path) => {
            let front = "configured directory does not exist: "@;
            let back = Seq::<char>::empty();
            assert(text =~= front + path@ + back);
            lemma_part_is_held(front, path@, back);
        },
        OptionsError::NotADirectory(path) => {
            let front = "configured path is not a directory: "@;
            let back = Seq::<char>::empty();
            assert(text =~= front + path@ + back);
            lemma_part_is_held(front, path@, back);
        },
        OptionsError::MissingConfig(path) => {
            let front = "configured config file does not exist: "@;
            let back = Seq::<char>::empty();
            assert(text =~= front + path@ + back);
            lemma_part_is_held(front, path@, back);
        },
        _ => {},
    }
}

} // verus!
