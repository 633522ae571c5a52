//! Where the config file of an upload is looked for.

use vstd::prelude::*;

use crate::path_laws::{law_join_adds_a_component, lemma_letters_have_no_prefix, takes_names};
use crate::paths::{components, join_path, joined_path, ComponentView};
use crate::platform::Platform;
use crate::text::{owned, views};
use crate::upload_options::{find_kind, kind_at, Cli, OptionsError, PathFact, PathKind};
use crate::xml::maybe_view;

verus! {

/// The variables of the environment that say where config files are kept.
#[derive(Debug)]
pub struct ConfigEnvironment {
    pub app_data: Option<String>,
    pub xdg_config_home: Option<String>,
    pub home: Option<String>,
}

/// The config file in a directory for config files.
pub open spec fn config_file_in(platform: Platform, directory: Seq<char>) -> Seq<char> {
    joined_path(platform, joined_path(platform, directory, "pdupload"@), "pdupload.toml"@)
}

/// The directory for config files: `APPDATA` on Windows, else `XDG_CONFIG_HOME`, else `.config` in
/// `HOME`.
pub open spec fn config_directory(
    platform: Platform,
    environment: ConfigEnvironment,
) -> Option<Seq<char>> {
    match (platform, environment.app_data, environment.xdg_config_home, environment.home) {
        (Platform::Windows, Some(app_data), _, _) => Some(app_data@),
        (_, _, Some(config_home), _) => Some(config_home@),
        (_, _, None, Some(home)) => Some(joined_path(platform, home@, ".config"@)),
        _ => None,
    }
}

/// The config file that holds for every directory: below `APPDATA` on Windows, else below
/// `XDG_CONFIG_HOME`, else below `.config` in `HOME`.
pub open spec fn global_config(
    platform: Platform,
    environment: ConfigEnvironment,
) -> Option<Seq<char>> {
    match config_directory(platform, environment) {
        Some(directory) => Some(config_file_in(platform, directory)),
        None => None,
    }
}

/// The places where the config file is looked for, in order.
pub open spec fn config_candidates(
    platform: Platform,
    environment: ConfigEnvironment,
) -> Seq<Seq<char>> {
    match global_config(platform, environment) {
        Some(path) => seq!["pdupload.toml"@, path],
        None => seq!["pdupload.toml"@],
    }
}

/// The first of `candidates` at which something stands.
pub open spec fn first_present(
    candidates: Seq<Seq<char>>,
    facts: Seq<PathFact>,
) -> Option<Seq<char>>
    decreases candidates.len(),
{
    if candidates.len() == 0 {
        None
    } else if kind_at(facts, candidates[0]) != PathKind::Missing {
        Some(candidates[0])
    } else {
        first_present(candidates.drop_first(), facts)
    }
}

/// The config file in a directory for config files.
fn config_file(platform: Platform, directory: &str) -> (path: String)
    ensures
        path@ == config_file_in(platform, directory@),
{
    join_path(platform, join_path(platform, directory, "pdupload").as_str(), "pdupload.toml")
}

/// The config file that holds for every directory.
pub fn global_config_path(platform: Platform, environment: &ConfigEnvironment) -> (path: Option<
    String,
>)
    ensures
        maybe_view(path) == global_config(platform, *environment),
{
    if platform == Platform::Windows {
        if let Some(app_data) = &environment.app_data {
            return Some(config_file(platform, app_data.as_str()));
        }
    }
    if let Some(config_home) = &environment.xdg_config_home {
        return Some(config_file(platform, config_home.as_str()));
    }
    match &environment.home {
        Some(home) => {
            let directory = join_path(platform, home.as_str(), ".config");
            Some(config_file(platform, directory.as_str()))
        },
        None => None,
    }
}

/// The places where the config file is looked for: the working directory first.
pub fn candidate_config_paths(platform: Platform, environment: &ConfigEnvironment) -> (candidates: Vec<
    String,
>)
    ensures
        views(candidates@) == config_candidates(platform, *environment),
{
    let mut candidates: Vec<String> = Vec::new();
    candidates.push(owned("pdupload.toml"));
    if let Some(path) = global_config_path(platform, environment) {
        candidates.push(path);
    }
    assert(views(candidates@) =~= config_candidates(platform, *environment));
    candidates
}

/// Finds the config file among `candidates`.
pub fn discover_config_path(candidates: &Vec<String>, facts: &Vec<PathFact>) -> (path: Option<
    String,
>)
    ensures
        maybe_view(path) == first_present(views(candidates@), facts@),
{
    let ghost all = views(candidates@);
    let mut at: usize = 0;
    assert(all.skip(0) =~= all);
    while at < candidates.len()
        invariant
            all == views(candidates@),
            at <= candidates@.len(),
            first_present(all, facts@) == first_present(all.skip(at as int), facts@),
        decreases candidates@.len() - at,
    {
        assert(all.skip(at as int)[0] == candidates@[at as int]@);
        assert(all.skip(at as int).drop_first() =~= all.skip(at + 1));
        if find_kind(facts, candidates[at].as_str()) != PathKind::Missing {
            return Some(candidates[at].clone());
        }
        at += 1;
    }
    assert(all.skip(at as int) =~= Seq::<Seq<char>>::empty());
    None
}

/// The config file that is read: the one that the command line names, which has to be there, else
/// the first of `candidates` that is there.
pub fn select_config_path(
    cli: &Cli,
    candidates: &Vec<String>,
    facts: &Vec<PathFact>,
) -> (result: Result<Option<String>, OptionsError>)
    ensures
        match cli.config {
            Some(named) => if kind_at(facts@, named@) == PathKind::Missing {
                result matches Err(OptionsError::MissingConfig(path)) && path@ == named@
            } else {
                result matches Ok(Some(path)) && path@ == named@
            },
            None => result matches Ok(path) && maybe_view(path) == first_present(
                views(candidates@),
                facts@,
            ),
        },
{
    match &cli.config {
        Some(path) => if find_kind(facts, path.as_str()) == PathKind::Missing {
            Err(OptionsError::MissingConfig(path.clone()))
        } else {
            Ok(Some(path.clone()))
        },
        None => Ok(discover_config_path(candidates, facts)),
    }
}

/// The global config file is `pdupload.toml` in a directory `pdupload`.
pub proof fn law_global_config_is_in_its_directory(
    platform: Platform,
    environment: ConfigEnvironment,
)
    requires
        config_directory(platform, environment) matches Some(directory) && takes_names(
            platform,
            directory,
        ),
    ensures
        ({
            let found = components(platform, global_config(platform, environment)->Some_0);
            &&& global_config(platform, environment) is Some
            &&& found.len() >= 2
            &&& found[found.len() - 2] == ComponentView::Normal("pdupload"@)
            &&& found.last() == ComponentView::Normal("pdupload.toml"@)
        }),
{
    let directory = config_directory(platform, environment)->Some_0;
    reveal_strlit("pdupload");
    reveal_strlit("pdupload.toml");
    assert("pdupload"@[1] != ':' && "pdupload.toml"@[1] != ':');
    lemma_letters_have_no_prefix(platform, "pdupload"@);
    lemma_letters_have_no_prefix(platform, "pdupload.toml"@);
    let inner = joined_path(platform, directory, "pdupload"@);
    law_join_adds_a_component(platform, directory, "pdupload"@);
    law_join_adds_a_component(platform, inner, "pdupload.toml"@);
}

/// The working directory is looked in first.
pub proof fn law_local_config_comes_first(platform: Platform, environment: ConfigEnvironment)
    ensures
        config_candidates(platform, environment)[0] == "pdupload.toml"@,
{
}

/// The config file is the first of the candidates at which anything stands; there is none exactly
/// where nothing stands at any.
pub proof fn law_first_present_config_counts(candidates: Seq<Seq<char>>, facts: Seq<PathFact>) -> (
    at: int)
    ensures
        match first_present(candidates, facts) {
            Some(path) => {
                &&& 0 <= at < candidates.len()
                &&& candidates[at] == path
                &&& kind_at(facts, path) != PathKind::Missing
                &&& forall|before: int|
                    0 <= before < at ==> kind_at(facts, #[trigger] candidates[before])
                        == PathKind::Missing
            },
            None => forall|other: int|
                0 <= other < candidates.len() ==> kind_at(facts, #[trigger] candidates[other])
                    == PathKind::Missing,
        },
    decreases candidates.len(),
{
    if candidates.len() == 0 || kind_at(facts, candidates[0]) != PathKind::Missing {
        0
    } else {
        let rest = candidates.drop_first();
        let at = law_first_present_config_counts(rest, facts);
        assert(forall|other: int|
            0 < other < candidates.len() ==> #[trigger] candidates[other] == rest[other - 1]);
        at + 1
    }
}

/// Config files are looked for here, and then in the directory of the user: on Windows that of the
/// applications, else that for configs, else `.config` at home.
pub proof fn law_config_candidates(platform: Platform, environment: ConfigEnvironment)
    ensures
        ({
            let candidates = config_candidates(platform, environment);
            let is_windows = platform == Platform::Windows;
            let file = |directory: Seq<char>|
                joined_path(
                    platform,
                    joined_path(platform, directory, "pdupload"@),
                    "pdupload.toml"@,
                );
            &&& 1 <= candidates.len() <= 2
            &&& candidates[0] == "pdupload.toml"@
            &&& candidates.len() == 1 <==> !(is_windows && environment.app_data is Some)
                && environment.xdg_config_home is None && environment.home is None
            &&& is_windows && environment.app_data is Some ==> candidates[1] == file(
                environment.app_data->Some_0@,
            )
            &&& !(is_windows && environment.app_data is Some) && environment.xdg_config_home is Some
                ==> candidates[1] == file(environment.xdg_config_home->Some_0@)
            &&& !(is_windows && environment.app_data is Some) && environment.xdg_config_home is None
                && environment.home is Some ==> candidates[1] == file(
                joined_path(platform, environment.home->Some_0@, ".config"@),
            )
        }),
{
}

} // verus!
