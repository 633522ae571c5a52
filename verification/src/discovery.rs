//! Finding out where managed binaries and their data live.

use vstd::prelude::*;

use crate::layout::InstallLayout;
use crate::paths::{
    components, file_name, file_name_of, is_same_path, join_path, joined_path, parent, parent_of,
    same_path,
};
use crate::platform::Platform;
use crate::text::{concat, holds_part, lemma_part_is_held, owned, same_text};
use crate::xml::maybe_view;

verus! {

/// A path and the canonical form of what stands there; `None` where it has none.
#[derive(Debug)]
pub struct CanonicalPath {
    pub path: String,
    pub canonical: Option<String>,
}

/// The surroundings of the program: variables, its own path, the entries of `PATH`, and canonical
/// forms of paths.
#[derive(Debug)]
pub struct ToolsEnvironment {
    pub tools_home: Option<String>,
    pub tools_bin: Option<String>,
    pub local_app_data: Option<String>,
    pub xdg_data_home: Option<String>,
    pub cargo_home: Option<String>,
    pub home: Option<String>,
    pub user_profile: Option<String>,
    pub current_exe: Result<String, String>,
    pub search_path: Option<Vec<String>>,
    pub canonical_paths: Vec<CanonicalPath>,
}

/// Why a directory could not be found out.
#[derive(Debug, PartialEq, Eq)]
pub enum DiscoveryError {
    NoToolsHome,
    UnknownExecutable(String),
    NoUserHome,
}

impl DiscoveryError {
    /// What the error says.
    pub open spec fn text(self) -> Seq<char> {
        match self {
            DiscoveryError::NoToolsHome =>
                "could not determine a tools home directory; set ON9AU_TOOLS_HOME"@,
            DiscoveryError::UnknownExecutable(detail) =>
                "failed to resolve current executable path: "@ + detail@,
            DiscoveryError::NoUserHome =>
                "could not determine a home directory for the Cargo bin path"@,
        }
    }

    /// Says what could not be found out.
    pub fn message(&self) -> (message: String)
        ensures
            message@ == self.text(),
    {
        match self {
            DiscoveryError::NoToolsHome => owned(
                "could not determine a tools home directory; set ON9AU_TOOLS_HOME",
            ),
            DiscoveryError::UnknownExecutable(detail) => concat(
                "failed to resolve current executable path: ",
                detail.as_str(),
            ),
            DiscoveryError::NoUserHome => owned(
                "could not determine a home directory for the Cargo bin path",
            ),
        }
    }
}

/// The canonical form that the facts give for a path.
pub open spec fn canonical_of(facts: Seq<CanonicalPath>, path: Seq<char>) -> Option<Seq<char>>
    decreases facts.len(),
{
    if facts.len() == 0 {
        None
    } else if facts[0].path@ == path {
        maybe_view(facts[0].canonical)
    } else {
        canonical_of(facts.drop_first(), path)
    }
}

/// Whether two paths lead to one directory: by their canonical forms where both have one, by their
/// components where not.
pub open spec fn leads_to_same(
    platform: Platform,
    facts: Seq<CanonicalPath>,
    left: Seq<char>,
    right: Seq<char>,
) -> bool {
    match (canonical_of(facts, left), canonical_of(facts, right)) {
        (Some(first), Some(second)) => same_path(platform, first, second),
        _ => same_path(platform, left, right),
    }
}

/// Whether a directory is one that cargo builds into.
pub open spec fn is_cargo_target(platform: Platform, directory: Seq<char>) -> bool {
    &&& file_name_of(platform, directory) matches Some(profile)
    &&& profile == "debug"@ || profile == "release"@
    &&& parent_of(platform, directory) matches Some(above)
    &&& file_name_of(platform, above) == Some("target"@)
}

/// Whether one of the entries leads to a directory.
pub open spec fn is_among(
    platform: Platform,
    facts: Seq<CanonicalPath>,
    entries: Seq<String>,
    directory: Seq<char>,
) -> bool {
    exists|at: int|
        0 <= at < entries.len() && leads_to_same(platform, facts, #[trigger] entries[at]@, directory)
}

/// Whether a directory is an entry of `PATH`.
pub open spec fn is_searched(
    platform: Platform,
    environment: ToolsEnvironment,
    directory: Seq<char>,
) -> bool {
    match environment.search_path {
        Some(entries) => is_among(platform, environment.canonical_paths@, entries@, directory),
        None => false,
    }
}

/// The home of the tools: the variable for it, or a directory for the data of programs.
pub open spec fn tools_home_of(platform: Platform, environment: ToolsEnvironment) -> Option<
    Seq<char>,
> {
    match environment.tools_home {
        Some(home) => Some(home@),
        None => match platform {
            Platform::Windows => match environment.local_app_data {
                Some(data) => Some(joined_path(platform, data@, "on9au-tools"@)),
                None => None,
            },
            Platform::Unix => match (environment.xdg_data_home, environment.home) {
                (Some(data), _) => Some(joined_path(platform, data@, "on9au-tools"@)),
                (None, Some(home)) => Some(
                    joined_path(
                        platform,
                        joined_path(
                            platform,
                            joined_path(platform, home@, ".local"@),
                            "share"@,
                        ),
                        "on9au-tools"@,
                    ),
                ),
                (None, None) => None,
            },
        },
    }
}

/// The home of the user.
pub open spec fn user_home_of(platform: Platform, environment: ToolsEnvironment) -> Option<
    Seq<char>,
> {
    match environment.home {
        Some(home) => Some(home@),
        None => match platform {
            Platform::Windows => maybe_view(environment.user_profile),
            Platform::Unix => None,
        },
    }
}

/// The directory that cargo installs binaries into.
pub open spec fn cargo_bin_of(platform: Platform, environment: ToolsEnvironment) -> Option<
    Seq<char>,
> {
    match environment.cargo_home {
        Some(home) => Some(joined_path(platform, home@, "bin"@)),
        None => match user_home_of(platform, environment) {
            Some(home) => Some(joined_path(platform, joined_path(platform, home, ".cargo"@), "bin"@)),
            None => None,
        },
    }
}

/// The directory of the program itself, if binaries can be put there: one that is searched, and
/// that cargo does not build into.
pub open spec fn own_bin_of(platform: Platform, environment: ToolsEnvironment) -> Option<Seq<char>> {
    match environment.current_exe {
        Ok(program) => match parent_of(platform, program@) {
            Some(directory) => if is_searched(platform, environment, directory) && !is_cargo_target(
                platform,
                directory,
            ) {
                Some(directory)
            } else {
                None
            },
            None => None,
        },
        Err(_) => None,
    }
}

/// Whether looking for the directory of binaries has this result: the variable for it, the
/// program's own directory, then that of cargo.
pub open spec fn is_bin_result(
    platform: Platform,
    environment: ToolsEnvironment,
    result: Result<String, DiscoveryError>,
) -> bool {
    match (environment.tools_bin, environment.current_exe) {
        (Some(directory), _) => result matches Ok(path) && path@ == directory@,
        (None, Err(detail)) => {
            &&& result matches Err(DiscoveryError::UnknownExecutable(text))
            &&& text@ == detail@
        },
        (None, Ok(_)) => match (
            own_bin_of(platform, environment),
            cargo_bin_of(platform, environment),
        ) {
            (Some(directory), _) => result matches Ok(path) && path@ == directory,
            (None, Some(directory)) => result matches Ok(path) && path@ == directory,
            (None, None) => result == Err::<String, DiscoveryError>(DiscoveryError::NoUserHome),
        },
    }
}

/// The canonical form of a path.
pub fn canonicalize_path(facts: &Vec<CanonicalPath>, path: &str) -> (canonical: Option<String>)
    ensures
        maybe_view(canonical) == canonical_of(facts@, path@),
{
    let mut at: usize = 0;
    assert(facts@.skip(0) =~= facts@);
    while at < facts.len()
        invariant
            at <= facts@.len(),
            canonical_of(facts@, path@) == canonical_of(facts@.skip(at as int), path@),
        decreases facts@.len() - at,
    {
        assert(facts@.skip(at as int)[0] == facts@[at as int]);
        assert(facts@.skip(at as int).drop_first() =~= facts@.skip(at + 1));
        if same_text(facts[at].path.as_str(), path) {
            return match &facts[at].canonical {
                Some(canonical) => Some(canonical.clone()),
                None => None,
            };
        }
        at += 1;
    }
    None
}

/// Whether two paths lead to one directory.
pub fn same_directory(
    platform: Platform,
    facts: &Vec<CanonicalPath>,
    left: &str,
    right: &str,
) -> (answer: bool)
    ensures
        answer == leads_to_same(platform, facts@, left@, right@),
{
    match (canonicalize_path(facts, left), canonicalize_path(facts, right)) {
        (Some(first), Some(second)) => is_same_path(platform, first.as_str(), second.as_str()),
        _ => is_same_path(platform, left, right),
    }
}

/// Whether a directory is one that cargo builds into.
pub fn looks_like_cargo_target_bin_dir(platform: Platform, directory: &str) -> (answer: bool)
    ensures
        answer == is_cargo_target(platform, directory@),
{
    let profile = match file_name(platform, directory) {
        Some(profile) => profile,
        None => return false,
    };
    let above = match parent(platform, directory) {
        Some(above) => above,
        None => return false,
    };
    if !same_text(profile.as_str(), "debug") && !same_text(profile.as_str(), "release") {
        return false;
    }
    match file_name(platform, above.as_str()) {
        Some(name) => same_text(name.as_str(), "target"),
        None => false,
    }
}

/// Whether one of the entries leads to a directory.
fn leads_there(
    platform: Platform,
    facts: &Vec<CanonicalPath>,
    entries: &Vec<String>,
    directory: &str,
) -> (answer: bool)
    ensures
        answer == is_among(platform, facts@, entries@, directory@),
{
    let mut at: usize = 0;
    while at < entries.len()
        invariant
            at <= entries@.len(),
            forall|before: int|
                0 <= before < at ==> !leads_to_same(
                    platform,
                    facts@,
                    #[trigger] entries@[before]@,
                    directory@,
                ),
        decreases entries@.len() - at,
    {
        if same_directory(platform, facts, entries[at].as_str(), directory) {
            assert(leads_to_same(platform, facts@, entries@[at as int]@, directory@));
            return true;
        }
        at += 1;
    }
    false
}

/// Whether a directory is an entry of `PATH`.
pub fn is_directory_on_path(
    platform: Platform,
    environment: &ToolsEnvironment,
    directory: &str,
) -> (answer: bool)
    ensures
        answer == is_searched(platform, *environment, directory@),
{
    match &environment.search_path {
        Some(entries) => leads_there(platform, &environment.canonical_paths, entries, directory),
        None => false,
    }
}

/// The home of the tools.
pub fn resolve_tools_home_dir(platform: Platform, environment: &ToolsEnvironment) -> (result: Result<
    String,
    DiscoveryError,
>)
    ensures
        match tools_home_of(platform, *environment) {
            Some(home) => result matches Ok(path) && path@ == home,
            None => result == Err::<String, DiscoveryError>(DiscoveryError::NoToolsHome),
        },
{
    if let Some(home) = &environment.tools_home {
        return Ok(home.clone());
    }
    match platform {
        Platform::Windows => match &environment.local_app_data {
            Some(data) => Ok(join_path(platform, data.as_str(), "on9au-tools")),
            None => Err(DiscoveryError::NoToolsHome),
        },
        Platform::Unix => {
            if let Some(data) = &environment.xdg_data_home {
                return Ok(join_path(platform, data.as_str(), "on9au-tools"));
            }
            match &environment.home {
                Some(home) => {
                    let local = join_path(platform, home.as_str(), ".local");
                    let share = join_path(platform, local.as_str(), "share");
                    Ok(join_path(platform, share.as_str(), "on9au-tools"))
                },
                None => Err(DiscoveryError::NoToolsHome),
            }
        },
    }
}

/// The home of the user.
pub fn user_home_dir(platform: Platform, environment: &ToolsEnvironment) -> (result: Result<
    String,
    DiscoveryError,
>)
    ensures
        match user_home_of(platform, *environment) {
            Some(home) => result matches Ok(path) && path@ == home,
            None => result == Err::<String, DiscoveryError>(DiscoveryError::NoUserHome),
        },
{
    if let Some(home) = &environment.home {
        return Ok(home.clone());
    }
    match (platform, &environment.user_profile) {
        (Platform::Windows, Some(profile)) => Ok(profile.clone()),
        _ => Err(DiscoveryError::NoUserHome),
    }
}

/// The directory that cargo installs binaries into.
pub fn cargo_bin_dir(platform: Platform, environment: &ToolsEnvironment) -> (result: Result<
    String,
    DiscoveryError,
>)
    ensures
        match cargo_bin_of(platform, *environment) {
            Some(directory) => result matches Ok(path) && path@ == directory,
            None => result == Err::<String, DiscoveryError>(DiscoveryError::NoUserHome),
        },
{
    if let Some(home) = &environment.cargo_home {
        return Ok(join_path(platform, home.as_str(), "bin"));
    }
    match user_home_dir(platform, environment) {
        Ok(home) => {
            let directory = join_path(platform, home.as_str(), ".cargo");
            Ok(join_path(platform, directory.as_str(), "bin"))
        },
        Err(error) => Err(error),
    }
}

/// The directory of binaries.
pub fn resolve_managed_bin_dir(platform: Platform, environment: &ToolsEnvironment) -> (result:
    Result<String, DiscoveryError>)
    ensures
        is_bin_result(platform, *environment, result),
{
    if let Some(directory) = &environment.tools_bin {
        return Ok(directory.clone());
    }
    let program = match &environment.current_exe {
        Ok(program) => program,
        Err(detail) => return Err(DiscoveryError::UnknownExecutable(detail.clone())),
    };
    if let Some(directory) = parent(platform, program.as_str()) {
        if is_directory_on_path(platform, environment, directory.as_str())
            && !looks_like_cargo_target_bin_dir(platform, directory.as_str()) {
            return Ok(directory);
        }
    }
    cargo_bin_dir(platform, environment)
}

impl InstallLayout {
    /// Finds out the layout: first the home of the tools, then the directory of the binaries.
    pub fn discover(platform: Platform, environment: &ToolsEnvironment) -> (result: Result<
        InstallLayout,
        DiscoveryError,
    >)
        ensures
            match tools_home_of(platform, *environment) {
                Some(home) => match result {
                    Ok(layout) => layout@.platform == platform && layout@.home == home && exists|
                        bin: String,
                    |
                        layout@.bin == bin@ && #[trigger] is_bin_result(
                            platform,
                            *environment,
                            Ok::<String, DiscoveryError>(bin),
                        ),
                    Err(error) => is_bin_result(
                        platform,
                        *environment,
                        Err::<String, DiscoveryError>(error),
                    ),
                },
                None => result == Err::<InstallLayout, DiscoveryError>(DiscoveryError::NoToolsHome),
            },
    {
        let home = match resolve_tools_home_dir(platform, environment) {
            Ok(home) => home,
            Err(error) => return Err(error),
        };
        match resolve_managed_bin_dir(platform, environment) {
            Ok(bin) => Ok(InstallLayout::for_paths(platform, home, bin)),
            Err(error) => Err(error),
        }
    }
}

/// With both variables set, the layout is made of what they say, whatever else the surroundings
/// hold.
pub proof fn law_variables_come_first(
    platform: Platform,
    environment: ToolsEnvironment,
    bin: Result<String, DiscoveryError>,
)
    requires
        environment.tools_home is Some,
        environment.tools_bin is Some,
        is_bin_result(platform, environment, bin),
    ensures
        tools_home_of(platform, environment) == Some(environment.tools_home->Some_0@),
        bin matches Ok(path) && path@ == environment.tools_bin->Some_0@,
{
}

/// Binaries are never put where cargo builds, unless a variable asks for it or cargo itself
/// installs there.
pub proof fn law_build_directories_are_avoided(
    platform: Platform,
    environment: ToolsEnvironment,
    bin: Result<String, DiscoveryError>,
)
    requires
        environment.tools_bin is None,
        is_bin_result(platform, environment, bin),
        bin matches Ok(path) && is_cargo_target(platform, path@),
    ensures
        bin matches Ok(path) && cargo_bin_of(platform, environment) == Some(path@),
{
}

/// Leading to the same directory does not depend on which path comes first, and a path leads where
/// it leads.
pub proof fn law_same_directory_is_symmetric(
    platform: Platform,
    facts: Seq<CanonicalPath>,
    left: Seq<char>,
    right: Seq<char>,
)
    ensures
        leads_to_same(platform, facts, left, right) == leads_to_same(platform, facts, right, left),
        leads_to_same(platform, facts, left, left),
{
}

/// The canonical form of a path is what the first fact on it says; none where no fact is on it.
pub proof fn law_first_canonical_form_counts(
    facts: Seq<CanonicalPath>,
    path: Seq<char>,
) -> (at: int)
    ensures
        ({
            ||| 0 <= at < facts.len() && facts[at].path@ == path && (match facts[at].canonical {
                Some(form) => canonical_of(facts, path) == Some(form@),
                None => canonical_of(facts, path) is None,
            }) && forall|before: int| 0 <= before < at ==> (#[trigger] facts[before]).path@ != path
            ||| canonical_of(facts, path) is None && forall|other: int|
                0 <= other < facts.len() ==> (#[trigger] facts[other]).path@ != path
        }),
    decreases facts.len(),
{
    if facts.len() == 0 || facts[0].path@ == path {
        0
    } else {
        let rest = facts.drop_first();
        let at = law_first_canonical_form_counts(rest, path);
        assert(forall|other: int| 0 < other < facts.len() ==> #[trigger] facts[other] == rest[other
            - 1]);
        at + 1
    }
}

/// Two paths lead to the same directory where their canonical forms have the same components, and,
/// where one of them has no such form, where they have the same components themselves.
pub proof fn law_same_directory_by_components(
    platform: Platform,
    facts: Seq<CanonicalPath>,
    left: Seq<char>,
    right: Seq<char>,
)
    ensures
        canonical_of(facts, left) is Some && canonical_of(facts, right) is Some ==> (leads_to_same(
            platform,
            facts,
            left,
            right,
        ) <==> components(platform, canonical_of(facts, left)->Some_0) == components(
            platform,
            canonical_of(facts, right)->Some_0,
        )),
        canonical_of(facts, left) is None || canonical_of(facts, right) is None ==> (leads_to_same(
            platform,
            facts,
            left,
            right,
        ) <==> components(platform, left) == components(platform, right)),
{
}

/// A directory is searched exactly where an entry of the search path leads there.
pub proof fn law_search_goes_through_all_entries(
    platform: Platform,
    environment: ToolsEnvironment,
    directory: Seq<char>,
)
    ensures
        is_searched(platform, environment, directory) <==> (
        environment.search_path matches Some(entries) && exists|at: int|
            0 <= at < entries@.len() && leads_to_same(
                platform,
                environment.canonical_paths@,
                (#[trigger] entries@[at])@,
                directory,
            )),
{
}

/// A directory is one of a build only by its own name and that of its parent.
pub proof fn law_only_build_directories(platform: Platform, directory: Seq<char>)
    ensures
        is_cargo_target(platform, directory) <==> {
            &&& file_name_of(platform, directory) == Some("debug"@) || file_name_of(
                platform,
                directory,
            ) == Some("release"@)
            &&& parent_of(platform, directory) matches Some(above) && file_name_of(platform, above)
                == Some("target"@)
        },
{
}

/// Where data lives: where the variable says; else in the data directory of the user, which at home
/// is `.local/share`, or on Windows in that of the applications.
pub proof fn law_tools_home(platform: Platform, environment: ToolsEnvironment)
    ensures
        environment.tools_home matches Some(home) ==> tools_home_of(platform, environment) == Some(
            home@,
        ),
        environment.tools_home is None && platform == Platform::Windows ==> match tools_home_of(
            platform,
            environment,
        ) {
            Some(home) => environment.local_app_data matches Some(data) && home == joined_path(
                platform,
                data@,
                "on9au-tools"@,
            ),
            None => environment.local_app_data is None,
        },
        environment.tools_home is None && platform == Platform::Unix ==> match tools_home_of(
            platform,
            environment,
        ) {
            Some(home) => {
                let data = if environment.xdg_data_home is Some {
                    environment.xdg_data_home->Some_0@
                } else {
                    joined_path(
                        platform,
                        joined_path(platform, environment.home->Some_0@, ".local"@),
                        "share"@,
                    )
                };
                &&& environment.xdg_data_home is Some || environment.home is Some
                &&& home == joined_path(platform, data, "on9au-tools"@)
            },
            None => environment.xdg_data_home is None && environment.home is None,
        },
{
}

/// Where binaries live: where the variable says; else beside the program, where that is searched
/// and no build directory; else with those of Cargo, at its home or that of the user.
pub proof fn law_managed_bin(
    platform: Platform,
    environment: ToolsEnvironment,
    result: Result<String, DiscoveryError>,
)
    requires
        is_bin_result(platform, environment, result),
    ensures
        environment.tools_bin matches Some(directory) ==> (result matches Ok(path) && path@
            == directory@),
        environment.tools_bin is None && environment.current_exe is Err ==> (result matches Err(
            DiscoveryError::UnknownExecutable(text),
        ) && text@ == environment.current_exe->Err_0@),
        environment.tools_bin is None && environment.current_exe is Ok ==> {
            let own = parent_of(platform, environment.current_exe->Ok_0@);
            let is_own = own is Some && is_searched(platform, environment, own->Some_0)
                && !is_cargo_target(platform, own->Some_0);
            let home = if environment.home is Some {
                environment.home
            } else if platform == Platform::Windows {
                environment.user_profile
            } else {
                None
            };
            &&& is_own ==> (result matches Ok(path) && path@ == own->Some_0)
            &&& !is_own && environment.cargo_home is Some ==> (result matches Ok(path) && path@
                == joined_path(platform, environment.cargo_home->Some_0@, "bin"@))
            &&& !is_own && environment.cargo_home is None && home is Some ==> (result matches Ok(
                path,
            ) && path@ == joined_path(
                platform,
                joined_path(platform, home->Some_0@, ".cargo"@),
                "bin"@,
            ))
            &&& !is_own && environment.cargo_home is None && home is None ==> result == Err::<
                String,
                DiscoveryError,
            >(DiscoveryError::NoUserHome)
        },
{
}

/// An error says what was wrong where the system told it.
pub proof fn law_errors_say_what_was_wrong(error: DiscoveryError)
    ensures
        ({
            let text = error.text();
            match error {
                DiscoveryError::UnknownExecutable(detail) => holds_part(text, detail@),
                _ => true,
            }
        }),
{
    let text = error.text();
    match error {
        DiscoveryError::UnknownExecutable(detail) => {
            let front = "failed to resolve current executable path: "@;
            let back = Seq::<char>::empty();
            assert(text =~= front + detail@ + back);
            lemma_part_is_held(front, detail@, back);
        },
        _ => {},
    }
}

} // verus!
