//! Finding a git repository by a few letters of its name.

use vstd::prelude::*;

use crate::listing::{entries_of_kind, is_listing_result, EntryKind, Listing, ListingError};
use crate::lowercase::{folded, small_text, to_small_text};
use crate::matching::{is_match, is_subsequence};
use crate::order::stable_order;
use crate::paths::{file_name, file_name_of};
use crate::platform::Platform;
use crate::sorting::{
    arrange, is_arranged, is_sorted_copy, is_stable_listing, law_sorting_is_stable,
    law_sorting_keeps_all, lemma_listing_by_keys,
};
use crate::tables::{draw_table, row_views, table_text};
use crate::text::{
    chars_of, concat, holds_part, is_smaller_at, law_first_difference_decides, lemma_part_is_held,
    owned, text_at_most, views, TextKey,
};

verus! {

/// A repository, laid out as `<root>/<owner>/<repo>`.
#[derive(Debug)]
pub struct Repo {
    pub owner: String,
    pub name: String,
    pub path: String,
}

/// What a repository is.
pub struct RepoView {
    pub owner: Seq<char>,
    pub name: Seq<char>,
    pub path: Seq<char>,
}

/// The directory of an owner, with the directories in it.
#[derive(Debug)]
pub struct OwnerDirectory {
    pub path: String,
    pub repositories: Vec<String>,
}

/// The shells that have an integration snippet.
#[derive(Debug, Clone, Copy, PartialEq, Eq, Structural)]
pub enum Shell {
    Powershell,
    Bash,
    Zsh,
    Fish,
}

/// Why there is no repository to go to.
#[derive(Debug, PartialEq, Eq)]
pub enum RepoError {
    NoRoot,
    NotADirectory(String),
    /// The directory could not be listed.
    Listing(String, ListingError),
    NoRepos(String),
    NoMatch(String),
}

/// What to do with the repositories that match, given by their places.
#[derive(Debug, PartialEq, Eq)]
pub enum Decision {
    /// Print them as a table.
    Table(Vec<usize>),
    /// Go to this one.
    Chosen(usize),
    /// Let the user pick.
    Ask(Vec<usize>),
}

impl View for Repo {
    type V = RepoView;

    open spec fn view(&self) -> RepoView {
        RepoView { owner: self.owner@, name: self.name@, path: self.path@ }
    }
}

/// The views of a list of repositories.
pub open spec fn repo_views(repos: Seq<Repo>) -> Seq<RepoView> {
    repos.map_values(|repo: Repo| repo@)
}

/// The label of a repository: `owner/repo`.
pub open spec fn slug_of(repo: RepoView) -> Seq<char> {
    repo.owner + "/"@ + repo.name
}

impl Repo {
    /// The label of the repository: `owner/repo`.
    pub fn slug(&self) -> (slug: String)
        ensures
            slug@ == slug_of(self@),
    {
        let mut slug = concat(self.owner.as_str(), "/");
        slug.append(self.name.as_str());
        slug
    }
}

impl RepoError {
    /// What the error says.
    pub open spec fn text(self) -> Seq<char> {
        match self {
            RepoError::NoRoot => "no git root configured; set CDGIT_ROOT or pass --root"@,
            RepoError::NotADirectory(root) => "git root `"@ + root@ + "` is not a directory"@,
            RepoError::Listing(directory, cause) => match cause {
                ListingError::Directory(detail) => "failed to read `"@ + directory@ + "`: "@
                    + detail@,
                ListingError::Entry(detail) => "failed to read an entry in `"@ + directory@
                    + "`: "@ + detail@,
                ListingError::Inspection(path, detail) => "failed to inspect `"@ + path@ + "`: "@
                    + detail@,
            },
            RepoError::NoRepos(root) => "no `<owner>/<repo>` directories found under `"@ + root@
                + "`"@,
            RepoError::NoMatch(query) => "no repo matches `"@ + query@ + "`"@,
        }
    }

    /// Says why there is no repository to go to.
    pub fn message(&self) -> (message: String)
        ensures
            message@ == self.text(),
    {
        match self {
            RepoError::NoRoot => owned("no git root configured; set CDGIT_ROOT or pass --root"),
            RepoError::NotADirectory(root) => {
                let mut message = concat("git root `", root.as_str());
                message.append("` is not a directory");
                message
            },
            RepoError::Listing(directory, cause) => match cause {
                ListingError::Directory(detail) => {
                    let mut message = concat("failed to read `", directory.as_str());
                    message.append("`: ");
                    message.append(detail.as_str());
                    message
                },
                ListingError::Entry(detail) => {
                    let mut message = concat("failed to read an entry in `", directory.as_str());
                    message.append("`: ");
                    message.append(detail.as_str());
                    message
                },
                ListingError::Inspection(path, detail) => {
                    let mut message = concat("failed to inspect `", path.as_str());
                    message.append("`: ");
                    message.append(detail.as_str());
                    message
                },
            },
            RepoError::NoRepos(root) => {
                let mut message = concat(
                    "no `<owner>/<repo>` directories found under `",
                    root.as_str(),
                );
                message.append("`");
                message
            },
            RepoError::NoMatch(query) => {
                let mut message = concat("no repo matches `", query.as_str());
                message.append("`");
                message
            },
        }
    }
}

/// Requires that a root was configured.
pub fn configured_root(root: Option<String>) -> (result: Result<String, RepoError>)
    ensures
        match root {
            Some(path) => result == Ok::<String, RepoError>(path),
            None => result == Err::<String, RepoError>(RepoError::NoRoot),
        },
{
    match root {
        Some(path) => Ok(path),
        None => Err(RepoError::NoRoot),
    }
}

/// Requires that the root is a directory.
pub fn checked_root(root: &str, is_directory: bool) -> (result: Result<(), RepoError>)
    ensures
        match result {
            Ok(_) => is_directory,
            Err(error) => !is_directory && (error matches RepoError::NotADirectory(path) && path@
                == root@),
        },
{
    if is_directory {
        Ok(())
    } else {
        Err(RepoError::NotADirectory(owned(root)))
    }
}

/// The directories right under a directory.
pub fn subdirectories(directory: &str, listing: &Listing) -> (result: Result<
    Vec<String>,
    RepoError,
>)
    ensures
        match result {
            Ok(paths) => is_listing_result(
                *listing,
                EntryKind::Directory,
                Ok::<Vec<String>, ListingError>(paths),
            ),
            Err(error) => {
                &&& error matches RepoError::Listing(place, cause)
                &&& place@ == directory@
                &&& is_listing_result(
                    *listing,
                    EntryKind::Directory,
                    Err::<Vec<String>, ListingError>(cause),
                )
            },
        },
{
    match entries_of_kind(listing, EntryKind::Directory) {
        Ok(paths) => Ok(paths),
        Err(cause) => Err(RepoError::Listing(owned(directory), cause)),
    }
}

/// The name of a directory; nothing where its path does not end in a name.
pub open spec fn name_of(platform: Platform, path: Seq<char>) -> Seq<char> {
    match file_name_of(platform, path) {
        Some(name) => name,
        None => Seq::empty(),
    }
}

/// The name of a directory.
pub fn directory_name(platform: Platform, path: &str) -> (name: String)
    ensures
        name@ == name_of(platform, path@),
{
    match file_name(platform, path) {
        Some(name) => name,
        None => String::new(),
    }
}

/// The repository at a path in the directory of an owner.
pub open spec fn repo_at(platform: Platform, owner: Seq<char>, path: Seq<char>) -> RepoView {
    RepoView { owner: name_of(platform, owner), name: name_of(platform, path), path }
}

/// The first `count` repositories of an owner.
pub open spec fn repos_of(platform: Platform, owner: OwnerDirectory, count: int) -> Seq<RepoView> {
    Seq::new(count as nat, |at: int| repo_at(platform, owner.path@, owner.repositories@[at]@))
}

/// The repositories of all owners, one owner behind the other.
pub open spec fn listed_repos(platform: Platform, owners: Seq<OwnerDirectory>) -> Seq<RepoView>
    decreases owners.len(),
{
    if owners.len() == 0 {
        Seq::empty()
    } else {
        listed_repos(platform, owners.drop_last()) + repos_of(
            platform,
            owners.last(),
            owners.last().repositories@.len() as int,
        )
    }
}

/// Lists the repositories of all owners.
fn list_repos(platform: Platform, owners: &Vec<OwnerDirectory>) -> (repos: Vec<Repo>)
    ensures
        repo_views(repos@) == listed_repos(platform, owners@),
{
    let mut repos: Vec<Repo> = Vec::new();
    let mut at: usize = 0;
    assert(repo_views(repos@) =~= listed_repos(platform, owners@.take(0)));
    while at < owners.len()
        invariant
            at <= owners@.len(),
            repo_views(repos@) == listed_repos(platform, owners@.take(at as int)),
        decreases owners@.len() - at,
    {
        let ghost longer = owners@.take(at + 1);
        assert(longer.drop_last() =~= owners@.take(at as int));
        assert(longer.last() == owners@[at as int]);
        let ghost before = repo_views(repos@);
        let directory = &owners[at];
        let owner = directory_name(platform, directory.path.as_str());
        let mut next: usize = 0;
        assert(repo_views(repos@) =~= before + repos_of(platform, *directory, 0));
        while next < directory.repositories.len()
            invariant
                next <= directory.repositories@.len(),
                owner@ == name_of(platform, directory.path@),
                repo_views(repos@) == before + repos_of(platform, *directory, next as int),
            decreases directory.repositories@.len() - next,
        {
            let path = &directory.repositories[next];
            let repo = Repo {
                owner: owner.clone(),
                name: directory_name(platform, path.as_str()),
                path: path.clone(),
            };
            let ghost earlier = repos@;
            repos.push(repo);
            next += 1;
            assert(repo_views(repos@) =~= repo_views(earlier).push(repo@));
            assert(repo_views(repos@) =~= before + repos_of(platform, *directory, next as int));
        }
        at += 1;
    }
    assert(owners@.take(at as int) =~= owners@);
    repos
}

/// The order of repositories: by label, in either case.
pub open spec fn slug_order() -> spec_fn(RepoView, RepoView) -> bool {
    |left: RepoView, right: RepoView|
        text_at_most(small_text(slug_of(left)), small_text(slug_of(right)))
}

/// Finds the repositories of all owners, sorted by label.
pub fn scan(platform: Platform, owners: &Vec<OwnerDirectory>) -> (repos: Vec<Repo>)
    ensures
        is_sorted_copy(listed_repos(platform, owners@), repo_views(repos@), slug_order()),
{
    let found = list_repos(platform, owners);
    let ghost items = repo_views(found@);
    let mut keys: Vec<TextKey> = Vec::new();
    let mut at: usize = 0;
    while at < found.len()
        invariant
            at <= found@.len(),
            keys@.len() == at,
            forall|done: int|
                0 <= done < at ==> (#[trigger] keys@[done]).chars@ == small_text(
                    slug_of(found@[done]@),
                ),
        decreases found@.len() - at,
    {
        let small = to_small_text(found[at].slug().as_str());
        keys.push(TextKey { chars: chars_of(small.as_str()) });
        at += 1;
    }
    let order = stable_order(&keys);
    proof {
        lemma_listing_by_keys(items, keys@, order@, slug_order());
        assert(is_stable_listing(items, order@, slug_order()));
    }
    let ghost unsorted = found@;
    let repos = arrange(found, &order);
    proof {
        assert forall|place: int| 0 <= place < order@.len() implies #[trigger] repo_views(
            repos@,
        )[place] == items[order@[place] as int] by {
            assert(repos@[place] == unsorted[order@[place] as int]);
        }
        assert(is_arranged(items, order@, repo_views(repos@)));
    }
    repos
}

/// Whether a repository is asked for: without a query all are.
pub open spec fn is_wanted(repo: RepoView, query: Option<String>) -> bool {
    match query {
        Some(text) => is_subsequence(folded(text@), folded(slug_of(repo))),
        None => true,
    }
}

/// The places of the repositories that are asked for.
pub open spec fn wanted_places(repos: Seq<RepoView>, query: Option<String>) -> Seq<usize>
    decreases repos.len(),
{
    if repos.len() == 0 {
        Seq::empty()
    } else {
        let before = wanted_places(repos.drop_last(), query);
        if is_wanted(repos.last(), query) {
            before.push((repos.len() - 1) as usize)
        } else {
            before
        }
    }
}

/// Finds the repositories that are asked for.
pub fn find_matches(repos: &Vec<Repo>, query: &Option<String>) -> (places: Vec<usize>)
    ensures
        places@ == wanted_places(repo_views(repos@), *query),
{
    let mut places: Vec<usize> = Vec::new();
    let mut at: usize = 0;
    let ghost all = repo_views(repos@);
    assert(places@ =~= wanted_places(all.take(0), *query));
    while at < repos.len()
        invariant
            at <= repos@.len(),
            all == repo_views(repos@),
            places@ == wanted_places(all.take(at as int), *query),
        decreases repos@.len() - at,
    {
        let ghost longer = all.take(at + 1);
        assert(longer.drop_last() =~= all.take(at as int));
        assert(longer.last() == repos@[at as int]@);
        let wanted = match query {
            Some(text) => is_match(repos[at].slug().as_str(), text.as_str()),
            None => true,
        };
        if wanted {
            places.push(at);
        }
        at += 1;
    }
    assert(all.take(at as int) =~= all);
    places
}

/// Every repository that is asked for has its place in the list, and the places ascend.
pub proof fn law_matches_are_exactly_the_wanted(repos: Seq<RepoView>, query: Option<String>)
    requires
        repos.len() <= usize::MAX,
    ensures
        forall|place: usize|
            wanted_places(repos, query).contains(place) <==> place < repos.len() && is_wanted(
                repos[place as int],
                query,
            ),
        forall|left: int, right: int|
            0 <= left < right < wanted_places(repos, query).len() ==> (#[trigger] wanted_places(
                repos,
                query,
            )[left]) < (#[trigger] wanted_places(repos, query)[right]),
    decreases repos.len(),
{
    if repos.len() > 0 {
        let rest = repos.drop_last();
        law_matches_are_exactly_the_wanted(rest, query);
        let before = wanted_places(rest, query);
        let all = wanted_places(repos, query);
        let last = (repos.len() - 1) as usize;
        assert forall|place: usize| all.contains(place) <==> place < repos.len() && is_wanted(
            repos[place as int],
            query,
        ) by {
            if all.contains(place) {
                let at = choose|at: int| 0 <= at < all.len() && all[at] == place;
                if at < before.len() {
                    assert(before[at] == place);
                    assert(before.contains(place));
                }
            }
            if place < repos.len() && is_wanted(repos[place as int], query) {
                if place < last {
                    assert(rest[place as int] == repos[place as int]);
                    assert(before.contains(place));
                    let at = choose|at: int| 0 <= at < before.len() && before[at] == place;
                    assert(all[at] == place);
                } else {
                    assert(all[all.len() - 1] == last);
                }
            }
        }
        assert forall|left: int, right: int| 0 <= left < right < all.len() implies (
        #[trigger] all[left]) < (#[trigger] all[right]) by {
            assert(all[left] == before[left]);
            assert(before.contains(before[left]));
            if right < before.len() {
                assert(all[right] == before[right]);
            }
        }
    }
}

/// Whether this is what is done: nothing found or nothing asked for is an error; otherwise what is
/// asked for is listed, taken where it is the only one, or offered.
pub open spec fn is_decision(
    root: Seq<char>,
    repos: Seq<RepoView>,
    query: Option<String>,
    list: bool,
    result: Result<Decision, RepoError>,
) -> bool {
    let wanted = wanted_places(repos, query);
    if repos.len() == 0 {
        &&& result matches Err(RepoError::NoRepos(path))
        &&& path@ == root
    } else if wanted.len() == 0 {
        &&& result matches Err(RepoError::NoMatch(text))
        &&& query is Some
        &&& text@ == query->0@
    } else if list {
        &&& result matches Ok(Decision::Table(places))
        &&& places@ == wanted
    } else if wanted.len() == 1 {
        result == Ok::<Decision, RepoError>(Decision::Chosen(wanted[0]))
    } else {
        &&& result matches Ok(Decision::Ask(places))
        &&& places@ == wanted
    }
}

/// Decides what to do with the repositories that were found.
pub fn decide(root: &str, repos: &Vec<Repo>, query: &Option<String>, list: bool) -> (result: Result<
    Decision,
    RepoError,
>)
    ensures
        is_decision(root@, repo_views(repos@), *query, list, result),
{
    if repos.len() == 0 {
        return Err(RepoError::NoRepos(owned(root)));
    }
    let places = find_matches(repos, query);
    if places.len() == 0 {
        // Without a query every repository matches.
        assert(query is None ==> is_wanted(repo_views(repos@).last(), *query));
        let text = match query {
            Some(text) => text.clone(),
            None => String::new(),
        };
        return Err(RepoError::NoMatch(text));
    }
    if list {
        Ok(Decision::Table(places))
    } else if places.len() == 1 {
        Ok(Decision::Chosen(places[0]))
    } else {
        Ok(Decision::Ask(places))
    }
}

/// The repository that the user picked out of those offered; `None` where the choice was cancelled.
pub fn picked(places: &Vec<usize>, selection: Option<usize>) -> (place: Option<usize>)
    requires
        selection matches Some(at) ==> at < places@.len(),
    ensures
        match selection {
            Some(at) => place == Some(places@[at as int]),
            None => place is None,
        },
{
    match selection {
        Some(at) => Some(places[at]),
        None => None,
    }
}

/// The labels of the repositories at the given places.
pub fn slugs(repos: &Vec<Repo>, places: &Vec<usize>) -> (labels: Vec<String>)
    requires
        forall|at: int| 0 <= at < places@.len() ==> #[trigger] places@[at] < repos@.len(),
    ensures
        labels@.len() == places@.len(),
        forall|at: int|
            0 <= at < places@.len() ==> (#[trigger] labels@[at])@ == slug_of(
                repos@[places@[at] as int]@,
            ),
{
    let mut labels: Vec<String> = Vec::new();
    let mut at: usize = 0;
    while at < places.len()
        invariant
            at <= places@.len(),
            labels@.len() == at,
            forall|at: int| 0 <= at < places@.len() ==> #[trigger] places@[at] < repos@.len(),
            forall|done: int|
                0 <= done < at ==> (#[trigger] labels@[done])@ == slug_of(
                    repos@[places@[done] as int]@,
                ),
        decreases places@.len() - at,
    {
        labels.push(repos[places[at]].slug());
        at += 1;
    }
    labels
}

/// The cells of the repositories at the given places: owner, name and path.
pub open spec fn cells_at(repos: Seq<RepoView>, places: Seq<usize>) -> Seq<Seq<Seq<char>>> {
    places.map_values(
        |place: usize|
            seq![repos[place as int].owner, repos[place as int].name, repos[place as int].path],
    )
}

/// The rows of the table of repositories.
pub fn repo_rows(repos: &Vec<Repo>, places: &Vec<usize>) -> (rows: Vec<Vec<String>>)
    requires
        forall|at: int| 0 <= at < places@.len() ==> #[trigger] places@[at] < repos@.len(),
    ensures
        row_views(rows@) == cells_at(repo_views(repos@), places@),
{
    let mut rows: Vec<Vec<String>> = Vec::new();
    let mut at: usize = 0;
    while at < places.len()
        invariant
            at <= places@.len(),
            rows@.len() == at,
            forall|at: int| 0 <= at < places@.len() ==> #[trigger] places@[at] < repos@.len(),
            forall|done: int|
                0 <= done < at ==> views((#[trigger] rows@[done])@) == cells_at(
                    repo_views(repos@),
                    places@,
                )[done],
        decreases places@.len() - at,
    {
        let repo = &repos[places[at]];
        let mut row: Vec<String> = Vec::new();
        row.push(repo.owner.clone());
        row.push(repo.name.clone());
        row.push(repo.path.clone());
        assert(views(row@) =~= cells_at(repo_views(repos@), places@)[at as int]);
        rows.push(row);
        at += 1;
    }
    assert(row_views(rows@) =~= cells_at(repo_views(repos@), places@));
    rows
}

/// The table of the repositories at the given places.
pub fn repo_table(repos: &Vec<Repo>, places: &Vec<usize>) -> (text: String)
    requires
        forall|at: int| 0 <= at < places@.len() ==> #[trigger] places@[at] < repos@.len(),
    ensures
        text@ == table_text(
            seq!["OWNER"@, "REPO"@, "PATH"@],
            cells_at(repo_views(repos@), places@),
        ),
{
    let mut header: Vec<String> = Vec::new();
    header.push(owned("OWNER"));
    header.push(owned("REPO"));
    header.push(owned("PATH"));
    assert(views(header@) =~= seq!["OWNER"@, "REPO"@, "PATH"@]);
    draw_table(header, repo_rows(repos, places))
}

/// The snippet of a shell.
pub open spec fn snippet(shell: Shell) -> Seq<char> {
    match shell {
        Shell::Powershell => "function cg {\n    $dir = cdgit @args\n    if ($LASTEXITCODE -eq 0 -and $dir) { Set-Location $dir }\n}\n"@,
        Shell::Bash | Shell::Zsh => "cg() {\n    local dir\n    dir=\"$(cdgit \"$@\")\" && [ -n \"$dir\" ] && cd \"$dir\"\n}\n"@,
        Shell::Fish => "function cg\n    set -l dir (cdgit $argv)\n    and test -n \"$dir\"\n    and cd $dir\nend\n"@,
    }
}

/// The snippet that defines a `cg` command in a shell.
pub fn init_snippet(shell: Shell) -> (text: &'static str)
    ensures
        text@ == snippet(shell),
{
    match shell {
        Shell::Powershell => "function cg {\n    $dir = cdgit @args\n    if ($LASTEXITCODE -eq 0 -and $dir) { Set-Location $dir }\n}\n",
        Shell::Bash | Shell::Zsh => "cg() {\n    local dir\n    dir=\"$(cdgit \"$@\")\" && [ -n \"$dir\" ] && cd \"$dir\"\n}\n",
        Shell::Fish => "function cg\n    set -l dir (cdgit $argv)\n    and test -n \"$dir\"\n    and cd $dir\nend\n",
    }
}

/// Whether a place, of an owner and of a path in their directory, is that of a repository.
pub open spec fn is_repository_place(owners: Seq<OwnerDirectory>, place: (int, int)) -> bool {
    0 <= place.0 < owners.len() && 0 <= place.1 < owners[place.0].repositories@.len()
}

/// Whether a repository is that at a place: it has the path there, named as the path ends, and its
/// owner is named as the path of the owner ends.
pub open spec fn is_repository_at(
    platform: Platform,
    owners: Seq<OwnerDirectory>,
    place: (int, int),
    repo: RepoView,
) -> bool {
    &&& repo.path == owners[place.0].repositories@[place.1]@
    &&& match file_name_of(platform, repo.path) {
        Some(name) => repo.name == name,
        None => repo.name.len() == 0,
    }
    &&& match file_name_of(platform, owners[place.0].path@) {
        Some(name) => repo.owner == name,
        None => repo.owner.len() == 0,
    }
}

/// How many repositories the owners have together.
pub open spec fn repository_count(owners: Seq<OwnerDirectory>) -> nat
    decreases owners.len(),
{
    if owners.len() == 0 {
        0
    } else {
        owners[0].repositories@.len() + repository_count(owners.drop_first())
    }
}

/// The repositories of two lists of owners are those of the first and those of the second, and
/// those of one owner are one for each of their paths.
pub proof fn law_listing_goes_on(
    platform: Platform,
    one: Seq<OwnerDirectory>,
    other: Seq<OwnerDirectory>,
)
    ensures
        listed_repos(platform, one + other) == listed_repos(platform, one) + listed_repos(
            platform,
            other,
        ),
        one.len() == 0 ==> listed_repos(platform, one).len() == 0,
        one.len() == 1 ==> listed_repos(platform, one).len() == one[0].repositories@.len()
            && forall|at: int|
            0 <= at < one[0].repositories@.len() ==> is_repository_at(
                platform,
                one,
                (0, at),
                #[trigger] listed_repos(platform, one)[at],
            ),
    decreases other.len(),
{
    if one.len() == 1 {
        assert(one.drop_last() =~= Seq::empty());
        assert(listed_repos(platform, one.drop_last()).len() == 0);
        assert(one.last() == one[0]);
        assert(listed_repos(platform, one) =~= repos_of(
            platform,
            one[0],
            one[0].repositories@.len() as int,
        ));
    }
    if other.len() == 0 {
        assert(one + other =~= one);
        assert(listed_repos(platform, one + other) =~= listed_repos(platform, one) + listed_repos(
            platform,
            other,
        ));
    } else {
        law_listing_goes_on(platform, one, other.drop_last());
        assert((one + other).drop_last() =~= one + other.drop_last());
        assert((one + other).last() == other.last());
        assert(listed_repos(platform, one + other) =~= listed_repos(platform, one) + listed_repos(
            platform,
            other,
        ));
    }
}

/// As many repositories are listed as the owners have together.
pub proof fn law_listing_counts_all(platform: Platform, owners: Seq<OwnerDirectory>)
    ensures
        listed_repos(platform, owners).len() == repository_count(owners),
    decreases owners.len(),
{
    if owners.len() > 0 {
        let first = owners.take(1);
        let rest = owners.drop_first();
        assert(owners =~= first + rest);
        law_listing_goes_on(platform, first, rest);
        law_listing_counts_all(platform, rest);
    }
}

/// Where every repository stands in the listing.
proof fn lemma_listing_places(platform: Platform, owners: Seq<OwnerDirectory>) -> (places: Seq<
    (int, int),
>)
    ensures
        places.len() == listed_repos(platform, owners).len(),
        forall|left: int, right: int|
            0 <= left < right < places.len() ==> (#[trigger] places[left]).0 < (
            #[trigger] places[right]).0 || (places[left].0 == places[right].0 && places[left].1
                < places[right].1),
        forall|at: int|
            0 <= at < places.len() ==> is_repository_place(owners, #[trigger] places[at])
                && is_repository_at(
                platform,
                owners,
                places[at],
                listed_repos(platform, owners)[at],
            ),
        forall|place: (int, int)| #[trigger]
            is_repository_place(owners, place) ==> places.contains(place),
    decreases owners.len(),
{
    if owners.len() == 0 {
        Seq::empty()
    } else {
        let rest = owners.drop_last();
        let before = lemma_listing_places(platform, rest);
        let last = owners.len() - 1;
        let own = Seq::new(owners.last().repositories@.len(), |at: int| (last, at));
        let places = before + own;
        let earlier = listed_repos(platform, rest);
        let all = listed_repos(platform, owners);
        let found = repos_of(platform, owners.last(), owners.last().repositories@.len() as int);
        assert forall|at: int| 0 <= at < places.len() implies is_repository_place(
            owners,
            #[trigger] places[at],
        ) && is_repository_at(platform, owners, places[at], all[at]) by {
            if at < before.len() {
                assert(places[at] == before[at]);
                assert(is_repository_place(rest, before[at]));
                assert(all[at] == earlier[at]);
                assert(owners[before[at].0] == rest[before[at].0]);
            } else {
                assert(places[at] == own[at - before.len()]);
                assert(all[at] == found[at - before.len()]);
            }
        }
        assert forall|left: int, right: int| 0 <= left < right < places.len() implies (
        #[trigger] places[left]).0 < (#[trigger] places[right]).0 || (places[left].0
            == places[right].0 && places[left].1 < places[right].1) by {
            if left < before.len() {
                assert(places[left] == before[left]);
                assert(is_repository_place(rest, before[left]));
            } else {
                assert(places[left] == own[left - before.len()]);
            }
            if right < before.len() {
                assert(places[right] == before[right]);
            } else {
                assert(places[right] == own[right - before.len()]);
            }
        }
        assert forall|place: (int, int)| #[trigger]
            is_repository_place(owners, place) implies places.contains(place) by {
            if place.0 < last {
                assert(owners[place.0] == rest[place.0]);
                assert(is_repository_place(rest, place));
                let at = choose|at: int| 0 <= at < before.len() && before[at] == place;
                assert(places[at] == place);
            } else {
                assert(own[place.1] == place);
                assert(places[before.len() + place.1] == place);
            }
        }
        places
    }
}

/// The scan is complete: each path of each owner has its repository in it, and there are as many as
/// the owners have together.
pub proof fn law_scan_is_complete(
    platform: Platform,
    owners: Seq<OwnerDirectory>,
    repos: Seq<RepoView>,
) -> (places: Seq<(int, int)>)
    requires
        is_sorted_copy(listed_repos(platform, owners), repos, slug_order()),
    ensures
        repos.len() == places.len() == repository_count(owners),
        places.no_duplicates(),
        forall|at: int|
            0 <= at < repos.len() ==> is_repository_place(owners, #[trigger] places[at])
                && is_repository_at(platform, owners, places[at], repos[at]),
        forall|place: (int, int)| #[trigger]
            is_repository_place(owners, place) ==> places.contains(place),
{
    let listed = listed_repos(platform, owners);
    law_listing_counts_all(platform, owners);
    law_sorting_keeps_all(listed, repos, slug_order());
    let order = law_sorting_is_stable(listed, repos, slug_order());
    let all = lemma_listing_places(platform, owners);
    let places = Seq::new(repos.len(), |at: int| all[order[at]]);
    assert forall|at: int| 0 <= at < repos.len() implies is_repository_place(
        owners,
        #[trigger] places[at],
    ) && is_repository_at(platform, owners, places[at], repos[at]) by {
        assert(repos[at] == listed[order[at]]);
        assert(is_repository_place(owners, all[order[at]]));
    }
    assert forall|place: (int, int)| #[trigger]
        is_repository_place(owners, place) implies places.contains(place) by {
        let next = choose|next: int| 0 <= next < all.len() && all[next] == place;
        assert(order.contains(next));
        let at = choose|at: int| 0 <= at < order.len() && order[at] == next;
        assert(places[at] == place);
    }
    assert forall|left: int, right: int|
        0 <= left < places.len() && 0 <= right < places.len() && left != right implies places[left]
        != places[right] by {
        let one = order[left];
        let other = order[right];
        assert(one != other);
        assert(places[left] == all[one] && places[right] == all[other]);
        if one < other {
            assert(all[one].0 < all[other].0 || all[one].1 < all[other].1);
        } else {
            assert(all[other].0 < all[one].0 || all[other].1 < all[one].1);
        }
    }
    places
}

/// The scan is sorted by the first difference of the labels `owner/repo`, with capital letters
/// taken as small ones.
pub proof fn law_scan_is_sorted(
    platform: Platform,
    owners: Seq<OwnerDirectory>,
    repos: Seq<RepoView>,
    left: int,
    right: int,
)
    requires
        is_sorted_copy(listed_repos(platform, owners), repos, slug_order()),
        0 <= left < right < repos.len(),
    ensures
        ({
            let one = small_text(repos[left].owner + seq!['/'] + repos[left].name);
            let other = small_text(repos[right].owner + seq!['/'] + repos[right].name);
            one == other || exists|at: int| is_smaller_at(one, other, at)
        }),
{
    reveal_strlit("/");
    assert("/"@ =~= seq!['/']);
    law_sorting_keeps_all(listed_repos(platform, owners), repos, slug_order());
    assert(slug_order()(repos[left], repos[right]));
    law_first_difference_decides(
        small_text(slug_of(repos[left])),
        small_text(slug_of(repos[right])),
    );
}

/// A table or a choice names exactly the repositories that are asked for, in their order; a single
/// one is taken; and an error comes only where there is none at all or none is asked for.
pub proof fn law_decision_names_the_wanted(
    root: Seq<char>,
    repos: Seq<RepoView>,
    query: Option<String>,
    list: bool,
    result: Result<Decision, RepoError>,
)
    requires
        repos.len() <= usize::MAX,
        is_decision(root, repos, query, list, result),
    ensures
        match result {
            Ok(Decision::Table(places)) => list && places@.len() > 0 && names_the_wanted(
                repos,
                query,
                places@,
            ),
            Ok(Decision::Ask(places)) => !list && places@.len() > 1 && names_the_wanted(
                repos,
                query,
                places@,
            ),
            Ok(Decision::Chosen(place)) => !list && names_the_wanted(repos, query, seq![place]),
            Err(RepoError::NoRepos(path)) => repos.len() == 0 && path@ == root,
            Err(RepoError::NoMatch(text)) => repos.len() > 0 && query is Some && text@
                == query->0@ && names_the_wanted(repos, query, seq![]),
            Err(_) => false,
        },
{
    law_matches_are_exactly_the_wanted(repos, query);
    let wanted = wanted_places(repos, query);
    assert(names_the_wanted(repos, query, wanted)) by {
        assert forall|place: int| 0 <= place < repos.len() implies (wanted.contains(place as usize)
            <==> (query matches Some(text) ==> is_subsequence(
            folded(text@),
            folded((#[trigger] repos[place]).owner + "/"@ + repos[place].name),
        ))) by {
            assert(is_wanted(repos[place], query) == is_wanted(repos[place as usize as int], query));
        }
        assert forall|at: int| 0 <= at < wanted.len() implies #[trigger] wanted[at]
            < repos.len() by {
            assert(wanted.contains(wanted[at]));
        }
    }
    if wanted.len() == 1 {
        assert(wanted =~= seq![wanted[0]]);
    }
    if wanted.len() == 0 {
        assert(wanted =~= seq![]);
    }
}

/// Whether the places ascend and are those of all repositories whose label holds the letters of the
/// query in their order, in either case; without a query, of all.
pub open spec fn names_the_wanted(
    repos: Seq<RepoView>,
    query: Option<String>,
    places: Seq<usize>,
) -> bool {
    &&& forall|left: int, right: int|
        0 <= left < right < places.len() ==> #[trigger] places[left] < #[trigger] places[right]
    &&& forall|at: int| 0 <= at < places.len() ==> #[trigger] places[at] < repos.len()
    &&& forall|place: int|
        0 <= place < repos.len() ==> (places.contains(place as usize) <==> (
        query matches Some(text) ==> is_subsequence(
            folded(text@),
            folded((#[trigger] repos[place]).owner + "/"@ + repos[place].name),
        )))
}

/// An error names the directory, the path or the query that it is about, and what was wrong.
pub proof fn law_errors_name_their_subject(error: RepoError)
    ensures
        ({
            let text = error.text();
            match error {
                RepoError::NotADirectory(root) => holds_part(text, root@),
                RepoError::Listing(directory, ListingError::Directory(detail)) => {
                    &&& holds_part(text, directory@)
                    &&& holds_part(text, detail@)
                },
                RepoError::Listing(directory, ListingError::Entry(detail)) => {
                    &&& holds_part(text, directory@)
                    &&& holds_part(text, detail@)
                },
                RepoError::Listing(_, ListingError::Inspection(path, detail)) => {
                    &&& holds_part(text, path@)
                    &&& holds_part(text, detail@)
                },
                RepoError::NoRepos(root) => holds_part(text, root@),
                RepoError::NoMatch(query) => holds_part(text, query@),
                _ => true,
            }
        }),
{
    let text = error.text();
    match error {
        RepoError::NotADirectory(root) => {
            let front = "git root `"@;
            let back = "` is not a directory"@;
            assert(text =~= front + root@ + back);
            lemma_part_is_held(front, root@, back);
        },
        RepoError::Listing(directory, ListingError::Directory(detail)) => {
            let front = "failed to read `"@;
            let back = "`: "@ + detail@;
            assert(text =~= front + directory@ + back);
            lemma_part_is_held(front, directory@, back);
            let front = "failed to read `"@ + directory@ + "`: "@;
            let back = Seq::<char>::empty();
            assert(text =~= front + detail@ + back);
            lemma_part_is_held(front, detail@, back);
        },
        RepoError::Listing(directory, ListingError::Entry(detail)) => {
            let front = "failed to read an entry in `"@;
            let back = "`: "@ + detail@;
            assert(text =~= front + directory@ + back);
            lemma_part_is_held(front, directory@, back);
            let front = "failed to read an entry in `"@ + directory@ + "`: "@;
            let back = Seq::<char>::empty();
            assert(text =~= front + detail@ + back);
            lemma_part_is_held(front, detail@, back);
        },
        RepoError::Listing(_, ListingError::Inspection(path, detail)) => {
            let front = "failed to inspect `"@;
            let back = "`: "@ + detail@;
            assert(text =~= front + path@ + back);
            lemma_part_is_held(front, path@, back);
            let front = "failed to inspect `"@ + path@ + "`: "@;
            let back = Seq::<char>::empty();
            assert(text =~= front + detail@ + back);
            lemma_part_is_held(front, detail@, back);
        },
        RepoError::NoRepos(root) => {
            let front = "no `<owner>/<repo>` directories found under `"@;
            let back = "`"@;
            assert(text =~= front + root@ + back);
            lemma_part_is_held(front, root@, back);
        },
        RepoError::NoMatch(query) => {
            let front = "no repo matches `"@;
            let back = "`"@;
            assert(text =~= front + query@ + back);
            lemma_part_is_held(front, query@, back);
        },
        _ => {},
    }
}

/// The table has a row for each repository that is listed, in their order: owner, name and path.
pub proof fn law_every_repository_has_its_row(
    repos: Seq<RepoView>,
    places: Seq<usize>,
    rows: Seq<Vec<String>>,
    at: int,
)
    requires
        row_views(rows) == cells_at(repos, places),
        0 <= at < places.len(),
    ensures
        rows.len() == places.len(),
        rows[at]@.len() == 3,
        rows[at]@[0]@ == repos[places[at] as int].owner,
        rows[at]@[1]@ == repos[places[at] as int].name,
        rows[at]@[2]@ == repos[places[at] as int].path,
{
    assert(row_views(rows).len() == rows.len());
    let cells = row_views(rows)[at];
    assert(cells == views(rows[at]@));
    assert(cells == cells_at(repos, places)[at]);
    assert(cells.len() == 3);
    assert(forall|place: int| 0 <= place < 3 ==> cells[place] == (#[trigger] rows[at]@[place])@);
}

/// The label of a repository is its owner, a slash and its name.
pub proof fn law_label_is_owner_and_name(repo: RepoView)
    ensures
        slug_of(repo).len() == repo.owner.len() + 1 + repo.name.len(),
        slug_of(repo).take(repo.owner.len() as int) == repo.owner,
        slug_of(repo)[repo.owner.len() as int] == '/',
        slug_of(repo).skip(repo.owner.len() as int + 1) == repo.name,
{
    reveal_strlit("/");
    assert(slug_of(repo).take(repo.owner.len() as int) =~= repo.owner);
    assert(slug_of(repo).skip(repo.owner.len() as int + 1) =~= repo.name);
}

} // verus!
