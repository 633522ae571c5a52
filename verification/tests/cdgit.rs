use on9au_tools::listing::{ListedEntry, Listing, ListingError, EntryKind};
use on9au_tools::lowercase::fold_case;
use on9au_tools::matching::is_match;
use on9au_tools::platform::Platform;
use on9au_tools::repos::{
    checked_root, configured_root, decide, directory_name, find_matches, init_snippet, picked,
    repo_rows, repo_table, scan, slugs, subdirectories, Decision, OwnerDirectory, Repo, RepoError,
    Shell,
};

fn repo(owner: &str, name: &str) -> Repo {
    Repo {
        owner: owner.to_string(),
        name: name.to_string(),
        path: format!("/git/{owner}/{name}"),
    }
}

fn found(path: &str, kind: EntryKind) -> ListedEntry {
    ListedEntry::Found(path.to_string(), kind)
}

#[test]
fn subsequence_matches_in_order() {
    assert!(is_match("on9au/tools", "tools"));
    assert!(is_match("on9au/tools", "o9t"));
    assert!(is_match("on9au/tools", "au/to"));
}

#[test]
fn matching_is_case_insensitive() {
    assert!(is_match("on9au/Tools", "TOOLS"));
    assert!(is_match("On9au/Tools", "on9"));
}

#[test]
fn empty_query_matches_everything() {
    assert!(is_match("anything", ""));
}

#[test]
fn out_of_order_or_missing_chars_do_not_match() {
    assert!(!is_match("on9au/tools", "sloot"));
    assert!(!is_match("on9au/tools", "xyz"));
}

#[test]
fn a_repeated_letter_needs_as_many() {
    assert!(is_match("book", "oo"));
    assert!(!is_match("bok", "oo"));
    assert!(is_match("abcabc", "cb"));
}

#[test]
fn case_folds_in_every_alphabet() {
    assert!(is_match("ÄPFEL", "äpf"));
    assert_eq!(fold_case("İA"), vec!['i', '\u{307}', 'a']);
    assert_eq!(fold_case("AbZ9/"), vec!['a', 'b', 'z', '9', '/']);
}

#[test]
fn every_ascii_character_folds_as_std_does() {
    for code in 0u8..128u8 {
        let character = code as char;
        let folded = fold_case(&character.to_string());
        assert_eq!(folded, character.to_lowercase().collect::<Vec<char>>());
        assert_eq!(folded, vec![character.to_ascii_lowercase()]);
    }
}

#[test]
fn scan_sorts_by_label_without_regard_to_case() {
    let repos = scan(Platform::Unix, &vec![
        OwnerDirectory {
            path: "/git/zed".to_string(),
            repositories: vec!["/git/zed/a".to_string()],
        },
        OwnerDirectory {
            path: "/git/Alpha".to_string(),
            repositories: vec!["/git/Alpha/Two".to_string(), "/git/Alpha/one".to_string()],
        },
        OwnerDirectory {
            path: "/git/beta".to_string(),
            repositories: Vec::new(),
        },
    ]);
    let labels: Vec<String> = repos.iter().map(|repo| repo.slug()).collect();
    assert_eq!(labels, vec!["Alpha/one", "Alpha/Two", "zed/a"]);
    assert_eq!(repos[1].path, "/git/Alpha/Two");
}

#[test]
fn scan_keeps_the_order_of_equal_labels() {
    let repos = scan(Platform::Unix, &vec![
        OwnerDirectory { path: "/one/A".to_string(), repositories: vec!["/one/A/x".to_string()] },
        OwnerDirectory { path: "/two/a".to_string(), repositories: vec!["/two/a/X".to_string()] },
    ]);
    assert_eq!(repos[0].path, "/one/A/x");
    assert_eq!(repos[1].path, "/two/a/X");
}

#[test]
fn directory_name_is_the_last_component() {
    assert_eq!(directory_name(Platform::Unix, "/git/on9au/tools"), "tools");
    assert_eq!(directory_name(Platform::Unix, "/git/on9au/"), "on9au");
    assert_eq!(directory_name(Platform::Unix, "/"), "");
    assert_eq!(directory_name(Platform::Unix, "/git/.."), "");
}

#[test]
fn subdirectories_are_the_directories_only() {
    let listing = Listing::Entries(vec![
        found("/git/a", EntryKind::Directory),
        found("/git/file", EntryKind::File),
        found("/git/b", EntryKind::Directory),
        found("/git/link", EntryKind::Other),
    ]);
    assert_eq!(subdirectories("/git", &listing).unwrap(), vec!["/git/a", "/git/b"]);
}

#[test]
fn listing_faults_name_the_directory() {
    let unreadable = subdirectories("/git", &Listing::Unreadable("denied".to_string()));
    let error = unreadable.unwrap_err();
    assert_eq!(
        error,
        RepoError::Listing("/git".to_string(), ListingError::Directory("denied".to_string()))
    );
    assert_eq!(error.message(), "failed to read `/git`: denied");

    let entry = subdirectories(
        "/git",
        &Listing::Entries(vec![
            found("/git/a", EntryKind::Directory),
            ListedEntry::Unreadable("gone".to_string()),
            ListedEntry::Uninspectable("/git/c".to_string(), "later".to_string()),
        ]),
    );
    assert_eq!(entry.unwrap_err().message(), "failed to read an entry in `/git`: gone");

    let inspection = subdirectories(
        "/git",
        &Listing::Entries(vec![ListedEntry::Uninspectable(
            "/git/c".to_string(),
            "hidden".to_string(),
        )]),
    );
    assert_eq!(inspection.unwrap_err().message(), "failed to inspect `/git/c`: hidden");
}

#[test]
fn root_has_to_be_a_configured_directory() {
    assert_eq!(configured_root(Some("/git".to_string())), Ok("/git".to_string()));
    assert_eq!(
        configured_root(None).unwrap_err().message(),
        "no git root configured; set CDGIT_ROOT or pass --root"
    );
    assert_eq!(checked_root("/git", true), Ok(()));
    assert_eq!(
        checked_root("/git", false).unwrap_err().message(),
        "git root `/git` is not a directory"
    );
}

#[test]
fn a_single_match_is_taken_directly() {
    let repos = vec![repo("on9au", "tools"), repo("on9au", "notes"), repo("rust", "rust")];
    assert_eq!(
        decide("/git", &repos, &Some("TOOL".to_string()), false),
        Ok(Decision::Chosen(0))
    );
    assert_eq!(
        decide("/git", &repos, &Some("on9".to_string()), false),
        Ok(Decision::Ask(vec![0, 1]))
    );
    assert_eq!(decide("/git", &repos, &None, false), Ok(Decision::Ask(vec![0, 1, 2])));
    assert_eq!(
        decide("/git", &repos, &Some("rust".to_string()), true),
        Ok(Decision::Table(vec![2]))
    );
}

#[test]
fn nothing_found_and_nothing_matching_are_errors() {
    let none = decide("/git", &Vec::new(), &None, false).unwrap_err();
    assert_eq!(none, RepoError::NoRepos("/git".to_string()));
    assert_eq!(none.message(), "no `<owner>/<repo>` directories found under `/git`");

    let repos = vec![repo("on9au", "tools")];
    let unmatched = decide("/git", &repos, &Some("xyz".to_string()), true).unwrap_err();
    assert_eq!(unmatched.message(), "no repo matches `xyz`");
}

#[test]
fn matches_are_the_wanted_places_in_order() {
    let repos = vec![repo("a", "one"), repo("b", "two"), repo("a", "three")];
    assert_eq!(find_matches(&repos, &Some("a/".to_string())), vec![0, 2]);
    assert_eq!(find_matches(&repos, &None), vec![0, 1, 2]);
    assert_eq!(find_matches(&repos, &Some("q".to_string())), Vec::<usize>::new());
}

#[test]
fn picked_is_the_place_that_was_offered() {
    assert_eq!(picked(&vec![4, 7], Some(1)), Some(7));
    assert_eq!(picked(&vec![4, 7], None), None);
    let repos = vec![repo("a", "one"), repo("b", "two")];
    assert_eq!(slugs(&repos, &vec![1]), vec!["b/two"]);
}

#[test]
fn table_holds_owner_name_and_path() {
    let repos = vec![repo("on9au", "tools"), repo("rust", "book")];
    assert_eq!(
        repo_rows(&repos, &vec![1]),
        vec![vec!["rust".to_string(), "book".to_string(), "/git/rust/book".to_string()]]
    );
    let text = repo_table(&repos, &vec![0]);
    let lines: Vec<&str> = text.split('\n').collect();
    assert_eq!(
        lines,
        vec![
            "+-------+-------+------------------+",
            "| OWNER | REPO  | PATH             |",
            "+==================================+",
            "| on9au | tools | /git/on9au/tools |",
            "+-------+-------+------------------+",
        ]
    );
}

#[test]
fn snippets_define_cg() {
    assert_eq!(
        init_snippet(Shell::Powershell),
        "function cg {\n    $dir = cdgit @args\n    if ($LASTEXITCODE -eq 0 -and $dir) { Set-Location $dir }\n}\n"
    );
    assert_eq!(
        init_snippet(Shell::Bash),
        "cg() {\n    local dir\n    dir=\"$(cdgit \"$@\")\" && [ -n \"$dir\" ] && cd \"$dir\"\n}\n"
    );
    assert_eq!(init_snippet(Shell::Zsh), init_snippet(Shell::Bash));
    assert_eq!(
        init_snippet(Shell::Fish),
        "function cg\n    set -l dir (cdgit $argv)\n    and test -n \"$dir\"\n    and cd $dir\nend\n"
    );
}
