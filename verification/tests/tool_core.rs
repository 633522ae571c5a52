use on9au_tools::discovery::{
    canonicalize_path, cargo_bin_dir, is_directory_on_path, looks_like_cargo_target_bin_dir,
    resolve_managed_bin_dir, resolve_tools_home_dir, same_directory, user_home_dir, CanonicalPath,
    DiscoveryError, ToolsEnvironment,
};
use on9au_tools::exe_names::{default_name, display_name, with_exe_suffix};
use on9au_tools::installing::{
    install_binary_file, InstallError, InstallProgress, InstallStep,
};
use on9au_tools::layout::{
    DirectoryStep, InstallLayout, InstalledToolRecord, LayoutError, RecordEntry, RecordFault,
    RecordListing,
};
use on9au_tools::listing::{EntryKind, ListedEntry, Listing};
use on9au_tools::paths::join_path;
use on9au_tools::platform::Platform;

fn environment() -> ToolsEnvironment {
    ToolsEnvironment {
        tools_home: None,
        tools_bin: None,
        local_app_data: None,
        xdg_data_home: None,
        cargo_home: None,
        home: None,
        user_profile: None,
        current_exe: Ok("/opt/tool/toolctl".to_string()),
        search_path: None,
        canonical_paths: Vec::new(),
    }
}

fn record(tool_name: &str) -> InstalledToolRecord {
    InstalledToolRecord {
        tool_name: tool_name.to_string(),
        package_name: "package".to_string(),
        commit: "1234567890abcdef".to_string(),
        commit_date: "2026-04-29".to_string(),
        installed_at: "1777248000".to_string(),
        repository_url: "https://example.com".to_string(),
    }
}

fn text(value: &str) -> Option<String> {
    Some(value.to_string())
}

#[test]
fn explicit_home_builds_bin_directory() {
    let layout = InstallLayout::for_home(Platform::Unix, "/tmp/on9au-tools".to_string());
    assert_eq!(layout.bin_dir(), "/tmp/on9au-tools/bin");
}

#[test]
fn binary_path_uses_platform_suffix() {
    for platform in [Platform::Unix, Platform::Windows] {
        let layout = InstallLayout::for_home(platform, "/tmp/on9au-tools".to_string());
        let path = layout.binary_path("sample-tool");
        let name = with_exe_suffix(platform, "sample-tool");
        let bin = join_path(platform, "/tmp/on9au-tools", "bin");
        assert_eq!(path, join_path(platform, &bin, &name));
    }
    let layout = InstallLayout::for_home(Platform::Windows, r"C:\tools".to_string());
    assert_eq!(layout.platform(), Platform::Windows);
    assert_eq!(layout.binary_path("sample-tool"), r"C:\tools\bin\sample-tool.exe");
}

#[test]
fn display_name_removes_windows_suffix_only() {
    assert_eq!(display_name(Platform::Windows, "sample-tool.exe").unwrap(), "sample-tool");
    assert_eq!(display_name(Platform::Unix, "sample-tool").unwrap(), "sample-tool");
    assert_eq!(display_name(Platform::Unix, "bin/sample-tool.exe").unwrap(), "sample-tool.exe");
    assert_eq!(display_name(Platform::Windows, "a.exe.exe").unwrap(), "a");
}

#[test]
fn suffix_helper_is_idempotent() {
    let first = with_exe_suffix(Platform::Windows, "sample-tool");
    let second = with_exe_suffix(Platform::Windows, &first);
    assert_eq!(second, "sample-tool.exe");
    let first = with_exe_suffix(Platform::Unix, "sample-tool");
    let second = with_exe_suffix(Platform::Unix, &first);
    assert_eq!(second, "sample-tool");
}

#[test]
fn ensure_exists_creates_metadata_and_worktree_directories() {
    let layout = InstallLayout::for_home(Platform::Unix, "/tmp/layout".to_string());
    let mut outcomes = Vec::new();
    let mut created = Vec::new();
    loop {
        match layout.ensure_exists(&outcomes) {
            DirectoryStep::Create(path) => {
                created.push(path);
                outcomes.push(Ok(()));
            }
            DirectoryStep::Done => break,
            DirectoryStep::Failed(error) => panic!("{}", error.message()),
        }
    }
    assert!(created.contains(&layout.bin_dir().to_string()));
    assert!(created.contains(&layout.metadata_dir().to_string()));
    assert!(created.contains(&layout.worktrees_dir().to_string()));
    assert_eq!(
        created,
        vec!["/tmp/layout", "/tmp/layout/bin", "/tmp/layout/installed", "/tmp/layout/worktrees"]
    );
    assert_eq!(layout.managed_directories(), created);

    let step = layout.ensure_exists(&vec![Ok(()), Err("denied".to_string())]);
    match step {
        DirectoryStep::Failed(error) => assert_eq!(
            error.message(),
            "failed to create managed directory at /tmp/layout/bin: denied"
        ),
        _ => panic!("no failure"),
    }
}

#[test]
fn install_binary_file_places_binary_in_bin_dir() {
    let layout = InstallLayout::for_home(Platform::Unix, "/tmp/install-binary".to_string());
    let mut progress =
        InstallProgress { exists: None, removed: None, linked: None, copied: None };
    let mut steps = Vec::new();
    let destination = loop {
        let step = install_binary_file(
            &layout,
            "sample-source",
            "sample-tool",
            true,
            &progress,
        );
        match &step {
            InstallStep::Check(_) => progress.exists = Some(true),
            InstallStep::Remove(_) => progress.removed = Some(Ok(())),
            InstallStep::Copy(_, _) => progress.copied = Some(Ok(())),
            InstallStep::Done(path) => break path.clone(),
            other => panic!("{other:?}"),
        }
        steps.push(step);
    };
    assert_eq!(destination, "/tmp/install-binary/bin/sample-tool");
    assert_eq!(
        steps,
        vec![
            InstallStep::Check(destination.clone()),
            InstallStep::Remove(destination.clone()),
            InstallStep::Copy("sample-source".to_string(), destination.clone()),
        ]
    );
}

#[test]
fn links_are_tried_before_copies() {
    let layout = InstallLayout::for_home(Platform::Unix, "/h".to_string());
    let next = |progress: &InstallProgress| {
        install_binary_file(&layout, "s", "t", false, progress)
    };
    let mut progress =
        InstallProgress { exists: Some(false), removed: None, linked: None, copied: None };
    assert_eq!(next(&progress), InstallStep::Link("s".to_string(), "/h/bin/t".to_string()));
    progress.linked = Some(Ok(()));
    assert_eq!(next(&progress), InstallStep::Done("/h/bin/t".to_string()));
    progress.linked = Some(Err("cross device".to_string()));
    assert_eq!(next(&progress), InstallStep::Copy("s".to_string(), "/h/bin/t".to_string()));
    progress.copied = Some(Err("full".to_string()));
    match next(&progress) {
        InstallStep::Failed(error) => assert_eq!(
            error.message(),
            "hard link failed first: cross device: failed to copy binary from s to /h/bin/t: full"
        ),
        _ => panic!("no failure"),
    }
    let kept = InstallProgress {
        exists: Some(true),
        removed: Some(Err("busy".to_string())),
        linked: None,
        copied: None,
    };
    match next(&kept) {
        InstallStep::Failed(error) => {
            assert_eq!(error.message(), "failed to replace /h/bin/t: busy")
        }
        _ => panic!("no failure"),
    }
    assert_eq!(
        InstallError::Uncopiable("s".to_string(), "d".to_string(), "full".to_string()).message(),
        "failed to copy binary from s to d: full"
    );
}

#[test]
fn for_paths_uses_explicit_bin_directory() {
    let layout = InstallLayout::for_paths(
        Platform::Unix,
        "/tmp/on9au-home".to_string(),
        "/tmp/shared-bin".to_string(),
    );

    assert_eq!(layout.home_dir(), "/tmp/on9au-home");
    assert_eq!(layout.bin_dir(), "/tmp/shared-bin");
    assert_eq!(layout.metadata_dir(), "/tmp/on9au-home/installed");
    assert_eq!(layout.repo_dir(), "/tmp/on9au-home/repo");
    assert_eq!(layout.worktrees_dir(), "/tmp/on9au-home/worktrees");
}

#[test]
fn same_directory_matches_identical_paths() {
    assert!(same_directory(Platform::Unix, &Vec::new(), "/tmp/example", "/tmp/example"));
    assert!(same_directory(Platform::Unix, &Vec::new(), "/tmp//example/", "/tmp/./example"));
    assert!(!same_directory(Platform::Unix, &Vec::new(), "/tmp/example", "/tmp/other"));
}

#[test]
fn missing_path_variable_is_not_treated_as_on_path() {
    assert!(!is_directory_on_path(
        Platform::Unix,
        &environment(),
        "/tmp/example-that-probably-is-not-on-path"
    ));
}

#[test]
fn cargo_target_bin_directory_is_rejected_as_managed_bin_target() {
    assert!(looks_like_cargo_target_bin_dir(Platform::Unix, "target/debug"));
    assert!(looks_like_cargo_target_bin_dir(Platform::Unix, "target/release"));
    assert!(!looks_like_cargo_target_bin_dir(Platform::Unix, ".cargo/bin"));
    assert!(!looks_like_cargo_target_bin_dir(Platform::Unix, "release"));
    assert!(!looks_like_cargo_target_bin_dir(Platform::Unix, "target/release/deps"));
}

#[test]
fn canonical_forms_decide_where_both_are_known() {
    let facts = vec![
        CanonicalPath { path: "/link".to_string(), canonical: text("/real") },
        CanonicalPath { path: "/real".to_string(), canonical: text("/real") },
        CanonicalPath { path: "/gone".to_string(), canonical: None },
    ];
    assert_eq!(canonicalize_path(&facts, "/link"), text("/real"));
    assert_eq!(canonicalize_path(&facts, "/gone"), None);
    assert!(same_directory(Platform::Unix, &facts, "/link", "/real"));
    assert!(!same_directory(Platform::Unix, &facts, "/gone", "/real"));
    assert!(same_directory(Platform::Unix, &facts, "/gone", "/gone/"));
}

#[test]
fn tools_home_follows_the_variables() {
    let mut surroundings = environment();
    assert_eq!(
        resolve_tools_home_dir(Platform::Unix, &surroundings).unwrap_err().message(),
        "could not determine a tools home directory; set ON9AU_TOOLS_HOME"
    );
    surroundings.home = text("/home/me");
    surroundings.local_app_data = text(r"C:\Data");
    assert_eq!(
        resolve_tools_home_dir(Platform::Unix, &surroundings).unwrap(),
        "/home/me/.local/share/on9au-tools"
    );
    assert_eq!(
        resolve_tools_home_dir(Platform::Windows, &surroundings).unwrap(),
        r"C:\Data\on9au-tools"
    );
    surroundings.xdg_data_home = text("/xdg");
    assert_eq!(
        resolve_tools_home_dir(Platform::Unix, &surroundings).unwrap(),
        "/xdg/on9au-tools"
    );
    surroundings.tools_home = text("/mine");
    assert_eq!(resolve_tools_home_dir(Platform::Unix, &surroundings).unwrap(), "/mine");
}

#[test]
fn binaries_go_next_to_a_program_that_is_searched() {
    let mut surroundings = environment();
    surroundings.home = text("/home/me");
    assert_eq!(
        resolve_managed_bin_dir(Platform::Unix, &surroundings).unwrap(),
        "/home/me/.cargo/bin"
    );
    surroundings.search_path = Some(vec!["/bin".to_string(), "/opt/tool".to_string()]);
    assert_eq!(resolve_managed_bin_dir(Platform::Unix, &surroundings).unwrap(), "/opt/tool");
    surroundings.current_exe = Ok("/work/target/debug/toolctl".to_string());
    surroundings.search_path = Some(vec!["/work/target/debug".to_string()]);
    surroundings.cargo_home = text("/cargo");
    assert_eq!(resolve_managed_bin_dir(Platform::Unix, &surroundings).unwrap(), "/cargo/bin");
    surroundings.current_exe = Err("unknown".to_string());
    assert_eq!(
        resolve_managed_bin_dir(Platform::Unix, &surroundings).unwrap_err().message(),
        "failed to resolve current executable path: unknown"
    );
    surroundings.tools_bin = text("/bins");
    assert_eq!(resolve_managed_bin_dir(Platform::Unix, &surroundings).unwrap(), "/bins");
}

#[test]
fn user_home_has_a_fallback_on_windows() {
    let mut surroundings = environment();
    surroundings.user_profile = text(r"C:\Users\me");
    assert_eq!(user_home_dir(Platform::Windows, &surroundings).unwrap(), r"C:\Users\me");
    assert_eq!(
        cargo_bin_dir(Platform::Windows, &surroundings).unwrap(),
        r"C:\Users\me\.cargo\bin"
    );
    let error = cargo_bin_dir(Platform::Unix, &surroundings).unwrap_err();
    assert_eq!(error, DiscoveryError::NoUserHome);
    assert_eq!(
        error.message(),
        "could not determine a home directory for the Cargo bin path"
    );
}

#[test]
fn discover_combines_home_and_bin() {
    let mut surroundings = environment();
    surroundings.tools_home = text("/mine");
    surroundings.tools_bin = text("/bins");
    let layout = InstallLayout::discover(Platform::Unix, &surroundings).unwrap();
    assert_eq!(layout.home_dir(), "/mine");
    assert_eq!(layout.bin_dir(), "/bins");
    surroundings.tools_home = None;
    assert_eq!(
        InstallLayout::discover(Platform::Unix, &surroundings),
        Err(DiscoveryError::NoToolsHome)
    );
}

#[test]
fn names_need_a_last_component() {
    assert_eq!(
        display_name(Platform::Unix, "/").unwrap_err().message(),
        "/ does not have a file name"
    );
    assert_eq!(default_name(Platform::Windows, r"C:\dl\tool.exe").unwrap(), "tool");
}

#[test]
fn managed_binaries_are_sorted_files() {
    let layout = InstallLayout::for_home(Platform::Unix, "/h".to_string());
    let listing = Listing::Entries(vec![
        ListedEntry::Found("/h/bin/b".to_string(), EntryKind::File),
        ListedEntry::Found("/h/bin/dir".to_string(), EntryKind::Directory),
        ListedEntry::Found("/h/bin/a".to_string(), EntryKind::File),
    ]);
    assert_eq!(
        layout.managed_binaries(&Some(listing)).unwrap(),
        vec!["/h/bin/a", "/h/bin/b"]
    );
    assert_eq!(layout.managed_binaries(&None).unwrap(), Vec::<String>::new());
    let fault = layout.managed_binaries(&Some(Listing::Unreadable("denied".to_string())));
    assert_eq!(fault.unwrap_err().message(), "failed to read /h/bin: denied");
}

#[test]
fn installed_records_are_sorted_by_tool() {
    let layout = InstallLayout::for_home(Platform::Unix, "/h".to_string());
    let entry = |name: &str, kind: EntryKind, record: Result<InstalledToolRecord, RecordFault>| {
        RecordEntry {
            entry: ListedEntry::Found(format!("/h/installed/{name}"), kind),
            record,
        }
    };
    let listing = RecordListing::Entries(vec![
        entry("z.json", EntryKind::File, Ok(record("z"))),
        entry("sub", EntryKind::Directory, Err(RecordFault::Unreadable("x".to_string()))),
        entry("a.json", EntryKind::File, Ok(record("a"))),
    ]);
    let records = layout.installed_records(&listing).unwrap();
    assert_eq!(records, vec![record("a"), record("z")]);
    assert_eq!(layout.installed_records(&RecordListing::Missing).unwrap(), Vec::new());

    let faults = [
        (
            RecordListing::Unreadable("denied".to_string()),
            "failed to read /h/installed: denied",
        ),
        (
            RecordListing::Entries(vec![entry(
                "a.json",
                EntryKind::File,
                Err(RecordFault::Unreadable("gone".to_string())),
            )]),
            "failed to read /h/installed/a.json: gone",
        ),
        (
            RecordListing::Entries(vec![entry(
                "a.json",
                EntryKind::File,
                Err(RecordFault::Unparsable("eof".to_string())),
            )]),
            "failed to parse /h/installed/a.json: eof",
        ),
        (
            RecordListing::Entries(vec![RecordEntry {
                entry: ListedEntry::Unreadable("broken".to_string()),
                record: Ok(record("a")),
            }]),
            "failed to read an entry from /h/installed: broken",
        ),
        (
            RecordListing::Entries(vec![RecordEntry {
                entry: ListedEntry::Uninspectable("/h/installed/q".to_string(), "no".to_string()),
                record: Ok(record("a")),
            }]),
            "failed to inspect /h/installed/q: no",
        ),
    ];
    for (listing, message) in faults {
        assert_eq!(layout.installed_records(&listing).unwrap_err().message(), message);
    }
}

#[test]
fn a_written_record_is_listed_in_place_of_the_old_one() {
    let layout = InstallLayout::for_home(Platform::Unix, "/h".to_string());
    let mut directory = vec![("/h/installed/b.json".to_string(), record("b"))];
    let list = |directory: &Vec<(String, InstalledToolRecord)>| {
        let entries = directory
            .iter()
            .map(|(path, record)| RecordEntry {
                entry: ListedEntry::Found(path.clone(), EntryKind::File),
                record: Ok(record.clone()),
            })
            .collect();
        layout.installed_records(&RecordListing::Entries(entries)).unwrap()
    };
    let mut newer = record("b");
    newer.commit = "another".to_string();
    for written in [record("a"), newer.clone()] {
        let file = layout.write_installed_record(&written, Ok("{}".to_string())).unwrap();
        directory.retain(|(path, _)| *path != file.path);
        directory.push((file.path, written));
    }
    assert_eq!(list(&directory), vec![record("a"), newer]);
}

#[test]
fn records_are_written_under_the_name_of_the_tool() {
    let layout = InstallLayout::for_home(Platform::Unix, "/h".to_string());
    let file = layout.write_installed_record(&record("tool"), Ok("{}".to_string())).unwrap();
    assert_eq!(file.path, "/h/installed/tool.json");
    assert_eq!(file.path, layout.metadata_path("tool"));
    assert_eq!(file.contents, "{}");
    let error =
        layout.write_installed_record(&record("tool"), Err("bad".to_string())).unwrap_err();
    assert_eq!(error.message(), "failed to serialize metadata for tool: bad");
    assert_eq!(
        LayoutError::UnwritableRecord("/p".to_string(), "full".to_string()).message(),
        "failed to write /p: full"
    );
}
