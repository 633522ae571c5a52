use on9au_tools::building::{build_and_install, BuildProgress, BuildStep};
use on9au_tools::catalog::{
    repo_catalog, CargoPackage, CargoTarget, CatalogError, CatalogStep, RepoTool, Selection,
};
use on9au_tools::commands::{
    run_captured, run_status, CapturedOutcome, CommandError, StatusOutcome,
};
use on9au_tools::discovery::ToolsEnvironment;
use on9au_tools::layout::InstallLayout;
use on9au_tools::platform::Platform;
use on9au_tools::reports::{
    available_rows, doctor_rows, installed_rows, section_title, version_rows,
};
use on9au_tools::selection::{
    find_tool, format_tool_option, is_all_target, select_install_tools, select_install_version,
    select_named_tool, selected_tools, tool_options, VersionChoice,
};
use on9au_tools::tool_installs::ToolStep;
use on9au_tools::tool_versions::{
    format_version_option, has_short_commit, latest_version_for_path, parse_version_line,
    resolve_version_reference, short_commit, tool_versions, version_options, ToolVersion,
    VersionError, DEFAULT_VERSION_LIMIT,
};
use on9au_tools::toolctl::{
    binary_to_run, build_tool, built_binary_path, create_worktree,
    ensure_built_binary_exists, ensure_repo_cache_exists, exit_code, installed_record,
    iso_like_timestamp, log_command, metadata_command, remove_worktree, sanitize_name,
    show_command, worktree_manifest_path, worktree_path, CachePlan, ToolctlContext, ToolctlError,
};

fn version(commit: &str) -> ToolVersion {
    ToolVersion {
        commit: commit.to_string(),
        commit_date: "2026-04-29".to_string(),
        summary: "Add example".to_string(),
    }
}

fn tool(binary_name: &str) -> RepoTool {
    RepoTool {
        package_name: format!("crates/tool/{binary_name}"),
        binary_name: binary_name.to_string(),
        manifest_path: format!("/h/repo/crates/tool/{binary_name}/Cargo.toml"),
        package_dir: format!("/h/repo/crates/tool/{binary_name}"),
        latest_version: version("1234567890abcdef"),
    }
}

fn layout() -> InstallLayout {
    InstallLayout::for_home(Platform::Unix, "/h".to_string())
}

fn context() -> ToolctlContext {
    ToolctlContext { layout: layout() }
}

fn package(name: &str, manifest_path: &str, targets: &[(&str, &str)]) -> CargoPackage {
    CargoPackage {
        name: name.to_string(),
        manifest_path: manifest_path.to_string(),
        targets: targets
            .iter()
            .map(|(name, kind)| CargoTarget {
                name: name.to_string(),
                kind: vec![kind.to_string()],
            })
            .collect(),
    }
}

fn texts(values: &[&str]) -> Vec<String> {
    values.iter().map(|value| value.to_string()).collect()
}

#[test]
fn parse_version_line_extracts_commit_date_and_summary() {
    let version = parse_version_line("abcdef123456\t2026-04-24\tAdd tool installer").unwrap();

    assert_eq!(version.commit, "abcdef123456");
    assert_eq!(version.commit_date, "2026-04-24");
    assert_eq!(version.summary, "Add tool installer");
}

#[test]
fn short_commit_uses_eight_characters_when_available() {
    assert_eq!(short_commit("1234567890abcdef"), "12345678");
    assert_eq!(short_commit("1234"), "1234");
}

#[test]
fn sanitize_name_replaces_non_ascii_alphanumeric_characters() {
    assert_eq!(sanitize_name("tool name/alpha"), "tool-name-alpha");
}

#[test]
fn built_binary_path_targets_release_directory() {
    let path = built_binary_path(Platform::Windows, "C:/tmp/worktree", "toolctl");
    assert!(path.ends_with(r"target\release\toolctl.exe"));
    let path = built_binary_path(Platform::Unix, "C:/tmp/worktree", "toolctl");
    assert!(path.ends_with("target/release/toolctl"));
    assert_eq!(path, "C:/tmp/worktree/target/release/toolctl");
}

#[test]
fn ensure_built_binary_exists_rejects_missing_files() {
    let error = ensure_built_binary_exists("/tmp/missing-binary", false).unwrap_err();
    assert!(error.message().contains("built binary was not found"));
    assert_eq!(ensure_built_binary_exists("/tmp/there", true), Ok(()));
}

#[test]
fn default_version_limit_is_positive() {
    assert!(DEFAULT_VERSION_LIMIT > 0);
}

#[test]
fn all_target_is_case_insensitive() {
    assert!(is_all_target("all"));
    assert!(is_all_target("ALL"));
    assert!(!is_all_target("pdupload"));
}

#[test]
fn format_tool_option_includes_tool_metadata() {
    let option = format_tool_option(&RepoTool {
        package_name: "crates/tool/example".to_string(),
        binary_name: "example".to_string(),
        manifest_path: "C:/tmp/Cargo.toml".to_string(),
        package_dir: "C:/tmp".to_string(),
        latest_version: ToolVersion {
            commit: "1234567890abcdef".to_string(),
            commit_date: "2026-04-29".to_string(),
            summary: "Add example".to_string(),
        },
    });

    assert!(option.contains("example"));
    assert!(option.contains("12345678"));
    assert!(option.contains("2026-04-29"));
    assert!(option.contains("crates/tool/example"));
    assert_eq!(option, "example  12345678  2026-04-29  crates/tool/example");
}

#[test]
fn format_version_option_includes_summary() {
    let option = format_version_option(&ToolVersion {
        commit: "1234567890abcdef".to_string(),
        commit_date: "2026-04-29".to_string(),
        summary: "Ship install flow".to_string(),
    });

    assert!(option.contains("12345678"));
    assert!(option.contains("2026-04-29"));
    assert!(option.contains("Ship install flow"));
    assert_eq!(option, "12345678  2026-04-29  Ship install flow");
}

#[test]
fn short_commits_are_cut_between_characters_only() {
    assert_eq!(short_commit("ää\u{20ac}abc"), "ää\u{20ac}a");
    assert!(has_short_commit("ää\u{20ac}abc"));
    assert!(!has_short_commit("1234567ä9"));
    assert!(has_short_commit("1234567"));
    assert!(has_short_commit(""));
}

#[test]
fn version_lines_need_commit_and_date() {
    assert_eq!(parse_version_line(""), Err(VersionError::MissingCommit));
    assert_eq!(parse_version_line("\tdate"), Err(VersionError::MissingCommit));
    assert_eq!(parse_version_line("commit"), Err(VersionError::MissingDate));
    assert_eq!(parse_version_line("commit\t\tsummary"), Err(VersionError::MissingDate));
    let bare = parse_version_line("commit\tdate").unwrap();
    assert_eq!(bare.summary, "");
    let tabs = parse_version_line("c\td\ta\tb").unwrap();
    assert_eq!(tabs.summary, "a\tb");
    assert_eq!(VersionError::MissingCommit.message(), "missing commit in git log output");
    assert_eq!(VersionError::MissingDate.message(), "missing commit date in git log output");
}

#[test]
fn logs_are_read_line_by_line() {
    let versions = tool_versions("a\t1\tx\n\n  \nb\t2\ty\r\n").unwrap();
    assert_eq!(versions.len(), 2);
    assert_eq!(versions[1].commit, "b");
    assert_eq!(versions[1].summary, "y");
    assert_eq!(tool_versions("a\t1\nbroken\n"), Err(VersionError::MissingDate));
    assert_eq!(tool_versions("\n"), Ok(Vec::new()));
}

#[test]
fn latest_version_is_the_first_line() {
    let latest = latest_version_for_path("a\t1\tx\nb\t2\ty\n", "/p").unwrap();
    assert_eq!(latest.commit, "a");
    assert_eq!(
        latest_version_for_path("  \n", "/p").unwrap_err().message(),
        "no git history was found for /p"
    );
}

#[test]
fn references_resolve_to_the_first_line() {
    let resolved = resolve_version_reference("\n\nabc\t1\tx\njunk", "v1").unwrap();
    assert_eq!(resolved.commit, "abc");
    assert_eq!(
        resolve_version_reference(" \n", "v1").unwrap_err().message(),
        "git returned no commit metadata for v1"
    );
    assert_eq!(resolve_version_reference("junk", "v1"), Err(VersionError::MissingDate));
}

#[test]
fn versions_are_offered_if_there_are_any() {
    assert_eq!(
        version_options(&vec![version("1234567890")], "tool").unwrap(),
        vec!["12345678  2026-04-29  Add example"]
    );
    assert_eq!(
        version_options(&Vec::new(), "tool").unwrap_err().message(),
        "no versions were found for tool"
    );
}

#[test]
fn catalog_asks_for_versions_and_sorts_tools() {
    let packages = vec![
        package("toolctl", "/h/repo/crates/tool/toolctl/Cargo.toml", &[("toolctl", "bin")]),
        package("zeta", "/h/repo/zeta/Cargo.toml", &[("zeta", "bin"), ("zeta-lib", "lib")]),
        package("mixed", "/h/repo/mixed/Cargo.toml", &[("tool-core", "bin"), ("alpha", "bin")]),
    ];
    let mut versions = Vec::new();
    let mut asked = Vec::new();
    let catalog = loop {
        match repo_catalog(Platform::Unix, &packages, &versions) {
            CatalogStep::Read(directory) => {
                asked.push(directory);
                versions.push(version(&format!("commit-{}", asked.len())));
            }
            CatalogStep::Done(catalog) => break catalog,
            CatalogStep::Failed(error) => panic!("{}", error.message()),
        }
    };
    assert_eq!(asked, vec!["/h/repo/zeta", "/h/repo/mixed"]);
    assert_eq!(catalog.len(), 2);
    assert_eq!(catalog[0].binary_name, "alpha");
    assert_eq!(catalog[0].package_name, "mixed");
    assert_eq!(catalog[0].latest_version.commit, "commit-2");
    assert_eq!(catalog[1].binary_name, "zeta");
    assert_eq!(catalog[1].manifest_path, "/h/repo/zeta/Cargo.toml");
    assert_eq!(catalog[1].package_dir, "/h/repo/zeta");
}

#[test]
fn manifests_without_directory_stop_the_catalog() {
    let packages = vec![
        package("first", "/h/first/Cargo.toml", &[("first", "bin")]),
        package("root", "/", &[("root", "bin")]),
    ];
    assert_eq!(
        repo_catalog(Platform::Unix, &packages, &Vec::new()),
        CatalogStep::Read("/h/first".to_string())
    );
    match repo_catalog(Platform::Unix, &packages, &vec![version("c")]) {
        CatalogStep::Failed(error) => {
            assert_eq!(error.message(), "/ does not have a parent directory")
        }
        _ => panic!("no failure"),
    }
}

#[test]
fn tools_are_selected_by_name() {
    let catalog = vec![tool("alpha"), tool("Beta")];
    assert_eq!(select_named_tool(&catalog, "BETA"), Ok(tool("Beta")));
    assert_eq!(find_tool(&catalog, "alpha"), Ok(tool("alpha")));
    assert_eq!(
        find_tool(&catalog, "gamma").unwrap_err().message(),
        "unknown tool 'gamma'"
    );
    assert_eq!(
        find_tool(&catalog, "All").unwrap_err().message(),
        "`all` selects multiple tools and is only valid with `toolctl install`"
    );
}

#[test]
fn names_select_each_tool_once() {
    let catalog = vec![tool("alpha"), tool("beta")];
    assert_eq!(
        select_install_tools(&catalog, &texts(&["beta", "ALPHA", "Beta"])),
        Ok(Selection::Tools(vec![tool("beta"), tool("alpha")]))
    );
    assert_eq!(
        select_install_tools(&catalog, &texts(&["nope", "All"])),
        Ok(Selection::Tools(catalog.clone()))
    );
    assert_eq!(select_install_tools(&catalog, &Vec::new()), Ok(Selection::Ask));
    assert_eq!(
        select_install_tools(&catalog, &texts(&["alpha", "x", "y"])),
        Err(CatalogError::UnknownTool("x".to_string()))
    );
    assert_eq!(
        select_install_tools(&Vec::new(), &texts(&["alpha"])).unwrap_err().message(),
        "no installable tools were found in the repository catalog"
    );
}

#[test]
fn the_first_option_selects_all_tools() {
    let catalog = vec![tool("alpha"), tool("beta")];
    assert_eq!(
        tool_options(&catalog),
        vec![
            "all tools [2 available]",
            "alpha  12345678  2026-04-29  crates/tool/alpha",
            "beta  12345678  2026-04-29  crates/tool/beta",
        ]
    );
    assert_eq!(selected_tools(&catalog, &vec![2]), Ok(vec![tool("beta")]));
    assert_eq!(selected_tools(&catalog, &vec![1, 0]), Ok(catalog.clone()));
    assert_eq!(
        selected_tools(&catalog, &Vec::new()).unwrap_err().message(),
        "no tools were selected"
    );
}

#[test]
fn versions_come_from_reference_user_or_history() {
    let chosen = tool("alpha");
    assert_eq!(
        select_install_version(&chosen, Some("v1"), true),
        VersionChoice::Resolve("v1".to_string())
    );
    assert_eq!(select_install_version(&chosen, None, true), VersionChoice::Ask);
    assert_eq!(
        select_install_version(&chosen, None, false),
        VersionChoice::Take(version("1234567890abcdef"))
    );
}

#[test]
fn tools_are_built_after_the_plan_is_shown() {
    let tools = vec![tool("alpha"), tool("beta")];
    let mut versions = Vec::new();
    let mut destinations = Vec::new();
    let mut is_plan_shown = false;
    let mut trace = Vec::new();
    loop {
        match context().install_tool(&tools, None, false, &versions, is_plan_shown, &destinations)
        {
            ToolStep::Choose(place, VersionChoice::Take(version)) => {
                trace.push(format!("choose {place}"));
                versions.push(version);
            }
            ToolStep::ShowPlan(rows) => {
                assert_eq!(rows[1], texts(&["beta", "12345678 2026-04-29", "crates/tool/beta"]));
                trace.push("plan".to_string());
                is_plan_shown = true;
            }
            ToolStep::Install(place) => {
                trace.push(format!("install {place}"));
                destinations.push(format!("/bin/{place}"));
            }
            ToolStep::ShowSummary(rows) => {
                assert_eq!(rows[0], texts(&["alpha", "12345678", "crates/tool/alpha", "/bin/0"]));
                break;
            }
            other => panic!("{other:?}"),
        }
    }
    assert_eq!(trace, texts(&["choose 0", "choose 1", "plan", "install 0", "install 1"]));
}

#[test]
fn versions_are_selected_for_one_tool_only() {
    let tools = vec![tool("alpha"), tool("beta")];
    let step = context().install_tool(&tools, None, true, &Vec::new(), false, &Vec::new());
    match step {
        ToolStep::Refused(error) => assert_eq!(
            error.message(),
            "--select-version can only be used when installing exactly one tool"
        ),
        _ => panic!("not refused"),
    }
    let step =
        context().install_tool(&vec![tool("alpha")], None, true, &Vec::new(), false, &Vec::new());
    assert_eq!(step, ToolStep::Choose(0, VersionChoice::Ask));
}

#[test]
fn clones_are_made_or_brought_up_to_date() {
    let commands = context().sync_repo(true);
    let lines: Vec<String> = commands
        .iter()
        .map(|plan| format!("{} {}", plan.program, plan.arguments.join(" ")))
        .collect();
    assert_eq!(
        lines,
        vec![
            "git -C /h/repo fetch --all --tags --prune",
            "git -C /h/repo checkout main",
            "git -C /h/repo pull --ff-only origin main",
        ]
    );
    assert_eq!(commands[2].description, "pull latest default branch");
    let clone = context().sync_repo(false);
    assert_eq!(
        clone[0].arguments.join(" "),
        "clone --branch main --single-branch https://github.com/on9au/tools.git /h/repo"
    );
    assert_eq!(clone.len(), 1);
}

#[test]
fn without_syncing_a_clone_has_to_be_there() {
    assert_eq!(context().prepare_repo_cache(true, true), Ok(CachePlan::Use));
    assert_eq!(
        context().prepare_repo_cache(true, false).unwrap_err().message(),
        "repo cache is missing at /h/repo; run `toolctl sync` or omit --no-sync"
    );
    assert_eq!(
        context().prepare_repo_cache(false, true),
        Ok(CachePlan::Sync(context().sync_repo(true)))
    );
    assert_eq!(ensure_repo_cache_exists(&layout(), true), Ok(()));
}

#[test]
fn contexts_use_the_layout_that_is_found() {
    let environment = ToolsEnvironment {
        tools_home: Some("/mine".to_string()),
        tools_bin: Some("/bins".to_string()),
        local_app_data: None,
        xdg_data_home: None,
        cargo_home: None,
        home: None,
        user_profile: None,
        current_exe: Err("unknown".to_string()),
        search_path: None,
        canonical_paths: Vec::new(),
    };
    let context = ToolctlContext::new(Platform::Unix, &environment).unwrap();
    assert_eq!(context.layout.repo_dir(), "/mine/repo");
}

#[test]
fn commands_read_the_clone() {
    assert_eq!(
        metadata_command(&layout()).arguments.join(" "),
        "metadata --format-version 1 --no-deps --manifest-path /h/repo/Cargo.toml"
    );
    assert_eq!(metadata_command(&layout()).program, "cargo");
    assert_eq!(
        log_command(&layout(), "/h/repo/a", 10).arguments.join(" "),
        "-C /h/repo log -n10 --format=%H%x09%cs%x09%s -- /h/repo/a"
    );
    assert_eq!(
        show_command(&layout(), "v1").arguments.join(" "),
        "-C /h/repo show --no-patch --format=%H%x09%cs%x09%s v1"
    );
}

#[test]
fn worktrees_are_named_after_tool_commit_process_and_time() {
    let path = worktree_path(&layout(), "my tool", "1234567890", 42, 1_777_248_000);
    assert_eq!(path, "/h/worktrees/my-tool-12345678-42-1777248000");
    assert_eq!(
        create_worktree(&layout(), &path, "1234567890").arguments.join(" "),
        "-C /h/repo worktree add --detach /h/worktrees/my-tool-12345678-42-1777248000 1234567890"
    );
    assert_eq!(
        remove_worktree("/h/repo", "/w").arguments.join(" "),
        "-C /h/repo worktree remove --force /w"
    );
}

#[test]
fn manifests_keep_their_place_in_the_worktree() {
    assert_eq!(
        worktree_manifest_path(&layout(), "/w", "/h/repo/crates/a/Cargo.toml").unwrap(),
        "/w/crates/a/Cargo.toml"
    );
    assert_eq!(
        worktree_manifest_path(&layout(), "/w", "/other/Cargo.toml").unwrap_err().message(),
        "/other/Cargo.toml is not inside /h/repo: prefix not found"
    );
}

#[test]
fn builds_run_in_the_worktree() {
    let plan = build_tool(
        &InstallLayout::for_home(Platform::Windows, "/h".to_string()),
        "/w",
        &tool("alpha"),
        &version("1234567890"),
    )
    .unwrap();
    assert_eq!(plan.command.program, "cargo");
    assert_eq!(
        plan.command.arguments.join(" "),
        r"build --release --manifest-path /w\crates/tool/alpha/Cargo.toml --bin alpha"
    );
    assert_eq!(plan.command.directory.as_deref(), Some("/w"));
    assert_eq!(plan.command.description, "build alpha at 12345678");
    assert_eq!(plan.binary_path, r"/w\target\release\alpha.exe");
}

fn nothing_done() -> BuildProgress {
    BuildProgress {
        prepared: None,
        created: None,
        built: None,
        exists: None,
        installed: None,
        removed: None,
    }
}

fn next_of(progress: &BuildProgress) -> BuildStep {
    build_and_install(&layout(), &tool("alpha"), &version("1234567890"), "/w", progress)
}

#[test]
fn a_worktree_is_made_used_and_removed() {
    let mut progress = nothing_done();
    assert_eq!(next_of(&progress), BuildStep::Prepare);
    progress.prepared = Some(Ok(()));
    assert_eq!(
        next_of(&progress),
        BuildStep::Create(create_worktree(&layout(), "/w", "1234567890"))
    );
    progress.created = Some(StatusOutcome::Finished(true));
    let plan = build_tool(&layout(), "/w", &tool("alpha"), &version("1234567890")).unwrap();
    assert_eq!(next_of(&progress), BuildStep::Build(plan.command));
    progress.built = Some(StatusOutcome::Finished(true));
    assert_eq!(next_of(&progress), BuildStep::Check(plan.binary_path.clone()));
    progress.exists = Some(true);
    assert_eq!(next_of(&progress), BuildStep::Install(plan.binary_path));
    progress.installed = Some(Ok("/bin/alpha".to_string()));
    assert_eq!(next_of(&progress), BuildStep::Remove(remove_worktree("/h/repo", "/w")));
    progress.removed = Some(StatusOutcome::Finished(true));
    assert_eq!(next_of(&progress), BuildStep::Done("/bin/alpha".to_string()));
}

#[test]
fn a_build_that_fails_is_cleaned_up() {
    let failed = |text: &str| BuildStep::Failed(text.to_string());
    let mut progress = nothing_done();
    progress.prepared = Some(Err("no room".to_string()));
    assert_eq!(next_of(&progress), failed("no room"));
    progress.prepared = Some(Ok(()));
    progress.created = Some(StatusOutcome::Finished(false));
    assert_eq!(next_of(&progress), failed("failed to create temporary git worktree"));
    progress.created = Some(StatusOutcome::Finished(true));
    progress.built = Some(StatusOutcome::NotStarted("no cargo".to_string()));
    assert_eq!(next_of(&progress), BuildStep::Remove(remove_worktree("/h/repo", "/w")));
    progress.removed = Some(StatusOutcome::Finished(true));
    assert_eq!(next_of(&progress), failed("failed to build alpha at 12345678: no cargo"));
    progress.removed = Some(StatusOutcome::Finished(false));
    assert_eq!(
        next_of(&progress),
        failed("temporary worktree cleanup also failed: failed to remove temporary git worktree: failed to build alpha at 12345678: no cargo")
    );
    progress.built = Some(StatusOutcome::Finished(true));
    progress.exists = Some(false);
    progress.removed = None;
    assert_eq!(next_of(&progress), BuildStep::Remove(remove_worktree("/h/repo", "/w")));
    progress.removed = Some(StatusOutcome::Finished(true));
    assert_eq!(
        next_of(&progress),
        failed("built binary was not found at /w/target/release/alpha")
    );
    progress.exists = Some(true);
    progress.installed = Some(Err("no space".to_string()));
    assert_eq!(next_of(&progress), failed("no space"));
}

#[test]
fn a_build_counts_only_if_it_was_cleaned_up() {
    let mut progress = nothing_done();
    progress.prepared = Some(Ok(()));
    progress.created = Some(StatusOutcome::Finished(true));
    progress.built = Some(StatusOutcome::Finished(true));
    progress.exists = Some(true);
    progress.installed = Some(Ok("/bin/a".to_string()));
    progress.removed = Some(StatusOutcome::NotStarted("no git".to_string()));
    assert_eq!(
        next_of(&progress),
        BuildStep::Failed("failed to remove temporary git worktree: no git".to_string())
    );
}

#[test]
fn a_tool_outside_the_clone_is_not_built() {
    let mut stray = tool("alpha");
    stray.manifest_path = "/other/Cargo.toml".to_string();
    let mut progress = nothing_done();
    progress.prepared = Some(Ok(()));
    progress.created = Some(StatusOutcome::Finished(true));
    let next = |progress: &BuildProgress| {
        build_and_install(&layout(), &stray, &version("1234567890"), "/w", progress)
    };
    assert_eq!(next(&progress), BuildStep::Remove(remove_worktree("/h/repo", "/w")));
    progress.removed = Some(StatusOutcome::Finished(true));
    assert_eq!(
        next(&progress),
        BuildStep::Failed("/other/Cargo.toml is not inside /h/repo: prefix not found".to_string())
    );
}

#[test]
fn records_hold_what_was_installed() {
    let record = installed_record(&tool("alpha"), &version("abc"), 1_777_248_000);
    assert_eq!(record.tool_name, "alpha");
    assert_eq!(record.package_name, "crates/tool/alpha");
    assert_eq!(record.commit, "abc");
    assert_eq!(record.commit_date, "2026-04-29");
    assert_eq!(record.installed_at, "1777248000");
    assert_eq!(record.repository_url, "https://github.com/on9au/tools.git");
    assert_eq!(iso_like_timestamp(0), "0");
}

#[test]
fn binaries_have_to_be_there_to_run() {
    assert_eq!(
        binary_to_run(&layout(), "alpha", true),
        Ok("/h/bin/alpha".to_string())
    );
    assert_eq!(
        binary_to_run(&layout(), "alpha", false).unwrap_err().message(),
        "managed binary 'alpha' was not found at /h/bin/alpha"
    );
    assert_eq!(
        ToolctlError::Unlaunchable("/h/bin/alpha".to_string(), "denied".to_string()).message(),
        "failed to launch /h/bin/alpha: denied"
    );
}

#[test]
fn exit_codes_keep_their_low_byte() {
    for code in [0, 1, 255, 256, 257, -1, -256, i32::MIN, i32::MAX] {
        assert_eq!(exit_code(Some(code)), code as u8);
    }
    assert_eq!(exit_code(None), 1);
}

#[test]
fn commands_report_how_they_ended() {
    assert_eq!(run_status(&StatusOutcome::Finished(true), "fetch"), Ok(()));
    assert_eq!(
        run_status(&StatusOutcome::Finished(false), "fetch").unwrap_err().message(),
        "failed to fetch"
    );
    assert_eq!(
        run_status(&StatusOutcome::NotStarted("no git".to_string()), "fetch")
            .unwrap_err()
            .message(),
        "failed to fetch: no git"
    );
}

#[test]
fn output_of_commands_is_text() {
    assert_eq!(
        run_captured(CapturedOutcome::Finished("grüße".as_bytes().to_vec()), "read"),
        Ok("grüße".to_string())
    );
    assert!(matches!(
        run_captured(CapturedOutcome::Finished(vec![0xff]), "read"),
        Err(CommandError::NotText(_))
    ));
    assert_eq!(
        run_captured(CapturedOutcome::Failed(b" fatal: no \n".to_vec()), "read")
            .unwrap_err()
            .message(),
        "failed to read: fatal: no"
    );
    assert_eq!(
        run_captured(CapturedOutcome::Failed(vec![b'a', 0xff]), "read").unwrap_err().message(),
        "failed to read: a\u{fffd}"
    );
    assert_eq!(
        run_captured(CapturedOutcome::NotStarted("gone".to_string()), "read")
            .unwrap_err()
            .message(),
        "failed to read: gone"
    );
    let error = run_captured(CapturedOutcome::Finished(vec![0xff]), "read").unwrap_err();
    assert!(error.message().starts_with("command output was not valid UTF-8: "));
}

#[test]
fn reports_show_rows() {
    assert_eq!(section_title("Install Plan"), "\n== Install Plan ==");
    assert_eq!(
        available_rows(&vec![tool("alpha")]),
        vec![texts(&["alpha", "12345678", "2026-04-29", "crates/tool/alpha"])]
    );
    let record = installed_record(&tool("alpha"), &version("1234567890"), 1);
    assert_eq!(
        installed_rows(&vec![record]),
        vec![texts(&["alpha", "12345678", "2026-04-29", "crates/tool/alpha"])]
    );
    assert_eq!(
        version_rows(&vec![version("1234567890")]),
        vec![texts(&["1234567890", "2026-04-29", "Add example"])]
    );
    let doctor = doctor_rows(&layout(), 3, 2, true, false);
    assert_eq!(doctor.len(), 9);
    assert_eq!(doctor[0], texts(&["home", "/h"]));
    assert_eq!(doctor[5], texts(&["managed binaries", "3"]));
    assert_eq!(doctor[6], texts(&["installed metadata records", "2"]));
    assert_eq!(doctor[7], texts(&["bin directory exists", "true"]));
    assert_eq!(doctor[8], texts(&["repo cache exists", "false"]));
}
