use on9au_tools::listing::EntryKind;
use on9au_tools::reaper::{
    app_name, app_type, check, collect_files, confirm, confirmation_prompt, get_list,
    holders_headline, kill_report, nothing_to_inspect, run, shutdown_report, table_of_holders,
    KillOutcome, LockHolder, QueryReply, QueryStep, ReapEnd, ReapState, ReapStep, ReportLine,
    Severity, SystemError, WalkedEntry, ERROR_MORE_DATA, ERROR_SUCCESS,
};

fn holder(process_id: u32, application_type: i32, name: &str) -> LockHolder {
    let mut units: Vec<u16> = name.encode_utf16().collect();
    units.push(0);
    units.push(b'x' as u16);
    LockHolder { process_id, application_type, name: units }
}

fn state() -> ReapState {
    ReapState {
        severity: Severity::Graceful,
        list: false,
        yes: false,
        files: 1,
        started: None,
        registered: None,
        holders: None,
        answer: None,
        shut_down: None,
        killed: false,
        ended: false,
    }
}

fn reply(code: u32, needed: u32, count: u32) -> QueryReply {
    QueryReply { code, needed, count }
}

/// Runs through the steps with calls that succeed, and says which were taken.
fn trace(mut state: ReapState, holders: usize, answer: bool) -> (Vec<String>, ReapEnd) {
    let mut steps = Vec::new();
    loop {
        let step = run(&state);
        match &step {
            ReapStep::StartSession => state.started = Some(ERROR_SUCCESS),
            ReapStep::Register => state.registered = Some(ERROR_SUCCESS),
            ReapStep::Query => state.holders = Some(Ok(holders)),
            ReapStep::Confirm => state.answer = Some(Ok(answer)),
            ReapStep::Shutdown(_) => state.shut_down = Some(ERROR_SUCCESS),
            ReapStep::KillAll => state.killed = true,
            ReapStep::EndSession => state.ended = true,
            ReapStep::Finish(_) => {}
        }
        if let ReapStep::Finish(end) = step {
            return (steps, end);
        }
        steps.push(format!("{step:?}"));
    }
}

#[test]
fn holders_are_shut_down_after_a_yes() {
    let (steps, end) = trace(state(), 2, true);
    assert_eq!(
        steps,
        vec!["StartSession", "Register", "Query", "Confirm", "Shutdown(false)", "EndSession"]
    );
    assert_eq!(end, ReapEnd::ShutDown(false));
    let forced = ReapState { severity: Severity::Forced, yes: true, ..state() };
    let (steps, end) = trace(forced, 2, false);
    assert_eq!(
        steps,
        vec!["StartSession", "Register", "Query", "Shutdown(true)", "EndSession"]
    );
    assert_eq!(end, ReapEnd::ShutDown(true));
    let kill = ReapState { severity: Severity::Kill, yes: true, ..state() };
    assert_eq!(trace(kill, 1, false).1, ReapEnd::Killed);
}

#[test]
fn nothing_ends_without_consent() {
    let (steps, end) = trace(state(), 2, false);
    assert_eq!(steps, vec!["StartSession", "Register", "Query", "Confirm", "EndSession"]);
    assert_eq!(end, ReapEnd::Aborted);
    let list = ReapState { list: true, yes: true, severity: Severity::Kill, ..state() };
    let (steps, end) = trace(list, 2, true);
    assert_eq!(steps, vec!["StartSession", "Register", "Query", "EndSession"]);
    assert_eq!(end, ReapEnd::Listed);
    assert_eq!(trace(state(), 0, true).1, ReapEnd::NoHolders);
    let empty = ReapState { files: 0, ..state() };
    assert_eq!(trace(empty, 2, true), (Vec::new(), ReapEnd::NothingToInspect));
}

#[test]
fn sessions_are_ended_after_failures() {
    let failed = ReapState {
        started: Some(ERROR_SUCCESS),
        registered: Some(5),
        ..state()
    };
    assert_eq!(run(&failed), ReapStep::EndSession);
    let ended = ReapState { ended: true, ..failed };
    assert_eq!(
        run(&ended),
        ReapStep::Finish(ReapEnd::Failed(SystemError {
            call: "RmRegisterResources".to_string(),
            code: 5,
        }))
    );
    let not_started = ReapState { started: Some(8), ..state() };
    assert_eq!(
        run(&not_started),
        ReapStep::Finish(ReapEnd::Failed(SystemError {
            call: "RmStartSession".to_string(),
            code: 8,
        }))
    );
    let unread = ReapState {
        started: Some(ERROR_SUCCESS),
        registered: Some(ERROR_SUCCESS),
        holders: Some(Ok(1)),
        answer: Some(Err("closed".to_string())),
        ended: true,
        ..state()
    };
    assert_eq!(run(&unread), ReapStep::Finish(ReapEnd::NoAnswer("closed".to_string())));
    let shutdown = ReapState {
        yes: true,
        shut_down: Some(1),
        answer: None,
        ..unread
    };
    assert_eq!(
        run(&shutdown),
        ReapStep::Finish(ReapEnd::Failed(SystemError {
            call: "RmShutdown".to_string(),
            code: 1,
        }))
    );
}

#[test]
fn queries_grow_until_all_holders_fit() {
    assert_eq!(get_list(&Vec::new()), QueryStep::Probe);
    assert_eq!(get_list(&vec![reply(ERROR_SUCCESS, 0, 0)]), QueryStep::Nothing);
    let mut replies = vec![reply(ERROR_MORE_DATA, 2, 0)];
    assert_eq!(get_list(&replies), QueryStep::Ask(2));
    replies.push(reply(ERROR_MORE_DATA, 3, 2));
    assert_eq!(get_list(&replies), QueryStep::Ask(3));
    replies.push(reply(ERROR_SUCCESS, 3, 1));
    assert_eq!(get_list(&replies), QueryStep::Take(1));
    assert_eq!(get_list(&vec![reply(ERROR_SUCCESS, 4, 0)]), QueryStep::Ask(4));
    assert_eq!(
        get_list(&vec![reply(5, 0, 0)]),
        QueryStep::Failed(SystemError { call: "RmGetList".to_string(), code: 5 })
    );
}

#[test]
fn failures_show_their_code() {
    let error = check(0x8007_00ea, "RmGetList").unwrap_err();
    assert_eq!(error.message("no memory"), "RmGetList failed: no memory (0x800700EA)");
    assert_eq!(check(5, "RmShutdown").unwrap_err().message("denied"), "RmShutdown failed: denied (0x00000005)");
    assert_eq!(check(ERROR_SUCCESS, "RmShutdown"), Ok(()));
}

#[test]
fn files_are_collected_under_directories() {
    let entry = |path: &str, kind: EntryKind| WalkedEntry { path: path.to_string(), kind };
    assert_eq!(collect_files("/f", &None), vec!["/f"]);
    assert_eq!(
        collect_files(
            "/d",
            &Some(vec![
                entry("/d", EntryKind::Directory),
                entry("/d/a", EntryKind::File),
                entry("/d/link", EntryKind::Other),
                entry("/d/b", EntryKind::File),
            ])
        ),
        vec!["/d/a", "/d/b"]
    );
    assert_eq!(nothing_to_inspect("/d"), "Nothing to inspect: `/d` contains no files.");
}

#[test]
fn holders_have_labels_and_names() {
    let labels: Vec<&str> =
        [1, 2, 3, 4, 5, 1000, 0].iter().map(|code| app_type(&holder(1, *code, "a"))).collect();
    assert_eq!(
        labels,
        vec!["GUI", "GUI (other)", "Service", "Explorer", "Console", "Critical", "Unknown"]
    );
    assert_eq!(app_name(&holder(1, 1, "Büro \u{1f600}")), "Büro \u{1f600}");
    let broken = LockHolder { process_id: 1, application_type: 1, name: vec![0x61, 0xd800] };
    assert_eq!(app_name(&broken), "a\u{fffd}");
}

#[test]
fn table_is_aligned() {
    let holders = vec![holder(42, 5, "cmd"), holder(123456789, 2, "word")];
    assert_eq!(
        table_of_holders(&holders),
        format!(
            "  {:>8}  {:<10}  APPLICATION\n  {:>8}  {:<10}  -----------\n  {:>8}  {:<10}  {}\n  {:>8}  {:<10}  {}\n\n",
            "PID", "TYPE", "--------", "----------", 42, "Console", "cmd", 123456789, "GUI (other)", "word"
        )
    );
    assert_eq!(holders_headline("/f", 0), "No processes are holding a lock on `/f`.");
    assert_eq!(holders_headline("/f", 1), "Processes holding a lock on `/f`:\n");
}

#[test]
fn only_a_yes_confirms() {
    for answer in ["y", "Y\n", " yes \r\n", "YES"] {
        assert!(confirm(answer));
    }
    for answer in ["", "\n", "n", "yess", "y es"] {
        assert!(!confirm(answer));
    }
    assert_eq!(
        confirmation_prompt(Severity::Graceful, 2),
        "gracefully shut down 2 process(es)? [y/N] "
    );
    assert_eq!(
        confirmation_prompt(Severity::Forced, 1),
        "force shut down 1 process(es)? [y/N] "
    );
    assert_eq!(
        confirmation_prompt(Severity::Kill, 0),
        "forcibly kill 0 process(es)? [y/N] "
    );
}

#[test]
fn reports_say_what_was_done() {
    assert_eq!(shutdown_report(false, 3), "Requested graceful shutdown of 3 process(es).");
    assert_eq!(shutdown_report(true, 1), "Force-shut down 1 process(es).");
    let one = holder(7, 1, "app");
    assert_eq!(
        kill_report(&one, &KillOutcome::Killed),
        ReportLine::Output("  killed PID 7 (app)".to_string())
    );
    assert_eq!(
        kill_report(&one, &KillOutcome::NotTerminated("busy".to_string())),
        ReportLine::Error("  failed to terminate PID 7: busy".to_string())
    );
    assert_eq!(
        kill_report(&one, &KillOutcome::NotOpened("denied".to_string())),
        ReportLine::Error("  cannot open PID 7 (app): denied".to_string())
    );
}
