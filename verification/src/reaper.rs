//! Finding the processes that hold a lock on a file, and ending them.

use vstd::prelude::*;

use crate::ascii::{law_small_letters, lower, lower_text, lowered};
use crate::decoding::{lossy_wide_text, text_from_utf16_lossy};
use crate::digits::{
    decimal, decimal_of, digit_value, law_numeral_is_read_back, law_padded_numeral_is_read_back,
    law_padding_fills_up, lemma_numeral_length, number_in, numeral, numeral_of, pad_left, pad_right,
    padded_left, padded_right,
};
use crate::listing::EntryKind;
use crate::spaces::{trim, trimmed};
use crate::text::{
    chars_of, concat, holds_part, lemma_part_is_held, lemma_views_push, owned, same_text, views,
};

verus! {

/// The success code of the system.
pub const ERROR_SUCCESS: u32 = 0;

/// The code of the system for a buffer that is too small.
pub const ERROR_MORE_DATA: u32 = 234;

/// How hard lock holders are ended.
#[derive(Debug, Clone, Copy, PartialEq, Eq, Structural)]
pub enum Severity {
    /// They are asked to shut down.
    Graceful,
    /// They are shut down, by force where they do not exit.
    Forced,
    /// They are ended at once.
    Kill,
}

/// A process that holds a lock: its number, the code of its kind, and its name in UTF-16, up to the
/// first zero.
#[derive(Debug)]
pub struct LockHolder {
    pub process_id: u32,
    pub application_type: i32,
    pub name: Vec<u16>,
}

/// An entry under a directory that is inspected.
#[derive(Debug)]
pub struct WalkedEntry {
    pub path: String,
    pub kind: EntryKind,
}

/// A code of the system that is no success, of a call.
#[derive(Debug, PartialEq, Eq)]
pub struct SystemError {
    pub call: String,
    pub code: u32,
}

/// What the system answers to a query for lock holders: a code, how many there are, and how many it
/// gave.
#[derive(Debug, Clone, Copy)]
pub struct QueryReply {
    pub code: u32,
    pub needed: u32,
    pub count: u32,
}

/// What comes next in querying lock holders.
#[derive(Debug, PartialEq, Eq)]
pub enum QueryStep {
    /// Ask without room, to find out how many there are.
    Probe,
    /// Ask with room for this many.
    Ask(u32),
    /// There are none.
    Nothing,
    /// Take this many of those received.
    Take(u32),
    Failed(SystemError),
}

/// What an attempt to end a process led to.
#[derive(Debug)]
pub enum KillOutcome {
    Killed,
    NotTerminated(String),
    NotOpened(String),
}

/// A line of the report on a process that was to be ended.
#[derive(Debug, PartialEq, Eq)]
pub enum ReportLine {
    Output(String),
    Error(String),
}

/// What is asked for, and what is known so far: how many files are inspected, the codes of the
/// calls that were made, how many lock holders there are, the user's answer, and whether the lock
/// holders were killed and the session was ended.
#[derive(Debug)]
pub struct ReapState {
    pub severity: Severity,
    pub list: bool,
    pub yes: bool,
    pub files: usize,
    pub started: Option<u32>,
    pub registered: Option<u32>,
    pub holders: Option<Result<usize, SystemError>>,
    pub answer: Option<Result<bool, String>>,
    pub shut_down: Option<u32>,
    pub killed: bool,
    pub ended: bool,
}

/// How it ended.
#[derive(Debug, PartialEq, Eq)]
pub enum ReapEnd {
    /// There is no file.
    NothingToInspect,
    /// Nobody holds a lock.
    NoHolders,
    /// They were to be listed only.
    Listed,
    /// The user did not agree.
    Aborted,
    /// The system shut them down, by force or not.
    ShutDown(bool),
    Killed,
    Failed(SystemError),
    /// The answer could not be read, and why.
    NoAnswer(String),
}

/// What comes next.
#[derive(Debug, PartialEq, Eq)]
pub enum ReapStep {
    StartSession,
    Register,
    Query,
    Confirm,
    /// Ask the system to shut the lock holders down, by force or not.
    Shutdown(bool),
    KillAll,
    EndSession,
    Finish(ReapEnd),
}

impl Clone for SystemError {
    fn clone(&self) -> (copy: Self)
        ensures
            copy == *self,
    {
        SystemError { call: self.call.clone(), code: self.code }
    }
}

/// The numeral of `value` in base sixteen with capital letters and at least eight digits.
pub open spec fn code_text(value: nat) -> Seq<char> {
    padded_left(capitals(numeral(value, 16)), 8, '0')
}

/// A text with its small ASCII letters made capital.
pub open spec fn capitals(text: Seq<char>) -> Seq<char> {
    text.map_values(|character: char| capital(character))
}

/// The capital of a small ASCII letter.
pub open spec fn capital(character: char) -> char {
    if 'a' <= character <= 'z' {
        ((character as u32) - 32) as char
    } else {
        character
    }
}

/// Makes the small ASCII letters of a text capital.
fn to_capitals(text: &str) -> (capital_text: String)
    ensures
        capital_text@ == capitals(text@),
{
    let chars = chars_of(text);
    let mut result = String::new();
    let mut at: usize = 0;
    while at < chars.len()
        invariant
            at <= chars@.len(),
            result@ == capitals(chars@.take(at as int)),
        decreases chars@.len() - at,
    {
        let character = chars[at];
        if 'a' <= character && character <= 'z' {
            let code: u8 = character as u8 - 32;
            result.push(code as char);
        } else {
            result.push(character);
        }
        at += 1;
        assert(result@ =~= capitals(chars@.take(at as int)));
    }
    assert(chars@.take(at as int) =~= chars@);
    result
}

impl SystemError {
    /// What the error says, given what the system says of the code.
    pub open spec fn text(self, detail: Seq<char>) -> Seq<char> {
        self.call@ + " failed: "@ + detail + " (0x"@ + code_text(self.code as nat) + ")"@
    }

    /// Says which call failed and why, given what the system says of the code.
    pub fn message(&self, detail: &str) -> (message: String)
        ensures
            message@ == self.text(detail@),
    {
        let digits = to_capitals(numeral_of(self.code as u64, 16).as_str());
        let mut message = concat(self.call.as_str(), " failed: ");
        message.append(detail);
        message.append(" (0x");
        message.append(pad_left(digits.as_str(), 8, '0').as_str());
        message.append(")");
        message
    }
}

/// Takes the code of a call for success or failure.
pub fn check(code: u32, call: &str) -> (result: Result<(), SystemError>)
    ensures
        match result {
            Ok(_) => code == ERROR_SUCCESS,
            Err(error) => code != ERROR_SUCCESS && error.code == code && error.call@ == call@,
        },
{
    if code == ERROR_SUCCESS {
        Ok(())
    } else {
        Err(SystemError { call: owned(call), code })
    }
}

/// The paths of the files among the entries.
pub open spec fn file_paths(entries: Seq<WalkedEntry>) -> Seq<Seq<char>>
    decreases entries.len(),
{
    if entries.len() == 0 {
        Seq::empty()
    } else if entries.last().kind == EntryKind::File {
        file_paths(entries.drop_last()).push(entries.last().path@)
    } else {
        file_paths(entries.drop_last())
    }
}

/// The files to inspect: all under a directory, given what could be read of it, or the path itself.
pub fn collect_files(path: &str, walked: &Option<Vec<WalkedEntry>>) -> (files: Vec<String>)
    ensures
        views(files@) == (match walked {
            Some(entries) => file_paths(entries@),
            None => seq![path@],
        }),
{
    match walked {
        Some(entries) => pick_files(entries),
        None => {
            let mut files: Vec<String> = Vec::new();
            files.push(owned(path));
            assert(views(files@) =~= seq![path@]);
            files
        },
    }
}

/// The files among the entries.
fn pick_files(entries: &Vec<WalkedEntry>) -> (files: Vec<String>)
    ensures
        views(files@) == file_paths(entries@),
{
    let mut files: Vec<String> = Vec::new();
    let mut at: usize = 0;
    assert(views(files@) =~= file_paths(entries@.take(0)));
    while at < entries.len()
        invariant
            at <= entries@.len(),
            views(files@) == file_paths(entries@.take(at as int)),
        decreases entries@.len() - at,
    {
        let ghost longer = entries@.take(at + 1);
        assert(longer.drop_last() =~= entries@.take(at as int));
        assert(longer.last() == entries@[at as int]);
        if entries[at].kind == EntryKind::File {
            let path = entries[at].path.clone();
            proof {
                lemma_views_push(files@, path);
            }
            files.push(path);
        }
        at += 1;
    }
    assert(entries@.take(at as int) =~= entries@);
    files
}

/// Whether `step` says that the query for lock holders failed.
pub open spec fn is_query_failure(code: u32, step: QueryStep) -> bool {
    step matches QueryStep::Failed(error) && error.code == code && error.call@ == "RmGetList"@
}

/// Whether `step` comes next in querying lock holders: first their number is asked for, then they
/// are, with room for as many, until they all fit.
pub open spec fn is_query_step(replies: Seq<QueryReply>, step: QueryStep) -> bool {
    if replies.len() == 0 {
        step == QueryStep::Probe
    } else {
        let reply = replies.last();
        if reply.code != ERROR_SUCCESS && reply.code != ERROR_MORE_DATA {
            is_query_failure(reply.code, step)
        } else if reply.code == ERROR_MORE_DATA {
            step == QueryStep::Ask(reply.needed)
        } else if replies.len() > 1 {
            step == QueryStep::Take(reply.count)
        } else if reply.needed == 0 {
            step == QueryStep::Nothing
        } else {
            step == QueryStep::Ask(reply.needed)
        }
    }
}

/// What comes next in querying lock holders, given the replies so far.
pub fn get_list(replies: &Vec<QueryReply>) -> (step: QueryStep)
    ensures
        is_query_step(replies@, step),
{
    if replies.len() == 0 {
        return QueryStep::Probe;
    }
    let reply = &replies[replies.len() - 1];
    if reply.code != ERROR_SUCCESS && reply.code != ERROR_MORE_DATA {
        QueryStep::Failed(SystemError { call: owned("RmGetList"), code: reply.code })
    } else if reply.code == ERROR_MORE_DATA {
        QueryStep::Ask(reply.needed)
    } else if replies.len() > 1 {
        QueryStep::Take(reply.count)
    } else if reply.needed == 0 {
        QueryStep::Nothing
    } else {
        QueryStep::Ask(reply.needed)
    }
}

/// The label of a kind of application.
pub open spec fn type_label(code: i32) -> Seq<char> {
    if code == 1 {
        "GUI"@
    } else if code == 2 {
        "GUI (other)"@
    } else if code == 3 {
        "Service"@
    } else if code == 4 {
        "Explorer"@
    } else if code == 5 {
        "Console"@
    } else if code == 1000 {
        "Critical"@
    } else {
        "Unknown"@
    }
}

/// The label of the kind of a lock holder.
pub fn app_type(holder: &LockHolder) -> (label: &'static str)
    ensures
        label@ == type_label(holder.application_type),
{
    let code: i32 = holder.application_type;
    if code == 1 {
        "GUI"
    } else if code == 2 {
        "GUI (other)"
    } else if code == 3 {
        "Service"
    } else if code == 4 {
        "Explorer"
    } else if code == 5 {
        "Console"
    } else if code == 1000 {
        "Critical"
    } else {
        "Unknown"
    }
}

/// The units before the first zero.
pub open spec fn before_zero(units: Seq<u16>) -> Seq<u16>
    decreases units.len(),
{
    if units.len() == 0 || units[0] == 0 {
        Seq::empty()
    } else {
        seq![units[0]] + before_zero(units.drop_first())
    }
}

/// The units before the first zero.
fn cut_at_zero(units: &Vec<u16>) -> (part: Vec<u16>)
    ensures
        part@ == before_zero(units@),
{
    let mut part: Vec<u16> = Vec::new();
    let mut at: usize = 0;
    assert(units@.skip(0) =~= units@);
    assert(part@ + before_zero(units@) =~= before_zero(units@));
    while at < units.len() && units[at] != 0
        invariant
            at <= units@.len(),
            part@ + before_zero(units@.skip(at as int)) == before_zero(units@),
        decreases units@.len() - at,
    {
        let ghost rest = units@.skip(at as int);
        let ghost earlier = part@;
        part.push(units[at]);
        at += 1;
        assert(rest.drop_first() =~= units@.skip(at as int));
        assert(earlier + (seq![rest[0]] + before_zero(rest.drop_first())) =~= part@ + before_zero(
            units@.skip(at as int),
        ));
    }
    assert(part@ + Seq::<u16>::empty() =~= part@);
    part
}

/// The name of a lock holder.
pub fn app_name(holder: &LockHolder) -> (name: String)
    ensures
        name@ == lossy_wide_text(before_zero(holder.name@)),
        (forall|at: int|
            0 <= at < before_zero(holder.name@).len() ==> #[trigger] before_zero(holder.name@)[at]
                < 0x80) ==> name@ == before_zero(holder.name@).map_values(
            |unit: u16| unit as char,
        ),
{
    text_from_utf16_lossy(&cut_at_zero(&holder.name))
}

/// A line of the table: the number right, the kind left in its column.
pub open spec fn table_line(number: Seq<char>, kind: Seq<char>, name: Seq<char>) -> Seq<char> {
    "  "@ + padded_left(number, 8, ' ') + "  "@ + padded_right(kind, 10, ' ') + "  "@ + name
        + "\n"@
}

/// The lines of the first `count` lock holders.
pub open spec fn holder_lines(holders: Seq<LockHolder>, count: int) -> Seq<char>
    decreases count,
{
    if count <= 0 {
        Seq::empty()
    } else {
        holder_lines(holders, count - 1) + table_line(
            decimal(holders[count - 1].process_id as nat),
            type_label(holders[count - 1].application_type),
            lossy_wide_text(before_zero(holders[count - 1].name@)),
        )
    }
}

/// The table of lock holders.
pub open spec fn holder_table(holders: Seq<LockHolder>) -> Seq<char> {
    table_line("PID"@, "TYPE"@, "APPLICATION"@) + table_line(
        "--------"@,
        "----------"@,
        "-----------"@,
    ) + holder_lines(holders, holders.len() as int) + "\n"@
}

/// Writes a line of the table.
fn write_line(number: &str, kind: &str, name: &str) -> (line: String)
    ensures
        line@ == table_line(number@, kind@, name@),
{
    let mut line = concat("  ", pad_left(number, 8, ' ').as_str());
    line.append("  ");
    line.append(pad_right(kind, 10, ' ').as_str());
    line.append("  ");
    line.append(name);
    line.append("\n");
    line
}

/// Writes the table of lock holders.
pub fn table_of_holders(holders: &Vec<LockHolder>) -> (text: String)
    ensures
        text@ == holder_table(holders@),
{
    let mut text = write_line("PID", "TYPE", "APPLICATION");
    text.append(write_line("--------", "----------", "-----------").as_str());
    let ghost head = text@;
    let mut at: usize = 0;
    assert(text@ =~= head + holder_lines(holders@, 0));
    while at < holders.len()
        invariant
            at <= holders@.len(),
            text@ == head + holder_lines(holders@, at as int),
        decreases holders@.len() - at,
    {
        let holder = &holders[at];
        let line = write_line(
            decimal_of(holder.process_id as u64).as_str(),
            app_type(holder),
            app_name(holder).as_str(),
        );
        let ghost before = text@;
        text.append(line.as_str());
        assert(before + line@ =~= head + (holder_lines(holders@, at as int) + line@));
        at += 1;
    }
    text.append("\n");
    text
}

/// What is about to be done, in words.
pub open spec fn verb_of(severity: Severity) -> Seq<char> {
    match severity {
        Severity::Graceful => "gracefully shut down"@,
        Severity::Forced => "force shut down"@,
        Severity::Kill => "forcibly kill"@,
    }
}

/// The question that is put to the user.
pub fn confirmation_prompt(severity: Severity, count: usize) -> (prompt: String)
    ensures
        prompt@ == verb_of(severity) + " "@ + decimal(count as nat) + " process(es)? [y/N] "@,
{
    let verb = match severity {
        Severity::Graceful => "gracefully shut down",
        Severity::Forced => "force shut down",
        Severity::Kill => "forcibly kill",
    };
    let mut prompt = concat(verb, " ");
    prompt.append(decimal_of(count as u64).as_str());
    prompt.append(" process(es)? [y/N] ");
    prompt
}

/// Whether an answer means yes.
pub open spec fn is_yes(answer: Seq<char>) -> bool {
    lowered(trimmed(answer)) == "y"@ || lowered(trimmed(answer)) == "yes"@
}

/// Whether an answer means yes: `y` or `yes`, in either case.
pub fn confirm(answer: &str) -> (is_confirmed: bool)
    ensures
        is_confirmed == is_yes(answer@),
{
    let word = lower_text(trim(answer).as_str());
    same_text(word.as_str(), "y") || same_text(word.as_str(), "yes")
}

/// Whether the end is the failure of a call.
pub open spec fn is_failure_of(step: ReapStep, call: Seq<char>, code: u32) -> bool {
    &&& step matches ReapStep::Finish(ReapEnd::Failed(error))
    &&& error.call@ == call
    &&& error.code == code
}

/// Whether `step` comes next inside a session, where an end is the end of the work in it.
pub open spec fn is_session_step(state: ReapState, step: ReapStep) -> bool {
    match state.registered {
        None => step == ReapStep::Register,
        Some(code) => if code != ERROR_SUCCESS {
            is_failure_of(step, "RmRegisterResources"@, code)
        } else {
            match state.holders {
                None => step == ReapStep::Query,
                Some(Err(error)) => step == ReapStep::Finish(ReapEnd::Failed(error)),
                Some(Ok(count)) => if count == 0 {
                    step == ReapStep::Finish(ReapEnd::NoHolders)
                } else if state.list {
                    step == ReapStep::Finish(ReapEnd::Listed)
                } else if !state.yes && state.answer is None {
                    step == ReapStep::Confirm
                } else if !state.yes && state.answer->Some_0 is Err {
                    &&& step matches ReapStep::Finish(ReapEnd::NoAnswer(why))
                    &&& why@ == state.answer->Some_0->Err_0@
                } else if !state.yes && state.answer->Some_0 == Ok::<bool, String>(false) {
                    step == ReapStep::Finish(ReapEnd::Aborted)
                } else {
                    is_ending_step(state, step)
                },
            }
        },
    }
}

/// Whether `step` comes next in ending the lock holders.
pub open spec fn is_ending_step(state: ReapState, step: ReapStep) -> bool {
    let is_forced = state.severity == Severity::Forced;
    match state.severity {
        Severity::Kill => if state.killed {
            step == ReapStep::Finish(ReapEnd::Killed)
        } else {
            step == ReapStep::KillAll
        },
        _ => match state.shut_down {
            None => step == ReapStep::Shutdown(is_forced),
            Some(code) => if code == ERROR_SUCCESS {
                step == ReapStep::Finish(ReapEnd::ShutDown(is_forced))
            } else {
                is_failure_of(step, "RmShutdown"@, code)
            },
        },
    }
}

/// Whether `step` comes next: a session is started where there are files, and ended when the work
/// in it is over, however that went.
pub open spec fn is_reap_step(state: ReapState, step: ReapStep) -> bool {
    if state.files == 0 {
        step == ReapStep::Finish(ReapEnd::NothingToInspect)
    } else {
        match state.started {
            None => step == ReapStep::StartSession,
            Some(code) => if code != ERROR_SUCCESS {
                is_failure_of(step, "RmStartSession"@, code)
            } else if step == ReapStep::EndSession {
                !state.ended && exists|end: ReapEnd|
                    #[trigger] is_session_step(state, ReapStep::Finish(end))
            } else {
                is_session_step(state, step) && (step is Finish ==> state.ended)
            },
        }
    }
}

/// What comes next in ending the lock holders.
fn next_ending_step(state: &ReapState) -> (step: ReapStep)
    ensures
        is_ending_step(*state, step),
{
    let is_forced = match state.severity {
        Severity::Kill => {
            return if state.killed {
                ReapStep::Finish(ReapEnd::Killed)
            } else {
                ReapStep::KillAll
            };
        },
        Severity::Forced => true,
        Severity::Graceful => false,
    };
    match state.shut_down {
        None => ReapStep::Shutdown(is_forced),
        Some(code) => match check(code, "RmShutdown") {
            Ok(_) => ReapStep::Finish(ReapEnd::ShutDown(is_forced)),
            Err(error) => ReapStep::Finish(ReapEnd::Failed(error)),
        },
    }
}

/// What comes next inside a session.
fn next_session_step(state: &ReapState) -> (step: ReapStep)
    ensures
        is_session_step(*state, step),
{
    match state.registered {
        None => return ReapStep::Register,
        Some(code) => {
            if let Err(error) = check(code, "RmRegisterResources") {
                return ReapStep::Finish(ReapEnd::Failed(error));
            }
        },
    }
    match &state.holders {
        None => return ReapStep::Query,
        Some(Err(error)) => return ReapStep::Finish(ReapEnd::Failed(error.clone())),
        Some(Ok(count)) => {
            if *count == 0 {
                return ReapStep::Finish(ReapEnd::NoHolders);
            }
        },
    }
    if state.list {
        return ReapStep::Finish(ReapEnd::Listed);
    }
    if !state.yes {
        match &state.answer {
            None => return ReapStep::Confirm,
            Some(Err(why)) => return ReapStep::Finish(ReapEnd::NoAnswer(why.clone())),
            Some(Ok(is_confirmed)) => {
                if !*is_confirmed {
                    return ReapStep::Finish(ReapEnd::Aborted);
                }
            },
        }
    }
    next_ending_step(state)
}

/// What comes next.
pub fn run(state: &ReapState) -> (step: ReapStep)
    ensures
        is_reap_step(*state, step),
{
    if state.files == 0 {
        return ReapStep::Finish(ReapEnd::NothingToInspect);
    }
    match state.started {
        None => return ReapStep::StartSession,
        Some(code) => {
            if let Err(error) = check(code, "RmStartSession") {
                return ReapStep::Finish(ReapEnd::Failed(error));
            }
        },
    }
    match next_session_step(state) {
        ReapStep::Finish(end) => {
            if state.ended {
                ReapStep::Finish(end)
            } else {
                assert(is_session_step(*state, ReapStep::Finish(end)));
                ReapStep::EndSession
            }
        },
        step => step,
    }
}

/// What is said when nobody holds a lock, or who does.
pub fn holders_headline(path: &str, count: usize) -> (line: String)
    ensures
        line@ == (if count == 0 {
            "No processes are holding a lock on `"@ + path@ + "`."@
        } else {
            "Processes holding a lock on `"@ + path@ + "`:\n"@
        }),
{
    if count == 0 {
        let mut line = concat("No processes are holding a lock on `", path);
        line.append("`.");
        line
    } else {
        let mut line = concat("Processes holding a lock on `", path);
        line.append("`:\n");
        line
    }
}

/// What is said of a directory without files.
pub fn nothing_to_inspect(path: &str) -> (line: String)
    ensures
        line@ == "Nothing to inspect: `"@ + path@ + "` contains no files."@,
{
    let mut line = concat("Nothing to inspect: `", path);
    line.append("` contains no files.");
    line
}

/// What is said of a shutdown that was asked for.
pub fn shutdown_report(is_forced: bool, count: usize) -> (line: String)
    ensures
        line@ == (if is_forced {
            "Force-shut down "@ + decimal(count as nat) + " process(es)."@
        } else {
            "Requested graceful shutdown of "@ + decimal(count as nat) + " process(es)."@
        }),
{
    let mut line = concat(
        if is_forced {
            "Force-shut down "
        } else {
            "Requested graceful shutdown of "
        },
        decimal_of(count as u64).as_str(),
    );
    line.append(" process(es).");
    line
}

/// What is said of a process that was to be ended.
pub open spec fn is_kill_report(holder: LockHolder, outcome: KillOutcome, line: ReportLine) -> bool {
    let number = decimal(holder.process_id as nat);
    let name = lossy_wide_text(before_zero(holder.name@));
    match outcome {
        KillOutcome::Killed => line matches ReportLine::Output(text) && text@ == "  killed PID "@
            + number + " ("@ + name + ")"@,
        KillOutcome::NotTerminated(detail) => line matches ReportLine::Error(text) && text@
            == "  failed to terminate PID "@ + number + ": "@ + detail@,
        KillOutcome::NotOpened(detail) => line matches ReportLine::Error(text) && text@
            == "  cannot open PID "@ + number + " ("@ + name + "): "@ + detail@,
    }
}

/// Says what came of ending a process.
pub fn kill_report(holder: &LockHolder, outcome: &KillOutcome) -> (line: ReportLine)
    ensures
        is_kill_report(*holder, *outcome, line),
{
    let number = decimal_of(holder.process_id as u64);
    match outcome {
        KillOutcome::Killed => {
            let mut text = concat("  killed PID ", number.as_str());
            text.append(" (");
            text.append(app_name(holder).as_str());
            text.append(")");
            ReportLine::Output(text)
        },
        KillOutcome::NotTerminated(detail) => {
            let mut text = concat("  failed to terminate PID ", number.as_str());
            text.append(": ");
            text.append(detail.as_str());
            ReportLine::Error(text)
        },
        KillOutcome::NotOpened(detail) => {
            let mut text = concat("  cannot open PID ", number.as_str());
            text.append(" (");
            text.append(app_name(holder).as_str());
            text.append("): ");
            text.append(detail.as_str());
            ReportLine::Error(text)
        },
    }
}

/// A session that was started is ended before the program is, whatever went wrong in between.
pub proof fn law_session_is_always_ended(state: ReapState, step: ReapStep)
    requires
        is_reap_step(state, step),
        step is Finish,
        state.files > 0,
        state.started == Some(ERROR_SUCCESS),
    ensures
        state.ended,
{
}

/// A session is ended once, and only when the work in it is over.
pub proof fn law_session_ends_last(state: ReapState, step: ReapStep)
    requires
        is_reap_step(state, step),
        step is EndSession,
    ensures
        state.started == Some(ERROR_SUCCESS),
        !state.ended,
        !is_session_step(state, ReapStep::Register),
        !is_session_step(state, ReapStep::Query),
        !is_session_step(state, ReapStep::Confirm),
        !is_session_step(state, ReapStep::Shutdown(true)),
        !is_session_step(state, ReapStep::Shutdown(false)),
        !is_session_step(state, ReapStep::KillAll),
{
}

/// Nothing is ended that was only to be listed, nor without a yes on the command line or from the
/// user; it is killed only where the severity asks for that.
pub proof fn law_nothing_ends_without_consent(state: ReapState, step: ReapStep)
    requires
        is_reap_step(state, step),
        step is Shutdown || step is KillAll,
    ensures
        !state.list,
        state.yes || state.answer == Some(Ok::<bool, String>(true)),
        state.holders matches Some(Ok(count)) && count > 0,
        step is KillAll <==> state.severity == Severity::Kill,
{
    if let Some(Ok(is_confirmed)) = state.answer {
        if !is_confirmed {
            assert(state.answer->Some_0 == Ok::<bool, String>(false));
        } else {
            assert(state.answer->Some_0 == Ok::<bool, String>(true));
        }
    }
}

/// No step is taken twice.
pub proof fn law_no_call_is_repeated(state: ReapState, step: ReapStep)
    requires
        is_reap_step(state, step),
    ensures
        step is StartSession ==> state.started is None,
        step is Register ==> state.registered is None,
        step is Query ==> state.holders is None,
        step is Confirm ==> state.answer is None,
        step is Shutdown ==> state.shut_down is None,
        step is KillAll ==> !state.killed,
        step is EndSession ==> !state.ended,
{
}

/// The room that is asked for is what the system last said it needs.
pub proof fn law_room_is_what_was_needed(replies: Seq<QueryReply>, step: QueryStep)
    requires
        is_query_step(replies, step),
        step is Ask,
    ensures
        replies.len() > 0,
        step->Ask_0 == replies.last().needed,
{
}

/// A code is written with at least eight capital hexadecimal digits, which read back as the code.
pub proof fn law_code_is_read_back(value: nat)
    ensures
        code_text(value).len() >= 8,
        number_in(lowered(code_text(value)), 16) == value,
        forall|at: int|
            0 <= at < code_text(value).len() ==> !('a' <= #[trigger] code_text(value)[at] <= 'z'),
        value < 0x1_0000_0000 ==> code_text(value).len() == 8,
{
    let small = numeral(value, 16);
    let digits = capitals(small);
    let text = code_text(value);
    law_numeral_is_read_back(value, 16);
    law_padded_numeral_is_read_back(value, 16, 8);
    law_padding_fills_up(digits, 8, '0');
    assert forall|at: int| 0 <= at < digits.len() implies !('a' <= #[trigger] digits[at] <= 'z')
        && lower(digits[at]) == small[at] by {
        assert(digits[at] == capital(small[at]));
        assert(0 <= digit_value(small[at]) < 16);
    }
    assert forall|at: int| 0 <= at < text.len() implies !('a' <= #[trigger] text[at] <= 'z') by {
        if at >= text.len() - digits.len() {
            assert(text.skip(text.len() - digits.len())[at - (text.len() - digits.len())]
                == text[at]);
        }
    }
    assert(lowered(text) =~= padded_left(small, 8, '0')) by {
        let other = padded_left(small, 8, '0');
        assert(other.len() == text.len());
        let filled = text.len() - digits.len();
        assert forall|at: int| 0 <= at < text.len() implies lowered(text)[at] == other[at] by {
            assert(lowered(text)[at] == lower(text[at]));
            if at >= filled {
                assert(text.skip(filled)[at - filled] == text[at]);
                assert(text[at] == digits[at - filled]);
                law_padding_fills_up(small, 8, '0');
                assert(other.skip(filled)[at - filled] == other[at]);
            } else {
                assert(text[at] == '0');
                law_padding_fills_up(small, 8, '0');
                assert(other[at] == '0');
            }
        }
    }
    if value < 0x1_0000_0000 {
        assert(vstd::arithmetic::power::pow(16, 8) == 0x1_0000_0000) by {
            reveal_with_fuel(vstd::arithmetic::power::pow, 9);
        }
        lemma_numeral_length(value, 16, 8);
    }
}

/// The files under a directory are all of its entries that are files, once and in order: each has
/// its place among the entries, the places ascend and miss no file.
pub proof fn law_every_file_is_collected(entries: Seq<WalkedEntry>) -> (places: Seq<int>)
    ensures
        places.len() == file_paths(entries).len(),
        forall|left: int, right: int|
            0 <= left < right < places.len() ==> #[trigger] places[left] < #[trigger] places[right],
        forall|at: int|
            0 <= at < places.len() ==> 0 <= #[trigger] places[at] < entries.len()
                && entries[places[at]].kind == EntryKind::File && entries[places[at]].path@
                == file_paths(entries)[at],
        forall|place: int|
            0 <= place < entries.len() && (#[trigger] entries[place]).kind == EntryKind::File
                ==> places.contains(place),
    decreases entries.len(),
{
    if entries.len() == 0 {
        Seq::empty()
    } else {
        let rest = entries.drop_last();
        let before = law_every_file_is_collected(rest);
        let last = entries.len() - 1;
        let earlier = file_paths(rest);
        let paths = file_paths(entries);
        let places = if entries.last().kind == EntryKind::File {
            before.push(last)
        } else {
            before
        };
        assert forall|at: int| 0 <= at < places.len() implies 0 <= #[trigger] places[at]
            < entries.len() && entries[places[at]].kind == EntryKind::File
            && entries[places[at]].path@ == paths[at] by {
            if at < before.len() {
                assert(places[at] == before[at]);
                assert(paths[at] == earlier[at]);
                assert(entries[before[at]] == rest[before[at]]);
            }
        }
        assert forall|left: int, right: int| 0 <= left < right < places.len() implies
            #[trigger] places[left] < #[trigger] places[right] by {
            assert(places[left] == before[left]);
            if right < before.len() {
                assert(places[right] == before[right]);
            }
        }
        assert forall|place: int|
            0 <= place < entries.len() && (#[trigger] entries[place]).kind
                == EntryKind::File implies places.contains(place) by {
            if place < last {
                assert(entries[place] == rest[place]);
                let at = choose|at: int| 0 <= at < before.len() && before[at] == place;
                assert(places[at] == place);
            } else {
                assert(places[places.len() - 1] == last);
            }
        }
        places
    }
}

/// A name ends before its first zero, and is all of the units where there is none.
pub proof fn law_name_ends_at_the_first_zero(units: Seq<u16>)
    ensures
        before_zero(units).is_prefix_of(units),
        !before_zero(units).contains(0),
        before_zero(units).len() < units.len() ==> units[before_zero(units).len() as int] == 0,
    decreases units.len(),
{
    let part = before_zero(units);
    if units.len() > 0 && units[0] != 0 {
        let rest = units.drop_first();
        law_name_ends_at_the_first_zero(rest);
        let shorter = before_zero(rest);
        assert(part =~= seq![units[0]] + shorter);
        assert(part =~= units.subrange(0, part.len() as int)) by {
            assert forall|at: int| 0 <= at < part.len() implies part[at] == units[at] by {
                if at > 0 {
                    assert(part[at] == shorter[at - 1]);
                    assert(shorter == rest.subrange(0, shorter.len() as int));
                    assert(rest.subrange(0, shorter.len() as int)[at - 1] == rest[at - 1]);
                }
            }
        }
        assert forall|at: int| 0 <= at < part.len() implies part[at] != 0 by {
            if at > 0 {
                assert(part[at] == shorter[at - 1]);
                assert(shorter.contains(shorter[at - 1]));
            }
        }
    } else {
        assert(part =~= units.subrange(0, 0));
    }
}

/// The known kinds of processes have labels of their own.
pub proof fn law_kinds_have_their_labels(code: i32)
    ensures
        type_label(code) == "GUI"@ <==> code == 1,
        type_label(code) == "GUI (other)"@ <==> code == 2,
        type_label(code) == "Service"@ <==> code == 3,
        type_label(code) == "Explorer"@ <==> code == 4,
        type_label(code) == "Console"@ <==> code == 5,
        type_label(code) == "Critical"@ <==> code == 1000,
        type_label(code) == "Unknown"@ <==> !(1 <= code <= 5 || code == 1000),
{
    reveal_strlit("GUI");
    reveal_strlit("GUI (other)");
    reveal_strlit("Service");
    reveal_strlit("Explorer");
    reveal_strlit("Console");
    reveal_strlit("Critical");
    reveal_strlit("Unknown");
    assert("GUI"@.len() == 3 && "GUI (other)"@.len() == 11);
    assert("Service"@.len() == 7 && "Console"@.len() == 7 && "Unknown"@.len() == 7);
    assert("Explorer"@.len() == 8 && "Critical"@.len() == 8);
    assert("Service"@[0] == 'S' && "Console"@[0] == 'C' && "Unknown"@[0] == 'U');
    assert("Explorer"@[0] == 'E' && "Critical"@[0] == 'C');
}

/// In a line of the table the number ends at the tenth column, the kind begins at the thirteenth
/// and the name at the twenty-fifth.
pub proof fn law_columns_of_the_table(number: Seq<char>, kind: Seq<char>, name: Seq<char>)
    requires
        number.len() <= 8,
        kind.len() <= 10,
    ensures
        ({
            let line = table_line(number, kind, name);
            &&& line.subrange(10 - number.len(), 10) == number
            &&& line.subrange(12, 12 + kind.len() as int) == kind
            &&& line.skip(24) == name + seq!['\n']
            &&& forall|at: int|
                0 <= at < 10 - number.len() || 10 <= at < 12 || 12 + kind.len() <= at < 24
                    ==> #[trigger] line[at] == ' '
        }),
{
    reveal_strlit("  ");
    reveal_strlit("\n");
    let line = table_line(number, kind, name);
    let left = padded_left(number, 8, ' ');
    let right = padded_right(kind, 10, ' ');
    law_padding_fills_up(number, 8, ' ');
    law_padding_fills_up(kind, 10, ' ');
    assert(left.len() == 8 && right.len() == 10);
    assert forall|at: int| 0 <= at < 10 - number.len() || 10 <= at < 12 || 12 + kind.len() <= at
        < 24 implies #[trigger] line[at] == ' ' by {
        if 2 <= at < 10 {
            assert(line[at] == left[at - 2]);
        } else if 12 <= at < 22 {
            assert(line[at] == right[at - 12]);
        }
    }
    assert(line.subrange(10 - number.len(), 10) =~= left.skip(8 - number.len()));
    assert(line.subrange(12, 12 + kind.len() as int) =~= right.take(kind.len() as int));
    assert(line.skip(24) =~= name + seq!['\n']);
}

/// The table has a line for every process: those of the first ones, and then that of the next, with
/// its number, its kind and its name.
pub proof fn law_every_process_has_its_line(holders: Seq<LockHolder>, at: int)
    requires
        0 <= at < holders.len(),
    ensures
        holder_lines(holders, 0).len() == 0,
        holder_lines(holders, at + 1) == holder_lines(holders, at) + table_line(
            decimal(holders[at].process_id as nat),
            type_label(holders[at].application_type),
            lossy_wide_text(before_zero(holders[at].name@)),
        ),
        holder_lines(holders, holders.len() as int).len() < holder_table(holders).len(),
{
    reveal_strlit("\n");
}

/// Consent is one of the words `y` and `yes`, in either case, with space around it.
pub proof fn law_consent_is_yes(answer: Seq<char>)
    ensures
        is_yes(answer) <==> {
            let word = trimmed(answer);
            ||| word.len() == 1 && (word[0] == 'y' || word[0] == 'Y')
            ||| word.len() == 3 && (word[0] == 'y' || word[0] == 'Y') && (word[1] == 'e' || word[1]
                == 'E') && (word[2] == 's' || word[2] == 'S')
        },
{
    reveal_strlit("y");
    reveal_strlit("yes");
    let word = trimmed(answer);
    let small = lowered(word);
    assert forall|at: int| 0 <= at < word.len() implies (small[at] == 'y' <==> word[at] == 'y'
        || word[at] == 'Y') && (small[at] == 'e' <==> word[at] == 'e' || word[at] == 'E') && (
    small[at] == 's' <==> word[at] == 's' || word[at] == 'S') by {
        law_small_letters(word, at);
        if small[at] as int == 'y' as int || small[at] as int == 'e' as int || small[at] as int
            == 's' as int {
        }
    }
    assert("y"@.len() == 1 && "y"@[0] == 'y');
    assert("yes"@.len() == 3 && "yes"@[0] == 'y' && "yes"@[1] == 'e' && "yes"@[2] == 's');
    assert(small.len() == word.len());
    if word.len() == 1 && small[0] == 'y' {
        assert(small =~= "y"@);
    }
    if word.len() == 3 && small[0] == 'y' && small[1] == 'e' && small[2] == 's' {
        assert(small =~= "yes"@);
    }
}

/// Whether processes are to be ended: some hold a lock, more than a list is asked for, and the user
/// agreed or need not be asked.
pub open spec fn is_granted(state: ReapState) -> bool {
    &&& state.files > 0
    &&& state.started == Some(0u32)
    &&& state.registered == Some(0u32)
    &&& state.holders matches Some(Ok(count)) && count > 0
    &&& !state.list
    &&& state.yes || state.answer == Some(Ok::<bool, String>(true))
}

/// When each of the calls is made.
pub proof fn law_calls_come_in_order(state: ReapState, step: ReapStep)
    requires
        is_reap_step(state, step),
    ensures
        step is StartSession <==> state.files > 0 && state.started is None,
        step is Register <==> state.files > 0 && state.started == Some(0u32) && state.registered
            is None,
        step is Query <==> state.files > 0 && state.started == Some(0u32) && state.registered
            == Some(0u32) && state.holders is None,
        step is Confirm <==> {
            &&& state.files > 0 && state.started == Some(0u32) && state.registered == Some(0u32)
            &&& state.holders matches Some(Ok(count)) && count > 0
            &&& !state.list && !state.yes && state.answer is None
        },
        step is KillAll <==> is_granted(state) && state.severity == Severity::Kill && !state.killed,
        step == ReapStep::Shutdown(true) <==> is_granted(state) && state.severity
            == Severity::Forced && state.shut_down is None,
        step == ReapStep::Shutdown(false) <==> is_granted(state) && state.severity
            == Severity::Graceful && state.shut_down is None,
{
    lemma_answers(state);
}

/// An answer that was read agrees or does not.
proof fn lemma_answers(state: ReapState)
    ensures
        state.answer matches Some(Ok(agrees)) ==> if agrees {
            state.answer == Some(Ok::<bool, String>(true))
        } else {
            state.answer == Some(Ok::<bool, String>(false))
        },
{
    if let Some(Ok(agrees)) = state.answer {
        if agrees {
            assert(state.answer->Some_0 == Ok::<bool, String>(true));
        } else {
            assert(state.answer->Some_0 == Ok::<bool, String>(false));
        }
    }
}

/// Each end comes for its own reason.
pub proof fn law_every_end_has_its_reason(state: ReapState, end: ReapEnd)
    requires
        is_reap_step(state, ReapStep::Finish(end)),
    ensures
        end is NothingToInspect <==> state.files == 0,
        match end {
            ReapEnd::NothingToInspect => true,
            ReapEnd::NoHolders => state.holders == Some(Ok::<usize, SystemError>(0)),
            ReapEnd::Listed => state.list && (state.holders matches Some(Ok(count)) && count > 0),
            ReapEnd::Aborted => !state.list && !state.yes && state.answer == Some(
                Ok::<bool, String>(false),
            ),
            ReapEnd::ShutDown(is_forced) => is_granted(state) && state.shut_down == Some(0u32)
                && state.severity == if is_forced {
                Severity::Forced
            } else {
                Severity::Graceful
            },
            ReapEnd::Killed => is_granted(state) && state.severity == Severity::Kill
                && state.killed,
            ReapEnd::NoAnswer(why) => !state.list && !state.yes && (state.answer matches Some(
                Err(detail),
            ) && why@ == detail@),
            ReapEnd::Failed(error) => {
                ||| state.started == Some(error.code) && error.code != 0 && error.call@
                    == "RmStartSession"@
                ||| state.registered == Some(error.code) && error.code != 0 && error.call@
                    == "RmRegisterResources"@
                ||| state.holders == Some(Err::<usize, SystemError>(error))
                ||| is_granted(state) && state.shut_down == Some(error.code) && error.code != 0
                    && error.call@ == "RmShutdown"@
            },
        },
{
    lemma_answers(state);
}

/// The session is ended exactly when it was started, was not ended yet, and no other call is due.
pub proof fn law_session_ends_when_nothing_is_due(state: ReapState, step: ReapStep)
    requires
        is_reap_step(state, step),
        state.files > 0,
        state.started == Some(0u32),
    ensures
        step is EndSession || step is Register || step is Query || step is Confirm || step
            is KillAll || step is Shutdown || (step is Finish && state.ended),
        step is EndSession ==> !state.ended,
        state.registered matches Some(code) && code != 0 ==> step is EndSession || step is Finish,
        state.holders matches Some(Err(_)) && state.registered is Some ==> step is EndSession
            || step is Finish,
        state.holders == Some(Ok::<usize, SystemError>(0)) && state.registered is Some ==> step
            is EndSession || step is Finish,
{
    assert(state.registered matches Some(code) && code != 0 ==> !is_session_step(
        state,
        ReapStep::Register,
    ));
}

/// A query asks once without room, then with the room that is needed until it is enough, and then
/// takes what was given.
pub proof fn law_query_goes_on_until_there_is_room(replies: Seq<QueryReply>, step: QueryStep)
    requires
        is_query_step(replies, step),
    ensures
        step is Probe <==> replies.len() == 0,
        replies.len() > 0 ==> {
            let reply = replies.last();
            &&& reply.code == 234 ==> step == QueryStep::Ask(reply.needed)
            &&& reply.code != 0 && reply.code != 234 <==> step is Failed
            &&& step matches QueryStep::Failed(error) ==> error.code == reply.code && error.call@
                == "RmGetList"@
            &&& reply.code == 0 && replies.len() == 1 && reply.needed == 0 <==> step is Nothing
            &&& reply.code == 0 && replies.len() == 1 && reply.needed > 0 ==> step
                == QueryStep::Ask(reply.needed)
            &&& reply.code == 0 && replies.len() > 1 ==> step == QueryStep::Take(reply.count)
        },
{
}

/// An error names the call, what was wrong with it, and its code.
pub proof fn law_errors_name_the_call(error: SystemError, detail: Seq<char>)
    ensures
        error.call@.is_prefix_of(error.text(detail)),
        holds_part(error.text(detail), detail),
        holds_part(error.text(detail), code_text(error.code as nat)),
{
    let text = error.text(detail);
    let code = code_text(error.code as nat);
    assert(error.call@ =~= text.subrange(0, error.call@.len() as int));
    let front = error.call@ + " failed: "@;
    let back = " (0x"@ + code + ")"@;
    assert(text =~= front + detail + back);
    lemma_part_is_held(front, detail, back);
    let longer = front + detail + " (0x"@;
    assert(text =~= longer + code + ")"@);
    lemma_part_is_held(longer, code, ")"@);
}

/// A process that was killed is reported to the output, with its number and its name; one that was
/// not is an error, with its number and what was wrong.
pub proof fn law_every_process_is_reported(
    holder: LockHolder,
    outcome: KillOutcome,
    line: ReportLine,
)
    requires
        is_kill_report(holder, outcome, line),
    ensures
        ({
            let text = match line {
                ReportLine::Output(text) => text@,
                ReportLine::Error(text) => text@,
            };
            &&& line is Output <==> outcome is Killed
            &&& holds_part(text, decimal(holder.process_id as nat))
            &&& match outcome {
                KillOutcome::Killed => holds_part(
                    text,
                    lossy_wide_text(before_zero(holder.name@)),
                ),
                KillOutcome::NotTerminated(detail) => holds_part(text, detail@),
                KillOutcome::NotOpened(detail) => holds_part(text, detail@) && holds_part(
                    text,
                    lossy_wide_text(before_zero(holder.name@)),
                ),
            }
        }),
{
    let text = match line {
        ReportLine::Output(text) => text@,
        ReportLine::Error(text) => text@,
    };
    let number = decimal(holder.process_id as nat);
    let name = lossy_wide_text(before_zero(holder.name@));
    match outcome {
        KillOutcome::Killed => {
            let front = "  killed PID "@;
            assert(text =~= front + number + (" ("@ + name + ")"@));
            lemma_part_is_held(front, number, " ("@ + name + ")"@);
            assert(text =~= (front + number + " ("@) + name + ")"@);
            lemma_part_is_held(front + number + " ("@, name, ")"@);
        },
        KillOutcome::NotTerminated(detail) => {
            let front = "  failed to terminate PID "@;
            assert(text =~= front + number + (": "@ + detail@));
            lemma_part_is_held(front, number, ": "@ + detail@);
            assert(text =~= (front + number + ": "@) + detail@ + Seq::<char>::empty());
            lemma_part_is_held(front + number + ": "@, detail@, Seq::empty());
        },
        KillOutcome::NotOpened(detail) => {
            let front = "  cannot open PID "@;
            assert(text =~= front + number + (" ("@ + name + "): "@ + detail@));
            lemma_part_is_held(front, number, " ("@ + name + "): "@ + detail@);
            assert(text =~= (front + number + " ("@) + name + ("): "@ + detail@));
            lemma_part_is_held(front + number + " ("@, name, "): "@ + detail@);
            let longer = front + number + " ("@ + name + "): "@;
            assert(text =~= longer + detail@ + Seq::<char>::empty());
            lemma_part_is_held(longer, detail@, Seq::empty());
        },
    }
}

/// Each way of ending processes has its own words.
pub proof fn law_every_severity_has_its_words(one: Severity, other: Severity)
    ensures
        verb_of(one) == verb_of(other) <==> one == other,
        verb_of(Severity::Kill) == "forcibly kill"@,
        verb_of(Severity::Forced) == "force shut down"@,
{
    reveal_strlit("gracefully shut down");
    reveal_strlit("force shut down");
    reveal_strlit("forcibly kill");
    assert("gracefully shut down"@.len() == 20);
    assert("force shut down"@.len() == 15);
    assert("forcibly kill"@.len() == 13);
}

} // verus!
