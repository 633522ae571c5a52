//! Versions of a tool, as the commits of its history.

use vstd::prelude::*;

use crate::lowercase::{is_ascii_char, is_ascii_text};
use crate::spaces::{is_blank, is_blank_text, lines, lines_of, trimmed};
use crate::text::{
    chars_of, concat, head_before, holds_part, law_parts_make_up_the_text, lemma_part_is_held,
    owned, split_first, tail_after, text_between, views,
};

verus! {

/// How many versions are listed if nothing else is asked for.
pub const DEFAULT_VERSION_LIMIT: usize = 10;

/// A commit of a tool.
#[derive(Debug, PartialEq, Eq)]
pub struct ToolVersion {
    pub commit: String,
    pub commit_date: String,
    pub summary: String,
}

/// What a version is.
pub struct VersionView {
    pub commit: Seq<char>,
    pub commit_date: Seq<char>,
    pub summary: Seq<char>,
}

/// Why the output of git gives no version.
#[derive(Debug, PartialEq, Eq)]
pub enum VersionError {
    MissingCommit,
    MissingDate,
    NoHistory(String),
    NoMetadata(String),
    NoVersions(String),
}

impl VersionError {
    /// What the error says.
    pub open spec fn text(self) -> Seq<char> {
        match self {
            VersionError::MissingCommit => "missing commit in git log output"@,
            VersionError::MissingDate => "missing commit date in git log output"@,
            VersionError::NoHistory(directory) => "no git history was found for "@ + directory@,
            VersionError::NoMetadata(reference) => "git returned no commit metadata for "@
                + reference@,
            VersionError::NoVersions(tool) => "no versions were found for "@ + tool@,
        }
    }

    /// Says why there is no version.
    pub fn message(&self) -> (message: String)
        ensures
            message@ == self.text(),
    {
        match self {
            VersionError::MissingCommit => owned("missing commit in git log output"),
            VersionError::MissingDate => owned("missing commit date in git log output"),
            VersionError::NoHistory(directory) => concat(
                "no git history was found for ",
                directory.as_str(),
            ),
            VersionError::NoMetadata(reference) => concat(
                "git returned no commit metadata for ",
                reference.as_str(),
            ),
            VersionError::NoVersions(tool) => concat("no versions were found for ", tool.as_str()),
        }
    }
}

impl View for ToolVersion {
    type V = VersionView;

    open spec fn view(&self) -> VersionView {
        VersionView {
            commit: self.commit@,
            commit_date: self.commit_date@,
            summary: self.summary@,
        }
    }
}

impl Clone for ToolVersion {
    fn clone(&self) -> (copy: Self)
        ensures
            copy == *self,
    {
        ToolVersion {
            commit: self.commit.clone(),
            commit_date: self.commit_date.clone(),
            summary: self.summary.clone(),
        }
    }
}

/// How many bytes a character takes up in UTF-8.
pub open spec fn width_of(character: char) -> int {
    if (character as u32) < 0x80 {
        1
    } else if (character as u32) < 0x800 {
        2
    } else if (character as u32) < 0x10000 {
        3
    } else {
        4
    }
}

/// The part of a text that takes up `room` bytes, or all of a text that takes up less; `None` where
/// a character would be cut in two.
pub open spec fn part_within(text: Seq<char>, room: int) -> Option<Seq<char>>
    decreases text.len(),
{
    if text.len() == 0 || room <= 0 {
        Some(Seq::empty())
    } else if width_of(text[0]) > room {
        None
    } else {
        match part_within(text.drop_first(), room - width_of(text[0])) {
            Some(rest) => Some(seq![text[0]] + rest),
            None => None,
        }
    }
}

/// The short form of a commit: its first eight bytes.
pub open spec fn short_of(commit: Seq<char>) -> Option<Seq<char>> {
    part_within(commit, 8)
}

/// The length of the part of a text that takes up eight bytes; `None` where a character would be
/// cut in two.
fn short_end(chars: &Vec<char>) -> (end: Option<usize>)
    ensures
        match end {
            Some(count) => count <= chars@.len() && short_of(chars@) == Some(
                chars@.take(count as int),
            ),
            None => short_of(chars@) is None,
        },
{
    let mut room: usize = 8;
    let mut at: usize = 0;
    assert(chars@.skip(0) =~= chars@);
    while at < chars.len() && room > 0
        invariant
            room <= 8,
            at <= chars@.len(),
            match part_within(chars@.skip(at as int), room as int) {
                Some(rest) => short_of(chars@) == Some(chars@.take(at as int) + rest),
                None => short_of(chars@) is None,
            },
        decreases chars@.len() - at,
    {
        let character = chars[at];
        let code: u32 = character as u32;
        let width: usize = if code < 0x80 {
            1
        } else if code < 0x800 {
            2
        } else if code < 0x10000 {
            3
        } else {
            4
        };
        let ghost rest = chars@.skip(at as int);
        assert(rest[0] == character);
        assert(rest.drop_first() =~= chars@.skip(at + 1));
        if width > room {
            return None;
        }
        proof {
            if let Some(behind) = part_within(rest.drop_first(), room - width) {
                assert(chars@.take(at as int) + (seq![character] + behind) =~= chars@.take(at + 1)
                    + behind);
            }
        }
        room -= width;
        at += 1;
    }
    assert(part_within(chars@.skip(at as int), room as int) == Some(Seq::<char>::empty()));
    assert(chars@.take(at as int) + Seq::<char>::empty() =~= chars@.take(at as int));
    Some(at)
}

/// Whether a commit has a short form: it has none where a character would be cut in two.
pub fn has_short_commit(commit: &str) -> (answer: bool)
    ensures
        answer == (short_of(commit@) is Some),
{
    short_end(&chars_of(commit)).is_some()
}

/// The short form of a commit.
pub fn short_commit(commit: &str) -> (short: String)
    requires
        short_of(commit@) is Some,
    ensures
        short_of(commit@) == Some(short@),
{
    let chars = chars_of(commit);
    match short_end(&chars) {
        Some(end) => {
            assert(chars@.subrange(0, end as int) =~= chars@.take(end as int));
            text_between(&chars, 0, end)
        },
        None => String::new(),
    }
}

/// The part of a text within a room begins as the text does.
pub proof fn lemma_part_is_prefix(text: Seq<char>, room: int)
    ensures
        part_within(text, room) matches Some(part) ==> part.len() <= text.len() && part
            == text.take(part.len() as int),
    decreases text.len(),
{
    if text.len() == 0 || room <= 0 {
        assert(text.take(0) =~= Seq::<char>::empty());
    } else {
        let rest = text.drop_first();
        let less = room - width_of(text[0]);
        lemma_part_is_prefix(rest, less);
        if let Some(part) = part_within(rest, less) {
            assert(seq![text[0]] + part =~= text.take(part.len() as int + 1));
        }
    }
}

/// The part of ASCII text within a room are its first characters.
proof fn lemma_ascii_part(text: Seq<char>, room: int)
    requires
        is_ascii_text(text),
        0 <= room,
    ensures
        part_within(text, room) == Some(
            text.take(
                if text.len() < room {
                    text.len() as int
                } else {
                    room
                },
            ),
        ),
    decreases text.len(),
{
    if text.len() == 0 || room == 0 {
        assert(text.take(0) =~= Seq::<char>::empty());
        if text.len() == 0 {
            assert(text.take(text.len() as int) =~= Seq::<char>::empty());
        }
    } else {
        let rest = text.drop_first();
        assert(is_ascii_char(text[0]));
        assert forall|at: int| 0 <= at < rest.len() implies is_ascii_char(#[trigger] rest[at]) by {
            assert(rest[at] == text[at + 1]);
        }
        lemma_ascii_part(rest, room - 1);
        let count = if text.len() < room {
            text.len() as int
        } else {
            room
        };
        assert(seq![text[0]] + rest.take(count - 1) =~= text.take(count));
    }
}

/// The short form of a commit in ASCII, as git writes it, are its first eight characters.
pub proof fn law_short_commit_is_eight_characters(commit: Seq<char>)
    requires
        is_ascii_text(commit),
    ensures
        short_of(commit) == Some(
            commit.take(
                if commit.len() < 8 {
                    commit.len() as int
                } else {
                    8
                },
            ),
        ),
{
    lemma_ascii_part(commit, 8);
}

/// The commit in a line of the log.
pub open spec fn commit_in(line: Seq<char>) -> Seq<char> {
    head_before(line, '\t')
}

/// The date in a line of the log.
pub open spec fn date_in(line: Seq<char>) -> Seq<char> {
    head_before(tail_after(line, '\t'), '\t')
}

/// The summary in a line of the log: all the rest, tabs too.
pub open spec fn summary_in(line: Seq<char>) -> Seq<char> {
    tail_after(tail_after(line, '\t'), '\t')
}

/// Whether a line of the log gives this version, or this error.
pub open spec fn is_line_result(
    line: Seq<char>,
    result: Result<ToolVersion, VersionError>,
) -> bool {
    if commit_in(line).len() == 0 {
        result == Err::<ToolVersion, VersionError>(VersionError::MissingCommit)
    } else if date_in(line).len() == 0 {
        result == Err::<ToolVersion, VersionError>(VersionError::MissingDate)
    } else {
        result matches Ok(version) && version@ == (VersionView {
            commit: commit_in(line),
            commit_date: date_in(line),
            summary: summary_in(line),
        })
    }
}

/// Reads a line of the log: commit, date and summary, with tabs between them.
pub fn parse_version_line(line: &str) -> (result: Result<ToolVersion, VersionError>)
    ensures
        is_line_result(line@, result),
{
    let (commit, rest) = split_first(&chars_of(line), '\t');
    let (commit_date, summary) = split_first(&chars_of(rest.as_str()), '\t');
    if chars_of(commit.as_str()).len() == 0 {
        return Err(VersionError::MissingCommit);
    }
    if chars_of(commit_date.as_str()).len() == 0 {
        return Err(VersionError::MissingDate);
    }
    Ok(ToolVersion { commit, commit_date, summary })
}

/// The lines of the log that are not blank.
pub open spec fn version_lines(output: Seq<char>) -> Seq<Seq<char>> {
    lines_of(output).filter(|line: Seq<char>| !is_blank(line))
}

/// Whether the line at `at` is the first that gives no version, and `error` says why.
pub open spec fn is_first_line_fault(
    found: Seq<Seq<char>>,
    at: int,
    error: VersionError,
) -> bool {
    &&& 0 <= at < found.len()
    &&& is_line_result(found[at], Err::<ToolVersion, VersionError>(error))
    &&& forall|before: int| 0 <= before < at ==> is_version_line(#[trigger] found[before])
}

/// Whether a line gives a version.
pub open spec fn is_version_line(line: Seq<char>) -> bool {
    commit_in(line).len() > 0 && date_in(line).len() > 0
}

/// Whether reading these lines has this result: a version of each, or what is wrong with the first
/// that gives none.
pub open spec fn is_lines_result(
    found: Seq<Seq<char>>,
    result: Result<Vec<ToolVersion>, VersionError>,
) -> bool {
    match result {
        Ok(versions) => {
            &&& versions@.len() == found.len()
            &&& forall|at: int|
                0 <= at < found.len() ==> is_line_result(
                    #[trigger] found[at],
                    Ok::<ToolVersion, VersionError>(versions@[at]),
                )
        },
        Err(error) => exists|at: int| is_first_line_fault(found, at, error),
    }
}

/// The lines of the log that are not blank.
fn find_version_lines(output: &str) -> (found: Vec<String>)
    ensures
        views(found@) == version_lines(output@),
{
    let all = lines(output);
    let ghost keep = |line: Seq<char>| !is_blank(line);
    let mut found: Vec<String> = Vec::new();
    let mut at: usize = 0;
    proof {
        reveal(Seq::filter);
        assert(views(found@) =~= views(all@).take(0).filter(keep));
    }
    while at < all.len()
        invariant
            at <= all@.len(),
            keep == |line: Seq<char>| !is_blank(line),
            views(found@) == views(all@).take(at as int).filter(keep),
        decreases all@.len() - at,
    {
        let ghost longer = views(all@).take(at + 1);
        proof {
            reveal(Seq::filter);
            assert(longer.drop_last() =~= views(all@).take(at as int));
            assert(longer.last() == all@[at as int]@);
        }
        if !is_blank_text(all[at].as_str()) {
            let ghost before = found@;
            found.push(all[at].clone());
            assert(views(found@) =~= views(before).push(all@[at as int]@));
        }
        at += 1;
    }
    assert(views(all@).take(at as int) =~= views(all@));
    found
}

/// Reads lines of the log.
fn parse_lines(found: &Vec<String>) -> (result: Result<Vec<ToolVersion>, VersionError>)
    ensures
        is_lines_result(views(found@), result),
{
    let mut versions: Vec<ToolVersion> = Vec::new();
    let mut at: usize = 0;
    let ghost all = views(found@);
    while at < found.len()
        invariant
            at <= found@.len(),
            all == views(found@),
            versions@.len() == at,
            forall|before: int| 0 <= before < at ==> is_version_line(#[trigger] all[before]),
            forall|before: int|
                0 <= before < at ==> is_line_result(
                    #[trigger] all[before],
                    Ok::<ToolVersion, VersionError>(versions@[before]),
                ),
        decreases found@.len() - at,
    {
        assert(all[at as int] == found@[at as int]@);
        match parse_version_line(found[at].as_str()) {
            Ok(version) => {
                versions.push(version);
            },
            Err(error) => {
                assert(is_first_line_fault(all, at as int, error));
                return Err(error);
            },
        }
        at += 1;
    }
    Ok(versions)
}

/// The versions in the output of git's log; blank lines do not count.
pub fn tool_versions(output: &str) -> (result: Result<Vec<ToolVersion>, VersionError>)
    ensures
        is_lines_result(version_lines(output@), result),
{
    parse_lines(&find_version_lines(output))
}

/// Whether this is the latest version in the log of a directory: the first one, where all lines can
/// be read and there is one.
pub open spec fn is_latest_result(
    output: Seq<char>,
    directory: Seq<char>,
    result: Result<ToolVersion, VersionError>,
) -> bool {
    let found = version_lines(output);
    match result {
        Ok(version) => {
            &&& found.len() > 0
            &&& forall|at: int| 0 <= at < found.len() ==> is_version_line(#[trigger] found[at])
            &&& is_line_result(found[0], Ok::<ToolVersion, VersionError>(version))
        },
        Err(error) => if found.len() == 0 {
            error matches VersionError::NoHistory(path) && path@ == directory
        } else {
            exists|at: int| is_first_line_fault(found, at, error)
        },
    }
}

/// The latest version in the log of a directory.
pub fn latest_version_for_path(output: &str, package_dir: &str) -> (result: Result<
    ToolVersion,
    VersionError,
>)
    ensures
        is_latest_result(output@, package_dir@, result),
{
    let ghost found = version_lines(output@);
    let mut versions = match tool_versions(output) {
        Ok(versions) => versions,
        Err(error) => return Err(error),
    };
    if versions.len() == 0 {
        return Err(VersionError::NoHistory(owned(package_dir)));
    }
    assert forall|at: int| 0 <= at < found.len() implies is_version_line(#[trigger] found[at]) by {
        assert(is_line_result(found[at], Ok::<ToolVersion, VersionError>(versions@[at])));
    }
    assert(is_line_result(found[0], Ok::<ToolVersion, VersionError>(versions@[0])));
    Ok(versions.remove(0))
}

/// Whether this is the version that a reference was resolved to: that of the first line that is not
/// blank.
pub open spec fn is_reference_result(
    output: Seq<char>,
    reference: Seq<char>,
    result: Result<ToolVersion, VersionError>,
) -> bool {
    let found = version_lines(output);
    if found.len() == 0 {
        &&& result matches Err(VersionError::NoMetadata(text))
        &&& text@ == reference
    } else {
        is_line_result(found[0], result)
    }
}

/// The version that a reference was resolved to.
pub fn resolve_version_reference(output: &str, reference: &str) -> (result: Result<
    ToolVersion,
    VersionError,
>)
    ensures
        is_reference_result(output@, reference@, result),
{
    let found = find_version_lines(output);
    if found.len() == 0 {
        assert(views(found@).len() == 0);
        return Err(VersionError::NoMetadata(owned(reference)));
    }
    assert(views(found@)[0] == found@[0]@);
    parse_version_line(found[0].as_str())
}

/// The line under which a version is offered.
pub open spec fn version_label(version: VersionView) -> Seq<char> {
    short_of(version.commit)->Some_0 + "  "@ + version.commit_date + "  "@ + version.summary
}

/// The line under which a version is offered.
pub fn format_version_option(version: &ToolVersion) -> (label: String)
    requires
        short_of(version.commit@) is Some,
    ensures
        label@ == version_label(version@),
{
    let mut label = short_commit(version.commit.as_str());
    label.append("  ");
    label.append(version.commit_date.as_str());
    label.append("  ");
    label.append(version.summary.as_str());
    label
}

/// The lines under which versions are offered; having none is an error.
pub fn version_options(versions: &Vec<ToolVersion>, tool_name: &str) -> (result: Result<
    Vec<String>,
    VersionError,
>)
    requires
        forall|at: int|
            0 <= at < versions@.len() ==> short_of((#[trigger] versions@[at]).commit@) is Some,
    ensures
        match result {
            Ok(labels) => {
                &&& versions@.len() > 0
                &&& labels@.len() == versions@.len()
                &&& forall|at: int|
                    0 <= at < labels@.len() ==> (#[trigger] labels@[at])@ == version_label(
                        versions@[at]@,
                    )
            },
            Err(error) => {
                &&& versions@.len() == 0
                &&& error matches VersionError::NoVersions(tool)
                &&& tool@ == tool_name@
            },
        },
{
    if versions.len() == 0 {
        return Err(VersionError::NoVersions(owned(tool_name)));
    }
    let mut labels: Vec<String> = Vec::new();
    let mut at: usize = 0;
    while at < versions.len()
        invariant
            at <= versions@.len(),
            labels@.len() == at,
            forall|at: int|
                0 <= at < versions@.len() ==> short_of((#[trigger] versions@[at]).commit@) is Some,
            forall|done: int|
                0 <= done < at ==> (#[trigger] labels@[done])@ == version_label(versions@[done]@),
        decreases versions@.len() - at,
    {
        labels.push(format_version_option(&versions[at]));
        at += 1;
    }
    Ok(labels)
}

/// A line made of a commit, a date and a summary, as the log writes it, gives them back.
pub proof fn law_written_line_is_read_back(
    commit: Seq<char>,
    commit_date: Seq<char>,
    summary: Seq<char>,
)
    requires
        !commit.contains('\t'),
        !commit_date.contains('\t'),
    ensures
        ({
            let line = commit + seq!['\t'] + commit_date + seq!['\t'] + summary;
            &&& commit_in(line) == commit
            &&& date_in(line) == commit_date
            &&& summary_in(line) == summary
        }),
{
    let rest = commit_date + seq!['\t'] + summary;
    let line = commit + seq!['\t'] + commit_date + seq!['\t'] + summary;
    assert(line =~= commit + seq!['\t'] + rest);
    lemma_split_at_tab(commit, rest);
    lemma_split_at_tab(commit_date, summary);
}

/// The first tab splits a text into what stands before and behind it.
proof fn lemma_split_at_tab(front: Seq<char>, rest: Seq<char>)
    requires
        !front.contains('\t'),
    ensures
        head_before(front + seq!['\t'] + rest, '\t') == front,
        tail_after(front + seq!['\t'] + rest, '\t') == rest,
{
    let whole = front + seq!['\t'] + rest;
    let place = front.len() as int;
    assert(whole[place] == '\t');
    assert forall|before: int| 0 <= before < place implies whole[before] != '\t' by {
        assert(whole[before] == front[before]);
        assert(front.contains(front[before]));
    }
    crate::text::lemma_first_place(whole, '\t', place);
    assert(whole.take(place) =~= front);
    assert(whole.skip(place + 1) =~= rest);
}

/// How many bytes a text takes in UTF-8.
pub open spec fn width_of_text(text: Seq<char>) -> int
    decreases text.len(),
{
    if text.len() == 0 {
        0
    } else {
        width_of_text(text.drop_last()) + if (text.last() as u32) < 0x80 {
            1int
        } else if (text.last() as u32) < 0x800 {
            2
        } else if (text.last() as u32) < 0x10000 {
            3
        } else {
            4
        }
    }
}

proof fn lemma_width_from_the_front(text: Seq<char>)
    requires
        text.len() > 0,
    ensures
        width_of_text(text) == width_of(text[0]) + width_of_text(text.drop_first()),
        width_of_text(text.drop_first()) >= 0,
    decreases text.len(),
{
    let front = text.drop_last();
    let last = text.last();
    assert(width_of_text(text) == width_of_text(front) + width_of(last));
    if text.len() > 1 {
        lemma_width_from_the_front(front);
        assert(front.drop_first() =~= text.drop_first().drop_last());
        assert(text.drop_first().last() == text.last());
    } else {
        assert(width_of_text(front) == 0);
        assert(text.drop_first() =~= Seq::empty());
    }
}

proof fn lemma_part_within(text: Seq<char>, room: int)
    requires
        room >= 0,
    ensures
        match part_within(text, room) {
            Some(part) => part.is_prefix_of(text) && (width_of_text(part) == room || (part == text
                && width_of_text(text) < room)),
            None => width_of_text(text) > room && forall|count: int|
                0 <= count <= text.len() ==> width_of_text(#[trigger] text.take(count)) != room,
        },
    decreases text.len(),
{
    if text.len() == 0 || room == 0 {
        assert(Seq::<char>::empty() =~= text.subrange(0, 0));
        if text.len() == 0 {
            assert(text =~= Seq::empty());
        }
    } else {
        let rest = text.drop_first();
        let first = width_of(text[0]);
        lemma_width_from_the_front(text);
        if first <= room {
            lemma_part_within(rest, room - first);
        }
        match part_within(text, room) {
            Some(part) => {
                let tail = part_within(rest, room - first)->Some_0;
                assert(part == seq![text[0]] + tail);
                lemma_width_from_the_front(part);
                assert(part.drop_first() =~= tail);
                assert(part =~= text.subrange(0, part.len() as int)) by {
                    assert forall|at: int| 0 <= at < part.len() implies part[at] == text[at] by {
                        if at > 0 {
                            assert(tail == rest.subrange(0, tail.len() as int));
                            assert(tail[at - 1] == rest[at - 1]);
                        }
                    }
                }
                if tail == rest {
                    assert(part =~= text);
                }
            },
            None => {
                assert forall|count: int| 0 <= count <= text.len() implies width_of_text(
                    #[trigger] text.take(count),
                ) != room by {
                    let part = text.take(count);
                    if count == 0 {
                        assert(part =~= Seq::empty());
                    } else {
                        lemma_width_from_the_front(part);
                        assert(part.drop_first() =~= rest.take(count - 1));
                        if first <= room {
                            assert(width_of_text(rest.take(count - 1)) != room - first);
                        }
                    }
                }
            },
        }
    }
}

/// The short form of a commit is its first eight bytes, or all of it where it has no more; there is
/// none exactly where no character ends at the eighth byte of a longer one.
pub proof fn law_short_commit_is_eight_bytes(commit: Seq<char>)
    ensures
        match short_of(commit) {
            Some(short) => short.is_prefix_of(commit) && (width_of_text(short) == 8 || (short
                == commit && width_of_text(commit) < 8)),
            None => width_of_text(commit) > 8 && forall|count: int|
                0 <= count <= commit.len() ==> width_of_text(#[trigger] commit.take(count)) != 8,
        },
{
    lemma_part_within(commit, 8);
}

/// A line is read as a version exactly where it has a commit and a date: what stands before its
/// first tab, and between that and the second or the end. The rest is the summary.
pub proof fn law_line_is_made_up_of_its_version(
    line: Seq<char>,
    result: Result<ToolVersion, VersionError>,
)
    requires
        is_line_result(line, result),
    ensures
        match result {
            Ok(version) => {
                &&& version.commit@.len() > 0
                &&& version.commit_date@.len() > 0
                &&& !version.commit@.contains('\t')
                &&& !version.commit_date@.contains('\t')
                &&& line == version.commit@ + seq!['\t'] + version.commit_date@ + seq!['\t']
                    + version.summary@ || (line == version.commit@ + seq!['\t']
                    + version.commit_date@ && version.summary@.len() == 0)
            },
            Err(VersionError::MissingCommit) => line.len() == 0 || line[0] == '\t',
            Err(VersionError::MissingDate) => {
                ||| !line.contains('\t')
                ||| exists|at: int|
                    0 < at < line.len() && #[trigger] line[at] == '\t' && (at + 1 == line.len()
                        || line[at + 1] == '\t')
            },
            Err(_) => false,
        },
{
    let rest = tail_after(line, '\t');
    law_parts_make_up_the_text(line, '\t');
    law_parts_make_up_the_text(rest, '\t');
    match result {
        Ok(version) => {
            assert(line.contains('\t'));
            if rest.contains('\t') {
                assert(line =~= version.commit@ + seq!['\t'] + version.commit_date@ + seq!['\t']
                    + version.summary@);
            } else {
                assert(line =~= version.commit@ + seq!['\t'] + version.commit_date@);
            }
        },
        Err(VersionError::MissingCommit) => {
            if line.len() > 0 {
                if line.contains('\t') {
                    assert(line[0] == '\t');
                }
            }
        },
        Err(_) => {
            if line.contains('\t') {
                let at = commit_in(line).len() as int;
                assert(line[at] == '\t');
                if rest.len() > 0 {
                    assert(rest.contains('\t'));
                    assert(rest[0] == '\t');
                    assert(line[at + 1] == rest[0]);
                }
            }
        },
    }
}

/// The lines of versions are all lines with more than space, in their order.
pub proof fn law_every_filled_line_counts(output: Seq<char>) -> (places: Seq<int>)
    ensures
        places.len() == version_lines(output).len(),
        forall|left: int, right: int|
            0 <= left < right < places.len() ==> #[trigger] places[left] < #[trigger] places[right],
        forall|at: int|
            0 <= at < places.len() ==> 0 <= #[trigger] places[at] < lines_of(output).len()
                && lines_of(output)[places[at]] == version_lines(output)[at],
        forall|place: int|
            0 <= place < lines_of(output).len() ==> (#[trigger] places.contains(place)
                <==> trimmed(lines_of(output)[place]).len() > 0),
{
    lemma_filled_places(lines_of(output))
}

proof fn lemma_filled_places(lines: Seq<Seq<char>>) -> (places: Seq<int>)
    ensures
        places.len() == lines.filter(|line: Seq<char>| !is_blank(line)).len(),
        forall|left: int, right: int|
            0 <= left < right < places.len() ==> #[trigger] places[left] < #[trigger] places[right],
        forall|at: int|
            0 <= at < places.len() ==> 0 <= #[trigger] places[at] < lines.len()
                && lines[places[at]] == lines.filter(|line: Seq<char>| !is_blank(line))[at],
        forall|place: int|
            0 <= place < lines.len() ==> (#[trigger] places.contains(place) <==> trimmed(
                lines[place],
            ).len() > 0),
    decreases lines.len(),
{
    let is_filled = |line: Seq<char>| !is_blank(line);
    reveal(Seq::filter);
    if lines.len() == 0 {
        Seq::empty()
    } else {
        let rest = lines.drop_last();
        let before = lemma_filled_places(rest);
        let last = lines.len() - 1;
        let earlier = rest.filter(is_filled);
        let all = lines.filter(is_filled);
        assert(is_filled(lines.last()) <==> trimmed(lines.last()).len() > 0);
        let places = if is_filled(lines.last()) {
            before.push(last)
        } else {
            before
        };
        assert forall|at: int| 0 <= at < places.len() implies 0 <= #[trigger] places[at]
            < lines.len() && lines[places[at]] == all[at] by {
            if at < before.len() {
                assert(places[at] == before[at]);
                assert(all[at] == earlier[at]);
                assert(lines[before[at]] == rest[before[at]]);
            }
        }
        assert forall|left: int, right: int| 0 <= left < right < places.len() implies
            #[trigger] places[left] < #[trigger] places[right] by {
            assert(places[left] == before[left]);
            if right < before.len() {
                assert(places[right] == before[right]);
            }
        }
        assert forall|place: int| 0 <= place < lines.len() implies (#[trigger] places.contains(place)
            <==> trimmed(lines[place]).len() > 0) by {
            if place < last {
                assert(lines[place] == rest[place]);
                assert(before.contains(place) <==> places.contains(place)) by {
                    if before.contains(place) {
                        let at = choose|at: int| 0 <= at < before.len() && before[at] == place;
                        assert(places[at] == place);
                    }
                    if places.contains(place) {
                        let at = choose|at: int| 0 <= at < places.len() && places[at] == place;
                        assert(before[at] == place);
                    }
                }
            } else if is_filled(lines.last()) {
                assert(places[places.len() - 1] == last);
            } else if places.contains(place) {
                let at = choose|at: int| 0 <= at < places.len() && places[at] == place;
                assert(before[at] < rest.len());
            }
        }
        places
    }
}

/// Every line of versions gives its version, in their order; the first that cannot be read is an
/// error.
pub proof fn law_every_line_gives_its_version(
    found: Seq<Seq<char>>,
    result: Result<Vec<ToolVersion>, VersionError>,
)
    requires
        is_lines_result(found, result),
    ensures
        result is Ok <==> forall|at: int|
            0 <= at < found.len() ==> commit_in(#[trigger] found[at]).len() > 0 && date_in(
                found[at],
            ).len() > 0,
        result matches Ok(versions) ==> versions@.len() == found.len() && forall|at: int|
            0 <= at < found.len() ==> commit_in(#[trigger] found[at]) == versions@[at].commit@
                && date_in(found[at]) == versions@[at].commit_date@ && summary_in(found[at])
                == versions@[at].summary@,
        result matches Err(error) ==> error is MissingCommit || error is MissingDate,
{
    match result {
        Ok(versions) => {
            assert forall|at: int| 0 <= at < found.len() implies commit_in(#[trigger] found[at])
                == versions@[at].commit@ && date_in(found[at]) == versions@[at].commit_date@
                && summary_in(found[at]) == versions@[at].summary@ && commit_in(found[at]).len() > 0
                && date_in(found[at]).len() > 0 by {
                assert(is_line_result(
                    found[at],
                    Ok::<ToolVersion, VersionError>(versions@[at]),
                ));
            }
        },
        Err(error) => {
            let at = choose|at: int| is_first_line_fault(found, at, error);
            assert(!is_version_line(found[at]));
        },
    }
}

/// The latest version is that of the first filled line, where all can be read; without such a line
/// there is no history.
pub proof fn law_latest_version_is_the_first(
    output: Seq<char>,
    directory: Seq<char>,
    result: Result<ToolVersion, VersionError>,
)
    requires
        is_latest_result(output, directory, result),
    ensures
        result is Ok <==> version_lines(output).len() > 0 && forall|at: int|
            0 <= at < version_lines(output).len() ==> commit_in(
                #[trigger] version_lines(output)[at],
            ).len() > 0 && date_in(version_lines(output)[at]).len() > 0,
        result matches Ok(version) ==> version.commit@ == commit_in(version_lines(output)[0])
            && version.commit_date@ == date_in(version_lines(output)[0]) && version.summary@
            == summary_in(version_lines(output)[0]),
        result matches Err(VersionError::NoHistory(path)) ==> path@ == directory && version_lines(
            output,
        ).len() == 0,
        version_lines(output).len() == 0 ==> result matches Err(VersionError::NoHistory(_)),
{
    let found = version_lines(output);
    match result {
        Ok(version) => {
            assert forall|at: int| 0 <= at < found.len() implies commit_in(#[trigger] found[at]).len()
                > 0 && date_in(found[at]).len() > 0 by {
                assert(is_version_line(found[at]));
            }
        },
        Err(error) => {
            if found.len() > 0 {
                let at = choose|at: int| is_first_line_fault(found, at, error);
                assert(!is_version_line(found[at]));
            }
        },
    }
}

/// A reference stands for the version of the first filled line, whatever follows it.
pub proof fn law_reference_is_the_first_line(
    output: Seq<char>,
    reference: Seq<char>,
    result: Result<ToolVersion, VersionError>,
)
    requires
        is_reference_result(output, reference, result),
    ensures
        match result {
            Ok(version) => {
                &&& version_lines(output).len() > 0
                &&& version.commit@ == commit_in(version_lines(output)[0])
                &&& version.commit_date@ == date_in(version_lines(output)[0])
                &&& version.summary@ == summary_in(version_lines(output)[0])
                &&& version.commit@.len() > 0
                &&& version.commit_date@.len() > 0
            },
            Err(VersionError::NoMetadata(text)) => version_lines(output).len() == 0 && text@
                == reference,
            Err(VersionError::MissingCommit) => version_lines(output).len() > 0 && commit_in(
                version_lines(output)[0],
            ).len() == 0,
            Err(VersionError::MissingDate) => version_lines(output).len() > 0 && date_in(
                version_lines(output)[0],
            ).len() == 0,
            Err(_) => false,
        },
{
}

/// An error names the directory, the reference or the tool that it is about.
pub proof fn law_errors_name_their_subject(error: VersionError)
    ensures
        ({
            let text = error.text();
            match error {
                VersionError::NoHistory(directory) => holds_part(text, directory@),
                VersionError::NoMetadata(reference) => holds_part(text, reference@),
                VersionError::NoVersions(tool) => holds_part(text, tool@),
                _ => true,
            }
        }),
{
    let text = error.text();
    match error {
        VersionError::NoHistory(directory) => {
            let front = "no git history was found for "@;
            let back = Seq::<char>::empty();
            assert(text =~= front + directory@ + back);
            lemma_part_is_held(front, directory@, back);
        },
        VersionError::NoMetadata(reference) => {
            let front = "git returned no commit metadata for "@;
            let back = Seq::<char>::empty();
            assert(text =~= front + reference@ + back);
            lemma_part_is_held(front, reference@, back);
        },
        VersionError::NoVersions(tool) => {
            let front = "no versions were found for "@;
            let back = Seq::<char>::empty();
            assert(text =~= front + tool@ + back);
            lemma_part_is_held(front, tool@, back);
        },
        _ => {},
    }
}

/// A version is offered by its short commit, and with its date and its summary.
pub proof fn law_offer_names_the_version(version: VersionView)
    ensures
        short_of(version.commit)->Some_0.is_prefix_of(version_label(version)),
        version.summary.is_suffix_of(version_label(version)),
        holds_part(version_label(version), version.commit_date),
{
    let text = version_label(version);
    let short = short_of(version.commit)->Some_0;
    let summary = version.summary;
    assert(short =~= text.subrange(0, short.len() as int));
    assert(summary =~= text.subrange(text.len() - summary.len(), text.len() as int));
    assert(text =~= (short + "  "@) + version.commit_date + ("  "@ + summary));
    lemma_part_is_held(short + "  "@, version.commit_date, "  "@ + summary);
}

/// Where the lines cannot all be read, the error is that of the first that cannot: without a commit,
/// or with a commit but without a date.
pub proof fn law_first_faulty_line_counts(
    found: Seq<Seq<char>>,
    error: VersionError,
) -> (at: int)
    requires
        is_lines_result(found, Err::<Vec<ToolVersion>, VersionError>(error)),
    ensures
        0 <= at < found.len(),
        forall|before: int|
            0 <= before < at ==> commit_in(#[trigger] found[before]).len() > 0 && date_in(
                found[before],
            ).len() > 0,
        match error {
            VersionError::MissingCommit => commit_in(found[at]).len() == 0,
            VersionError::MissingDate => commit_in(found[at]).len() > 0 && date_in(found[at]).len()
                == 0,
            _ => false,
        },
{
    let at = choose|at: int| is_first_line_fault(found, at, error);
    assert forall|before: int| 0 <= before < at implies commit_in(#[trigger] found[before]).len()
        > 0 && date_in(found[before]).len() > 0 by {
        assert(is_version_line(found[before]));
    }
    at
}

} // verus!
