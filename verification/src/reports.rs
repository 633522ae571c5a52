//! What the control program shows: titles, and the rows of its tables.

use vstd::prelude::*;

use crate::catalog::RepoTool;
use crate::digits::{decimal, decimal_of, law_numeral_is_read_back, number_in};
use crate::layout::{
    metadata_in, repo_in, worktrees_in, InstallLayout, InstalledToolRecord, LayoutView,
};
use crate::paths::joined_path;
use crate::tables::row_views;
use crate::text::{concat, owned, views};
use crate::tool_versions::{short_commit, short_of, ToolVersion, VersionView};

verus! {

/// The title of a section.
pub fn section_title(title: &str) -> (line: String)
    ensures
        line@ == "\n== "@ + title@ + " =="@,
{
    let mut line = concat("\n== ", title);
    line.append(" ==");
    line
}

/// A row of four cells.
fn row_of_four(first: &str, second: &str, third: &str, fourth: &str) -> (row: Vec<String>)
    ensures
        views(row@) == seq![first@, second@, third@, fourth@],
{
    let mut row: Vec<String> = Vec::new();
    row.push(owned(first));
    row.push(owned(second));
    row.push(owned(third));
    row.push(owned(fourth));
    assert(views(row@) =~= seq![first@, second@, third@, fourth@]);
    row
}

/// A row of two cells.
fn row_of_two(first: &str, second: &str) -> (row: Vec<String>)
    ensures
        views(row@) == seq![first@, second@],
{
    let mut row: Vec<String> = Vec::new();
    row.push(owned(first));
    row.push(owned(second));
    assert(views(row@) =~= seq![first@, second@]);
    row
}

/// The cells of an installed tool: tool, commit, date and package.
pub open spec fn record_cells(record: InstalledToolRecord) -> Seq<Seq<char>> {
    seq![
        record.tool_name@,
        short_of(record.commit@)->Some_0,
        record.commit_date@,
        record.package_name@,
    ]
}

/// The rows of the installed tools.
pub fn installed_rows(records: &Vec<InstalledToolRecord>) -> (rows: Vec<Vec<String>>)
    requires
        forall|at: int|
            0 <= at < records@.len() ==> short_of((#[trigger] records@[at]).commit@) is Some,
    ensures
        row_views(rows@) == records@.map_values(
            |record: InstalledToolRecord| record_cells(record),
        ),
{
    let mut rows: Vec<Vec<String>> = Vec::new();
    let mut at: usize = 0;
    while at < records.len()
        invariant
            at <= records@.len(),
            rows@.len() == at,
            forall|at: int|
                0 <= at < records@.len() ==> short_of((#[trigger] records@[at]).commit@) is Some,
            forall|done: int|
                0 <= done < at ==> views((#[trigger] rows@[done])@) == record_cells(
                    records@[done],
                ),
        decreases records@.len() - at,
    {
        let record = &records[at];
        rows.push(
            row_of_four(
                record.tool_name.as_str(),
                short_commit(record.commit.as_str()).as_str(),
                record.commit_date.as_str(),
                record.package_name.as_str(),
            ),
        );
        at += 1;
    }
    assert(row_views(rows@) =~= records@.map_values(
        |record: InstalledToolRecord| record_cells(record),
    ));
    rows
}

/// The cells of a tool of the catalog: tool, latest commit, its date and package.
pub open spec fn tool_cells(tool: RepoTool) -> Seq<Seq<char>> {
    seq![
        tool.binary_name@,
        short_of(tool.latest_version.commit@)->Some_0,
        tool.latest_version.commit_date@,
        tool.package_name@,
    ]
}

/// The rows of the catalog.
pub fn available_rows(catalog: &Vec<RepoTool>) -> (rows: Vec<Vec<String>>)
    requires
        forall|at: int|
            0 <= at < catalog@.len() ==> short_of(
                (#[trigger] catalog@[at]).latest_version.commit@,
            ) is Some,
    ensures
        row_views(rows@) == catalog@.map_values(|tool: RepoTool| tool_cells(tool)),
{
    let mut rows: Vec<Vec<String>> = Vec::new();
    let mut at: usize = 0;
    while at < catalog.len()
        invariant
            at <= catalog@.len(),
            rows@.len() == at,
            forall|at: int|
                0 <= at < catalog@.len() ==> short_of(
                    (#[trigger] catalog@[at]).latest_version.commit@,
                ) is Some,
            forall|done: int|
                0 <= done < at ==> views((#[trigger] rows@[done])@) == tool_cells(catalog@[done]),
        decreases catalog@.len() - at,
    {
        let tool = &catalog[at];
        rows.push(
            row_of_four(
                tool.binary_name.as_str(),
                short_commit(tool.latest_version.commit.as_str()).as_str(),
                tool.latest_version.commit_date.as_str(),
                tool.package_name.as_str(),
            ),
        );
        at += 1;
    }
    assert(row_views(rows@) =~= catalog@.map_values(|tool: RepoTool| tool_cells(tool)));
    rows
}

/// The cells of a version: commit, date and summary.
pub open spec fn version_cells(version: VersionView) -> Seq<Seq<char>> {
    seq![version.commit, version.commit_date, version.summary]
}

/// The rows of the versions of a tool.
pub fn version_rows(versions: &Vec<ToolVersion>) -> (rows: Vec<Vec<String>>)
    ensures
        row_views(rows@) == versions@.map_values(|version: ToolVersion| version_cells(version@)),
{
    let mut rows: Vec<Vec<String>> = Vec::new();
    let mut at: usize = 0;
    while at < versions.len()
        invariant
            at <= versions@.len(),
            rows@.len() == at,
            forall|done: int|
                0 <= done < at ==> views((#[trigger] rows@[done])@) == version_cells(
                    versions@[done]@,
                ),
        decreases versions@.len() - at,
    {
        let version = &versions[at];
        let mut row: Vec<String> = Vec::new();
        row.push(version.commit.clone());
        row.push(version.commit_date.clone());
        row.push(version.summary.clone());
        assert(views(row@) =~= version_cells(version@));
        rows.push(row);
        at += 1;
    }
    assert(row_views(rows@) =~= versions@.map_values(
        |version: ToolVersion| version_cells(version@),
    ));
    rows
}

/// The cells of a tool that is going to be installed: tool, version and package.
pub open spec fn plan_cells(tool: RepoTool, version: ToolVersion) -> Seq<Seq<char>> {
    seq![
        tool.binary_name@,
        short_of(version.commit@)->Some_0 + " "@ + version.commit_date@,
        tool.package_name@,
    ]
}

/// The row of a tool that is going to be installed.
pub fn plan_row(tool: &RepoTool, version: &ToolVersion) -> (row: Vec<String>)
    requires
        short_of(version.commit@) is Some,
    ensures
        views(row@) == plan_cells(*tool, *version),
{
    let mut target = short_commit(version.commit.as_str());
    target.append(" ");
    target.append(version.commit_date.as_str());
    let ghost text = target@;
    let mut row: Vec<String> = Vec::new();
    row.push(tool.binary_name.clone());
    row.push(target);
    row.push(tool.package_name.clone());
    assert(views(row@) =~= seq![tool.binary_name@, text, tool.package_name@]);
    assert(views(row@) =~= plan_cells(*tool, *version));
    row
}

/// The cells of a tool that was installed: tool, commit, package and path.
pub open spec fn summary_cells(
    tool: RepoTool,
    version: ToolVersion,
    destination: Seq<char>,
) -> Seq<Seq<char>> {
    seq![tool.binary_name@, short_of(version.commit@)->Some_0, tool.package_name@, destination]
}

/// The row of a tool that was installed.
pub fn summary_row(tool: &RepoTool, version: &ToolVersion, destination: &str) -> (row: Vec<String>)
    requires
        short_of(version.commit@) is Some,
    ensures
        views(row@) == summary_cells(*tool, *version, destination@),
{
    row_of_four(
        tool.binary_name.as_str(),
        short_commit(version.commit.as_str()).as_str(),
        tool.package_name.as_str(),
        destination,
    )
}

/// A truth value as text.
pub open spec fn truth(value: bool) -> Seq<char> {
    if value {
        "true"@
    } else {
        "false"@
    }
}

/// A truth value as text.
fn truth_text(value: bool) -> (text: &'static str)
    ensures
        text@ == truth(value),
{
    if value {
        "true"
    } else {
        "false"
    }
}

/// The cells of the health report: where things are, how many there are and whether they are there.
pub open spec fn doctor_cells(
    layout: LayoutView,
    binaries: nat,
    records: nat,
    bin_exists: bool,
    repo_exists: bool,
) -> Seq<Seq<Seq<char>>> {
    seq![
        seq!["home"@, layout.home],
        seq!["bin"@, layout.bin],
        seq!["metadata"@, metadata_in(layout)],
        seq!["repo cache"@, repo_in(layout)],
        seq!["worktrees"@, worktrees_in(layout)],
        seq!["managed binaries"@, decimal(binaries)],
        seq!["installed metadata records"@, decimal(records)],
        seq!["bin directory exists"@, truth(bin_exists)],
        seq!["repo cache exists"@, truth(repo_exists)],
    ]
}

/// The rows of the health report.
pub fn doctor_rows(
    layout: &InstallLayout,
    binaries: usize,
    records: usize,
    bin_exists: bool,
    repo_exists: bool,
) -> (rows: Vec<Vec<String>>)
    ensures
        row_views(rows@) == doctor_cells(
            layout@,
            binaries as nat,
            records as nat,
            bin_exists,
            repo_exists,
        ),
{
    let mut rows: Vec<Vec<String>> = Vec::new();
    rows.push(row_of_two("home", layout.home_dir()));
    rows.push(row_of_two("bin", layout.bin_dir()));
    rows.push(row_of_two("metadata", layout.metadata_dir()));
    rows.push(row_of_two("repo cache", layout.repo_dir()));
    rows.push(row_of_two("worktrees", layout.worktrees_dir()));
    rows.push(row_of_two("managed binaries", decimal_of(binaries as u64).as_str()));
    rows.push(row_of_two("installed metadata records", decimal_of(records as u64).as_str()));
    rows.push(row_of_two("bin directory exists", truth_text(bin_exists)));
    rows.push(row_of_two("repo cache exists", truth_text(repo_exists)));
    assert(row_views(rows@) =~= doctor_cells(
        layout@,
        binaries as nat,
        records as nat,
        bin_exists,
        repo_exists,
    ));
    rows
}

/// Each row of what is installed or available is that of its tool, in their order.
pub proof fn law_every_tool_has_its_row(
    catalog: Seq<RepoTool>,
    rows: Seq<Vec<String>>,
    at: int,
)
    requires
        row_views(rows) == catalog.map_values(|tool: RepoTool| tool_cells(tool)),
        0 <= at < catalog.len(),
    ensures
        rows.len() == catalog.len(),
        rows[at]@.len() == 4,
        rows[at]@[0]@ == catalog[at].binary_name@,
        rows[at]@[1]@ == short_of(catalog[at].latest_version.commit@)->Some_0,
        rows[at]@[2]@ == catalog[at].latest_version.commit_date@,
        rows[at]@[3]@ == catalog[at].package_name@,
{
    assert(row_views(rows).len() == rows.len());
    let cells = row_views(rows)[at];
    assert(cells == views(rows[at]@));
    assert(cells == tool_cells(catalog[at]));
    assert(cells.len() == 4);
    assert(forall|place: int| 0 <= place < 4 ==> cells[place] == (#[trigger] rows[at]@[place])@);
}

/// Each row of what is installed is that of its record, in their order.
pub proof fn law_every_record_has_its_row(
    records: Seq<InstalledToolRecord>,
    rows: Seq<Vec<String>>,
    at: int,
)
    requires
        row_views(rows) == records.map_values(|record: InstalledToolRecord| record_cells(record)),
        0 <= at < records.len(),
    ensures
        rows.len() == records.len(),
        rows[at]@.len() == 4,
        rows[at]@[0]@ == records[at].tool_name@,
        rows[at]@[1]@ == short_of(records[at].commit@)->Some_0,
        rows[at]@[2]@ == records[at].commit_date@,
        rows[at]@[3]@ == records[at].package_name@,
{
    assert(row_views(rows).len() == rows.len());
    let cells = row_views(rows)[at];
    assert(cells == views(rows[at]@));
    assert(cells == record_cells(records[at]));
    assert(cells.len() == 4);
    assert(forall|place: int| 0 <= place < 4 ==> cells[place] == (#[trigger] rows[at]@[place])@);
}

/// Each row of versions is that of its version, in their order.
pub proof fn law_every_version_has_its_row(
    versions: Seq<ToolVersion>,
    rows: Seq<Vec<String>>,
    at: int,
)
    requires
        row_views(rows) == versions.map_values(|version: ToolVersion| version_cells(version@)),
        0 <= at < versions.len(),
    ensures
        rows.len() == versions.len(),
        rows[at]@.len() == 3,
        rows[at]@[0]@ == versions[at].commit@,
        rows[at]@[1]@ == versions[at].commit_date@,
        rows[at]@[2]@ == versions[at].summary@,
{
    assert(row_views(rows).len() == rows.len());
    let cells = row_views(rows)[at];
    assert(cells == views(rows[at]@));
    assert(cells == version_cells(versions[at]@));
    assert(cells.len() == 3);
    assert(forall|place: int| 0 <= place < 3 ==> cells[place] == (#[trigger] rows[at]@[place])@);
}

/// The doctor tells the directories of the layout, the counts and what is there.
pub proof fn law_doctor_tells_all(
    layout: LayoutView,
    binaries: nat,
    records: nat,
    bin_exists: bool,
    repo_exists: bool,
)
    ensures
        ({
            let cells = doctor_cells(layout, binaries, records, bin_exists, repo_exists);
            &&& cells.len() == 9
            &&& forall|at: int| 0 <= at < 9 ==> (#[trigger] cells[at]).len() == 2
            &&& cells[0][1] == layout.home
            &&& cells[1][1] == layout.bin
            &&& cells[2][1] == joined_path(layout.platform, layout.home, "installed"@)
            &&& cells[3][1] == joined_path(layout.platform, layout.home, "repo"@)
            &&& cells[4][1] == joined_path(layout.platform, layout.home, "worktrees"@)
            &&& number_in(cells[5][1], 10) == binaries
            &&& number_in(cells[6][1], 10) == records
            &&& cells[7][1] == "true"@ <==> bin_exists
            &&& cells[8][1] == "true"@ <==> repo_exists
        }),
{
    reveal_strlit("true");
    reveal_strlit("false");
    assert("true"@.len() == 4 && "false"@.len() == 5);
    law_numeral_is_read_back(binaries, 10);
    law_numeral_is_read_back(records, 10);
}

} // verus!
