//! Installing one or more tools: first all versions are chosen, then each tool is built.

use vstd::prelude::*;

use crate::catalog::{CatalogError, RepoTool};
use crate::reports::{plan_cells, plan_row, summary_cells, summary_row};
use crate::selection::{
    check_version_selection, is_version_choice, select_install_version, VersionChoice,
};
use crate::tables::row_views;
use crate::text::views;
use crate::tool_versions::{short_of, ToolVersion};
use crate::toolctl::ToolctlContext;

verus! {

/// What comes next in installing tools.
#[derive(Debug, PartialEq, Eq)]
pub enum ToolStep {
    Refused(CatalogError),
    /// Choose the version of the tool at this place.
    Choose(usize, VersionChoice),
    /// Show what is going to be installed.
    ShowPlan(Vec<Vec<String>>),
    /// Build and install the tool at this place, and keep a record of it.
    Install(usize),
    /// Show what was installed.
    ShowSummary(Vec<Vec<String>>),
}

/// The cells of all that is going to be installed.
pub open spec fn all_plan_cells(tools: Seq<RepoTool>, versions: Seq<ToolVersion>) -> Seq<
    Seq<Seq<char>>,
> {
    Seq::new(tools.len(), |at: int| plan_cells(tools[at], versions[at]))
}

/// The cells of all that was installed.
pub open spec fn all_summary_cells(
    tools: Seq<RepoTool>,
    versions: Seq<ToolVersion>,
    destinations: Seq<String>,
) -> Seq<Seq<Seq<char>>> {
    Seq::new(tools.len(), |at: int| summary_cells(tools[at], versions[at], destinations[at]@))
}

/// Whether `step` comes next, given the versions chosen and the destinations of the tools installed
/// so far.
pub open spec fn is_tool_step(
    tools: Seq<RepoTool>,
    version: Option<&str>,
    select_version: bool,
    versions: Seq<ToolVersion>,
    is_plan_shown: bool,
    destinations: Seq<String>,
    step: ToolStep,
) -> bool {
    if tools.len() > 1 && select_version {
        step == ToolStep::Refused(CatalogError::ManyVersionsToSelect)
    } else if versions.len() < tools.len() {
        &&& step matches ToolStep::Choose(place, choice)
        &&& place == versions.len()
        &&& is_version_choice(tools[versions.len() as int], version, select_version, choice)
    } else if !is_plan_shown {
        &&& step matches ToolStep::ShowPlan(rows)
        &&& row_views(rows@) == all_plan_cells(tools, versions)
    } else if destinations.len() < tools.len() {
        step == ToolStep::Install(destinations.len() as usize)
    } else {
        &&& step matches ToolStep::ShowSummary(rows)
        &&& row_views(rows@) == all_summary_cells(tools, versions, destinations)
    }
}

/// The rows of all that is going to be installed.
fn plan_rows(tools: &Vec<RepoTool>, versions: &Vec<ToolVersion>) -> (rows: Vec<Vec<String>>)
    requires
        versions@.len() == tools@.len(),
        forall|at: int|
            0 <= at < versions@.len() ==> short_of((#[trigger] versions@[at]).commit@) is Some,
    ensures
        row_views(rows@) == all_plan_cells(tools@, versions@),
{
    let mut rows: Vec<Vec<String>> = Vec::new();
    let mut at: usize = 0;
    while at < tools.len()
        invariant
            at <= tools@.len(),
            versions@.len() == tools@.len(),
            forall|at: int|
                0 <= at < versions@.len() ==> short_of((#[trigger] versions@[at]).commit@) is Some,
            rows@.len() == at,
            forall|done: int|
                0 <= done < at ==> views((#[trigger] rows@[done])@) == plan_cells(
                    tools@[done],
                    versions@[done],
                ),
        decreases tools@.len() - at,
    {
        rows.push(plan_row(&tools[at], &versions[at]));
        at += 1;
    }
    assert(row_views(rows@) =~= all_plan_cells(tools@, versions@));
    rows
}

/// The rows of all that was installed.
fn summary_rows(
    tools: &Vec<RepoTool>,
    versions: &Vec<ToolVersion>,
    destinations: &Vec<String>,
) -> (rows: Vec<Vec<String>>)
    requires
        versions@.len() == tools@.len(),
        destinations@.len() == tools@.len(),
        forall|at: int|
            0 <= at < versions@.len() ==> short_of((#[trigger] versions@[at]).commit@) is Some,
    ensures
        row_views(rows@) == all_summary_cells(tools@, versions@, destinations@),
{
    let mut rows: Vec<Vec<String>> = Vec::new();
    let mut at: usize = 0;
    while at < tools.len()
        invariant
            at <= tools@.len(),
            versions@.len() == tools@.len(),
            destinations@.len() == tools@.len(),
            forall|at: int|
                0 <= at < versions@.len() ==> short_of((#[trigger] versions@[at]).commit@) is Some,
            rows@.len() == at,
            forall|done: int|
                0 <= done < at ==> views((#[trigger] rows@[done])@) == summary_cells(
                    tools@[done],
                    versions@[done],
                    destinations@[done]@,
                ),
        decreases tools@.len() - at,
    {
        rows.push(summary_row(&tools[at], &versions[at], destinations[at].as_str()));
        at += 1;
    }
    assert(row_views(rows@) =~= all_summary_cells(tools@, versions@, destinations@));
    rows
}

impl ToolctlContext {
    /// What comes next in installing tools.
    pub fn install_tool(
        &self,
        tools: &Vec<RepoTool>,
        version: Option<&str>,
        select_version: bool,
        versions: &Vec<ToolVersion>,
        is_plan_shown: bool,
        destinations: &Vec<String>,
    ) -> (step: ToolStep)
        requires
            versions@.len() <= tools@.len(),
            destinations@.len() <= tools@.len(),
            forall|at: int|
                0 <= at < versions@.len() ==> short_of((#[trigger] versions@[at]).commit@) is Some,
        ensures
            is_tool_step(
                tools@,
                version,
                select_version,
                versions@,
                is_plan_shown,
                destinations@,
                step,
            ),
    {
        if let Err(error) = check_version_selection(tools.len(), select_version) {
            return ToolStep::Refused(error);
        }
        let chosen: usize = versions.len();
        if chosen < tools.len() {
            let choice = select_install_version(&tools[chosen], version, select_version);
            return ToolStep::Choose(chosen, choice);
        }
        if !is_plan_shown {
            return ToolStep::ShowPlan(plan_rows(tools, versions));
        }
        if destinations.len() < tools.len() {
            return ToolStep::Install(destinations.len());
        }
        ToolStep::ShowSummary(summary_rows(tools, versions, destinations))
    }
}

/// Nothing is built before the versions of all tools are chosen and the plan was shown, and the
/// tools are built in their order.
pub proof fn law_plan_comes_before_the_build(
    tools: Seq<RepoTool>,
    version: Option<&str>,
    select_version: bool,
    versions: Seq<ToolVersion>,
    is_plan_shown: bool,
    destinations: Seq<String>,
    step: ToolStep,
)
    requires
        versions.len() <= tools.len(),
        tools.len() <= usize::MAX,
        is_tool_step(
            tools,
            version,
            select_version,
            versions,
            is_plan_shown,
            destinations,
            step,
        ),
        step is Install,
    ensures
        versions.len() == tools.len(),
        is_plan_shown,
        step->Install_0 == destinations.len(),
        step->Install_0 < tools.len(),
{
}

/// First the version of every tool is chosen, in their order; then the plan is shown; then every
/// tool is installed, in their order; then the summary is shown. Many tools cannot have their
/// versions selected.
pub proof fn law_steps_of_installing_tools(
    tools: Seq<RepoTool>,
    version: Option<&str>,
    select_version: bool,
    versions: Seq<ToolVersion>,
    is_plan_shown: bool,
    destinations: Seq<String>,
    step: ToolStep,
)
    requires
        is_tool_step(
            tools,
            version,
            select_version,
            versions,
            is_plan_shown,
            destinations,
            step,
        ),
        versions.len() <= tools.len() <= usize::MAX,
        destinations.len() <= tools.len(),
    ensures
        ({
            let is_refused = tools.len() > 1 && select_version;
            let are_chosen = !is_refused && versions.len() == tools.len();
            &&& step is Refused <==> is_refused
            &&& step is Choose <==> !is_refused && versions.len() < tools.len()
            &&& step is ShowPlan <==> are_chosen && !is_plan_shown
            &&& step is Install <==> are_chosen && is_plan_shown && destinations.len() < tools.len()
            &&& step is ShowSummary <==> are_chosen && is_plan_shown && destinations.len()
                == tools.len()
            &&& match step {
                ToolStep::Refused(error) => error is ManyVersionsToSelect,
                ToolStep::Choose(place, _) => place == versions.len(),
                ToolStep::Install(place) => place == destinations.len(),
                ToolStep::ShowPlan(rows) => rows@.len() == tools.len(),
                ToolStep::ShowSummary(rows) => rows@.len() == tools.len(),
            }
        }),
{
    match step {
        ToolStep::ShowPlan(rows) => {
            assert(row_views(rows@).len() == rows@.len());
        },
        ToolStep::ShowSummary(rows) => {
            assert(row_views(rows@).len() == rows@.len());
        },
        _ => {},
    }
}

/// The plan has a row for every tool, with its name, its version and its package.
pub proof fn law_plan_shows_every_tool(
    tools: Seq<RepoTool>,
    versions: Seq<ToolVersion>,
    rows: Seq<Vec<String>>,
    at: int,
)
    requires
        row_views(rows) == all_plan_cells(tools, versions),
        0 <= at < tools.len(),
    ensures
        rows.len() == tools.len(),
        rows[at]@.len() == 3,
        rows[at]@[0]@ == tools[at].binary_name@,
        rows[at]@[1]@ == short_of(versions[at].commit@)->Some_0 + seq![' ']
            + versions[at].commit_date@,
        rows[at]@[2]@ == tools[at].package_name@,
{
    reveal_strlit(" ");
    assert(" "@ =~= seq![' ']);
    assert(row_views(rows).len() == rows.len());
    let cells = row_views(rows)[at];
    assert(cells == views(rows[at]@));
    assert(cells == plan_cells(tools[at], versions[at]));
    assert(cells.len() == 3);
    assert(forall|place: int| 0 <= place < 3 ==> cells[place] == (#[trigger] rows[at]@[place])@);
}

/// The summary has a row for every tool, with its name, its version, its package and where it is.
pub proof fn law_summary_shows_every_tool(
    tools: Seq<RepoTool>,
    versions: Seq<ToolVersion>,
    destinations: Seq<String>,
    rows: Seq<Vec<String>>,
    at: int,
)
    requires
        row_views(rows) == all_summary_cells(tools, versions, destinations),
        0 <= at < tools.len(),
    ensures
        rows.len() == tools.len(),
        rows[at]@.len() == 4,
        rows[at]@[0]@ == tools[at].binary_name@,
        rows[at]@[1]@ == short_of(versions[at].commit@)->Some_0,
        rows[at]@[2]@ == tools[at].package_name@,
        rows[at]@[3]@ == destinations[at]@,
{
    assert(row_views(rows).len() == rows.len());
    let cells = row_views(rows)[at];
    assert(cells == views(rows[at]@));
    assert(cells == summary_cells(tools[at], versions[at], destinations[at]@));
    assert(cells.len() == 4);
    assert(forall|place: int| 0 <= place < 4 ==> cells[place] == (#[trigger] rows[at]@[place])@);
}

/// The version of a tool is looked up where one is named, asked for where that is wanted, and else
/// the latest one of that tool.
pub proof fn law_every_version_is_chosen_for_its_tool(
    tools: Seq<RepoTool>,
    version: Option<&str>,
    select_version: bool,
    versions: Seq<ToolVersion>,
    is_plan_shown: bool,
    destinations: Seq<String>,
    place: usize,
    choice: VersionChoice,
)
    requires
        is_tool_step(
            tools,
            version,
            select_version,
            versions,
            is_plan_shown,
            destinations,
            ToolStep::Choose(place, choice),
        ),
    ensures
        place < tools.len(),
        match choice {
            VersionChoice::Resolve(text) => version matches Some(reference) && text@ == reference@,
            VersionChoice::Ask => version is None && select_version,
            VersionChoice::Take(latest) => version is None && !select_version && latest
                == tools[place as int].latest_version,
        },
{
}

/// What is shown before and behind the installation are all tools, each at its version and, at the
/// end, with the place where it was put.
pub proof fn law_rows_show_every_tool(
    tools: Seq<RepoTool>,
    version: Option<&str>,
    select_version: bool,
    versions: Seq<ToolVersion>,
    is_plan_shown: bool,
    destinations: Seq<String>,
    step: ToolStep,
    at: int,
)
    requires
        is_tool_step(
            tools,
            version,
            select_version,
            versions,
            is_plan_shown,
            destinations,
            step,
        ),
        0 <= at < tools.len(),
    ensures
        match step {
            ToolStep::ShowPlan(rows) => {
                &&& rows@[at]@[0]@ == tools[at].binary_name@
                &&& rows@[at]@[1]@ == short_of(versions[at].commit@)->Some_0 + seq![' ']
                    + versions[at].commit_date@
                &&& rows@[at]@[2]@ == tools[at].package_name@
            },
            ToolStep::ShowSummary(rows) => {
                &&& rows@[at]@[0]@ == tools[at].binary_name@
                &&& rows@[at]@[1]@ == short_of(versions[at].commit@)->Some_0
                &&& rows@[at]@[2]@ == tools[at].package_name@
                &&& rows@[at]@[3]@ == destinations[at]@
            },
            _ => true,
        },
{
    match step {
        ToolStep::ShowPlan(rows) => law_plan_shows_every_tool(tools, versions, rows@, at),
        ToolStep::ShowSummary(rows) => law_summary_shows_every_tool(
            tools,
            versions,
            destinations,
            rows@,
            at,
        ),
        _ => {},
    }
}

} // verus!
