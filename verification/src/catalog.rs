//! The tools that can be installed from the source repository.

use vstd::prelude::*;

use crate::paths::{parent, parent_of};
use crate::platform::Platform;
use crate::sorting::{
    arrange, is_arranged, is_sorted_copy, is_stable_listing, law_sorting_is_stable,
    law_sorting_keeps_all, text_sorting,
};
use crate::text::{
    concat, holds_part, holds_text, is_smaller_at, law_first_difference_decides, lemma_part_is_held,
    owned, same_text, text_at_most, views,
};
use crate::tool_versions::ToolVersion;

verus! {

/// A tool of the source repository.
#[derive(Debug, PartialEq, Eq)]
pub struct RepoTool {
    pub package_name: String,
    pub binary_name: String,
    pub manifest_path: String,
    pub package_dir: String,
    pub latest_version: ToolVersion,
}

/// A target of a package.
#[derive(Debug)]
pub struct CargoTarget {
    pub name: String,
    pub kind: Vec<String>,
}

/// A package of the source repository.
#[derive(Debug)]
pub struct CargoPackage {
    pub name: String,
    pub manifest_path: String,
    pub targets: Vec<CargoTarget>,
}

/// What comes next in making the catalog.
#[derive(Debug, PartialEq, Eq)]
pub enum CatalogStep {
    /// Read the latest version of this directory.
    Read(String),
    Done(Vec<RepoTool>),
    Failed(CatalogError),
}

/// Why tools could not be found.
#[derive(Debug, PartialEq, Eq)]
pub enum CatalogError {
    NoParent(String),
    EmptyCatalog,
    AllIsManyTools,
    UnknownTool(String),
    NothingSelected,
    ManyVersionsToSelect,
}

/// Which tools are installed.
#[derive(Debug, PartialEq, Eq)]
pub enum Selection {
    Tools(Vec<RepoTool>),
    /// Let the user select.
    Ask,
}

impl CatalogError {
    /// What the error says.
    pub open spec fn text(self) -> Seq<char> {
        match self {
            CatalogError::NoParent(path) => path@ + " does not have a parent directory"@,
            CatalogError::EmptyCatalog =>
                "no installable tools were found in the repository catalog"@,
            CatalogError::AllIsManyTools =>
                "`all` selects multiple tools and is only valid with `toolctl install`"@,
            CatalogError::UnknownTool(name) => "unknown tool '"@ + name@ + "'"@,
            CatalogError::NothingSelected => "no tools were selected"@,
            CatalogError::ManyVersionsToSelect =>
                "--select-version can only be used when installing exactly one tool"@,
        }
    }

    /// Says why tools could not be found.
    pub fn message(&self) -> (message: String)
        ensures
            message@ == self.text(),
    {
        match self {
            CatalogError::NoParent(path) => concat(
                path.as_str(),
                " does not have a parent directory",
            ),
            CatalogError::EmptyCatalog => owned(
                "no installable tools were found in the repository catalog",
            ),
            CatalogError::AllIsManyTools => owned(
                "`all` selects multiple tools and is only valid with `toolctl install`",
            ),
            CatalogError::UnknownTool(name) => {
                let mut message = concat("unknown tool '", name.as_str());
                message.append("'");
                message
            },
            CatalogError::NothingSelected => owned("no tools were selected"),
            CatalogError::ManyVersionsToSelect => owned(
                "--select-version can only be used when installing exactly one tool",
            ),
        }
    }
}

impl Clone for RepoTool {
    fn clone(&self) -> (copy: Self)
        ensures
            copy == *self,
    {
        RepoTool {
            package_name: self.package_name.clone(),
            binary_name: self.binary_name.clone(),
            manifest_path: self.manifest_path.clone(),
            package_dir: self.package_dir.clone(),
            latest_version: self.latest_version.clone(),
        }
    }
}

/// A copy of a list of tools.
pub fn copy_tools(tools: &Vec<RepoTool>) -> (copy: Vec<RepoTool>)
    ensures
        copy@ == tools@,
{
    let mut copy: Vec<RepoTool> = Vec::new();
    let mut at: usize = 0;
    while at < tools.len()
        invariant
            at <= tools@.len(),
            copy@ == tools@.take(at as int),
        decreases tools@.len() - at,
    {
        copy.push(tools[at].clone());
        at += 1;
        assert(copy@ =~= tools@.take(at as int));
    }
    assert(tools@.take(at as int) =~= tools@);
    copy
}

/// Whether a package or a target is one of the tools for installing tools.
pub open spec fn is_internal(name: Seq<char>) -> bool {
    name == "tool-core"@ || name == "tool-installer"@ || name == "toolctl"@
}

/// Whether a package or a target is one of the tools for installing tools.
fn is_internal_name(name: &str) -> (answer: bool)
    ensures
        answer == is_internal(name@),
{
    same_text(name, "tool-core") || same_text(name, "tool-installer") || same_text(name, "toolctl")
}

/// Whether a target is a binary that can be installed.
pub open spec fn is_tool_target(target: CargoTarget) -> bool {
    views(target.kind@).contains("bin"@) && !is_internal(target.name@)
}

/// What is found in the packages: a binary, or a manifest without a directory.
pub enum FoundItem {
    Tool { package: Seq<char>, binary: Seq<char>, manifest: Seq<char>, directory: Seq<char> },
    NoParent { manifest: Seq<char> },
}

/// The binaries among the first `count` targets of a package.
pub open spec fn tools_of(package: CargoPackage, directory: Seq<char>, count: int) -> Seq<
    FoundItem,
>
    decreases count,
{
    if count <= 0 {
        Seq::empty()
    } else {
        let before = tools_of(package, directory, count - 1);
        let target = package.targets@[count - 1];
        if is_tool_target(target) {
            before.push(
                FoundItem::Tool {
                    package: package.name@,
                    binary: target.name@,
                    manifest: package.manifest_path@,
                    directory,
                },
            )
        } else {
            before
        }
    }
}

/// What is found in a package: nothing in the tools for installing tools.
pub open spec fn items_of(platform: Platform, package: CargoPackage) -> Seq<FoundItem> {
    if is_internal(package.name@) {
        Seq::empty()
    } else {
        match parent_of(platform, package.manifest_path@) {
            Some(directory) => tools_of(package, directory, package.targets@.len() as int),
            None => seq![FoundItem::NoParent { manifest: package.manifest_path@ }],
        }
    }
}

/// What is found in all packages.
pub open spec fn found_items(platform: Platform, packages: Seq<CargoPackage>) -> Seq<FoundItem>
    decreases packages.len(),
{
    if packages.len() == 0 {
        Seq::empty()
    } else {
        found_items(platform, packages.drop_last()) + items_of(platform, packages.last())
    }
}

/// Whether a tool is what was found, at a version.
pub open spec fn is_tool_of(item: FoundItem, version: ToolVersion, tool: RepoTool) -> bool {
    match item {
        FoundItem::Tool { package, binary, manifest, directory } => {
            &&& tool.package_name@ == package
            &&& tool.binary_name@ == binary
            &&& tool.manifest_path@ == manifest
            &&& tool.package_dir@ == directory
            &&& tool.latest_version == version
        },
        FoundItem::NoParent { .. } => false,
    }
}

/// Whether the tools are the first items, each at its version.
pub open spec fn are_tools_of(
    items: Seq<FoundItem>,
    versions: Seq<ToolVersion>,
    tools: Seq<RepoTool>,
) -> bool {
    &&& tools.len() <= items.len()
    &&& tools.len() <= versions.len()
    &&& forall|at: int|
        0 <= at < tools.len() ==> is_tool_of(items[at], versions[at], #[trigger] tools[at])
}

/// The order of tools: by the name of the binary.
pub open spec fn tool_order() -> spec_fn(RepoTool, RepoTool) -> bool {
    |left: RepoTool, right: RepoTool| text_at_most(left.binary_name@, right.binary_name@)
}

/// Whether `step` comes next after the first items were found to be `tools`: what is wrong with the
/// next item, reading its version, or the sorted catalog.
pub open spec fn is_step_after(
    items: Seq<FoundItem>,
    versions: Seq<ToolVersion>,
    tools: Seq<RepoTool>,
    step: CatalogStep,
) -> bool {
    &&& are_tools_of(items, versions, tools)
    &&& if tools.len() == items.len() {
        step matches CatalogStep::Done(sorted) && is_sorted_copy(tools, sorted@, tool_order())
    } else {
        match items[tools.len() as int] {
            FoundItem::NoParent { manifest } => {
                &&& step matches CatalogStep::Failed(CatalogError::NoParent(path))
                &&& path@ == manifest
            },
            FoundItem::Tool { directory, .. } => {
                &&& tools.len() == versions.len()
                &&& step matches CatalogStep::Read(path)
                &&& path@ == directory
            },
        }
    }
}

/// Whether `step` comes next in making the catalog, given the versions read so far.
pub open spec fn is_catalog_step(
    platform: Platform,
    packages: Seq<CargoPackage>,
    versions: Seq<ToolVersion>,
    step: CatalogStep,
) -> bool {
    exists|tools: Seq<RepoTool>|
        is_step_after(found_items(platform, packages), versions, tools, step)
}

/// Whether the kinds of a target name a binary.
fn is_binary_kind(kinds: &Vec<String>) -> (answer: bool)
    ensures
        answer == views(kinds@).contains("bin"@),
{
    holds_text(kinds, "bin")
}

/// What adding the tools of a package to a catalog leads to.
enum Progress {
    Added,
    Stop(CatalogStep),
}

/// The items of a part of the targets are the first items of the package.
proof fn lemma_tools_grow(package: CargoPackage, directory: Seq<char>, count: int, all: int)
    requires
        0 <= count <= all,
    ensures
        tools_of(package, directory, count).is_prefix_of(tools_of(package, directory, all)),
    decreases all,
{
    if count < all {
        lemma_tools_grow(package, directory, count, all - 1);
        let less = tools_of(package, directory, count);
        let middle = tools_of(package, directory, all - 1);
        let more = tools_of(package, directory, all);
        assert(middle.is_prefix_of(more));
        assert(less =~= more.subrange(0, less.len() as int)) by {
            assert(less =~= middle.subrange(0, less.len() as int));
        }
    } else {
        let all = tools_of(package, directory, all);
        assert(all =~= all.subrange(0, all.len() as int));
    }
}

/// The items of the first packages are the first items of all.
proof fn lemma_items_grow(platform: Platform, packages: Seq<CargoPackage>, count: int)
    requires
        0 <= count <= packages.len(),
    ensures
        found_items(platform, packages.take(count)).is_prefix_of(found_items(platform, packages)),
    decreases packages.len(),
{
    if count < packages.len() {
        let rest = packages.drop_last();
        lemma_items_grow(platform, rest, count);
        assert(rest.take(count) =~= packages.take(count));
        let less = found_items(platform, packages.take(count));
        let middle = found_items(platform, rest);
        let more = found_items(platform, packages);
        assert(less =~= more.subrange(0, less.len() as int)) by {
            assert(less =~= middle.subrange(0, less.len() as int));
        }
    } else {
        assert(packages.take(count) =~= packages);
        let all = found_items(platform, packages);
        assert(all =~= all.subrange(0, all.len() as int));
    }
}

/// Adds the tools of the package at `place` to a catalog that holds those of the packages before
/// it.
fn add_package(
    platform: Platform,
    packages: &Vec<CargoPackage>,
    place: usize,
    versions: &Vec<ToolVersion>,
    tools: &mut Vec<RepoTool>,
) -> (progress: Progress)
    requires
        place < packages@.len(),
        old(tools)@.len() == found_items(platform, packages@.take(place as int)).len(),
        are_tools_of(found_items(platform, packages@), versions@, old(tools)@),
    ensures
        match progress {
            Progress::Added => final(tools)@.len() == found_items(
                platform,
                packages@.take(place + 1),
            ).len() && are_tools_of(found_items(platform, packages@), versions@, final(tools)@),
            Progress::Stop(step) => is_catalog_step(platform, packages@, versions@, step),
        },
{
    let package = &packages[place];
    let ghost items = found_items(platform, packages@);
    let ghost before = found_items(platform, packages@.take(place as int));
    let ghost own = items_of(platform, *package);
    let ghost with_own = found_items(platform, packages@.take(place + 1));
    proof {
        assert(packages@.take(place + 1).drop_last() =~= packages@.take(place as int));
        assert(packages@.take(place + 1).last() == *package);
        lemma_items_grow(platform, packages@, place + 1);
        assert(with_own == items.subrange(0, with_own.len() as int));
        assert(with_own =~= before + own);
    }
    if is_internal_name(package.name.as_str()) {
        return Progress::Added;
    }
    let directory = match parent(platform, package.manifest_path.as_str()) {
        Some(directory) => directory,
        None => {
            let step = CatalogStep::Failed(CatalogError::NoParent(package.manifest_path.clone()));
            proof {
                assert(with_own[before.len() as int] == own[0]);
                assert(items[before.len() as int] == own[0]);
                assert(is_step_after(items, versions@, tools@, step));
            }
            return Progress::Stop(step);
        },
    };
    let mut at: usize = 0;
    while at < package.targets.len()
        invariant
            place < packages@.len(),
            *package == packages@[place as int],
            at <= package.targets@.len(),
            items == found_items(platform, packages@),
            own == items_of(platform, *package),
            own == tools_of(*package, directory@, package.targets@.len() as int),
            with_own == before + own,
            with_own.is_prefix_of(items),
            tools@.len() == before.len() + tools_of(*package, directory@, at as int).len(),
            are_tools_of(items, versions@, tools@),
        decreases package.targets@.len() - at,
    {
        let target = &package.targets[at];
        proof {
            lemma_tools_grow(
                *package,
                directory@,
                at + 1,
                package.targets@.len() as int,
            );
        }
        if is_binary_kind(&target.kind) && !is_internal_name(target.name.as_str()) {
            let ghost next = tools@.len() as int;
            let ghost grown = tools_of(*package, directory@, at + 1);
            proof {
                assert(grown == own.subrange(0, grown.len() as int));
                assert(grown.last() == own[grown.len() - 1]);
                assert(with_own[next] == own[next - before.len()]);
                assert(with_own == items.subrange(0, with_own.len() as int));
                assert(items[next] == with_own[next]);
            }
            if tools.len() >= versions.len() {
                let step = CatalogStep::Read(directory);
                assert(is_step_after(items, versions@, tools@, step));
                return Progress::Stop(step);
            }
            let tool = RepoTool {
                package_name: package.name.clone(),
                binary_name: target.name.clone(),
                manifest_path: package.manifest_path.clone(),
                package_dir: directory.clone(),
                latest_version: versions[tools.len()].clone(),
            };
            assert(is_tool_of(items[next], versions@[next], tool));
            let ghost earlier = tools@;
            tools.push(tool);
            assert forall|place: int| 0 <= place < tools@.len() implies is_tool_of(
                items[place],
                versions@[place],
                #[trigger] tools@[place],
            ) by {
                if place < next {
                    assert(tools@[place] == earlier[place]);
                }
            }
        }
        at += 1;
    }
    Progress::Added
}

/// Sorts tools by the name of the binary.
fn sort_tools(tools: Vec<RepoTool>) -> (sorted: Vec<RepoTool>)
    ensures
        is_sorted_copy(tools@, sorted@, tool_order()),
{
    let mut names: Vec<String> = Vec::new();
    let mut at: usize = 0;
    while at < tools.len()
        invariant
            at <= tools@.len(),
            names@.len() == at,
            forall|done: int|
                0 <= done < at ==> (#[trigger] names@[done])@ == tools@[done].binary_name@,
        decreases tools@.len() - at,
    {
        names.push(tools[at].binary_name.clone());
        at += 1;
    }
    let order = text_sorting(&names);
    let ghost items = tools@;
    proof {
        assert forall|left: int, right: int| 0 <= left < right < order@.len() implies {
            let before = #[trigger] order@[left];
            let behind = #[trigger] order@[right];
            tool_order()(items[before as int], items[behind as int]) && (tool_order()(
                items[behind as int],
                items[before as int],
            ) ==> before < behind)
        } by {
            let before = order@[left] as int;
            let behind = order@[right] as int;
            assert(views(names@)[before] == items[before].binary_name@);
            assert(views(names@)[behind] == items[behind].binary_name@);
        }
        assert(is_stable_listing(items, order@, tool_order()));
    }
    let sorted = arrange(tools, &order);
    assert(is_arranged(items, order@, sorted@));
    sorted
}

/// What comes next in making the catalog: the version of the next binary is read, until all are
/// known.
pub fn repo_catalog(
    platform: Platform,
    packages: &Vec<CargoPackage>,
    versions: &Vec<ToolVersion>,
) -> (step: CatalogStep)
    ensures
        is_catalog_step(platform, packages@, versions@, step),
{
    let mut tools: Vec<RepoTool> = Vec::new();
    let mut at: usize = 0;
    let ghost items = found_items(platform, packages@);
    assert(packages@.take(0) =~= Seq::<CargoPackage>::empty());
    while at < packages.len()
        invariant
            at <= packages@.len(),
            items == found_items(platform, packages@),
            tools@.len() == found_items(platform, packages@.take(at as int)).len(),
            are_tools_of(items, versions@, tools@),
        decreases packages@.len() - at,
    {
        match add_package(platform, packages, at, versions, &mut tools) {
            Progress::Added => {},
            Progress::Stop(step) => return step,
        }
        at += 1;
    }
    assert(packages@.take(at as int) =~= packages@);
    let ghost found = tools@;
    let step = CatalogStep::Done(sort_tools(tools));
    assert(is_step_after(items, versions@, found, step));
    step
}

/// What is found in a package never is one of the tools for installing tools.
proof fn lemma_tools_are_not_internal(package: CargoPackage, directory: Seq<char>, count: int)
    requires
        !is_internal(package.name@),
        count <= package.targets@.len(),
    ensures
        forall|at: int|
            0 <= at < tools_of(package, directory, count).len() ==> is_public_item(
                #[trigger] tools_of(package, directory, count)[at],
            ),
    decreases count,
{
    if count > 0 {
        lemma_tools_are_not_internal(package, directory, count - 1);
        let before = tools_of(package, directory, count - 1);
        let all = tools_of(package, directory, count);
        assert forall|at: int| 0 <= at < all.len() implies is_public_item(#[trigger] all[at]) by {
            if at < before.len() {
                assert(all[at] == before[at]);
            }
        }
    }
}

/// Whether what was found is no tool for installing tools.
pub open spec fn is_public_item(item: FoundItem) -> bool {
    item matches FoundItem::Tool { package, binary, .. } ==> !is_internal(package) && !is_internal(
        binary,
    )
}

/// What is found never is one of the tools for installing tools.
proof fn lemma_items_are_not_internal(platform: Platform, packages: Seq<CargoPackage>)
    ensures
        forall|at: int|
            0 <= at < found_items(platform, packages).len() ==> is_public_item(
                #[trigger] found_items(platform, packages)[at],
            ),
    decreases packages.len(),
{
    if packages.len() > 0 {
        lemma_items_are_not_internal(platform, packages.drop_last());
        let last = packages.last();
        if !is_internal(last.name@) && parent_of(platform, last.manifest_path@) is Some {
            lemma_tools_are_not_internal(
                last,
                parent_of(platform, last.manifest_path@)->Some_0,
                last.targets@.len() as int,
            );
        }
        let before = found_items(platform, packages.drop_last());
        let own = items_of(platform, last);
        let all = found_items(platform, packages);
        assert forall|at: int| 0 <= at < all.len() implies is_public_item(#[trigger] all[at]) by {
            if at < before.len() {
                assert(all[at] == before[at]);
            } else {
                assert(all[at] == own[at - before.len()]);
            }
        }
    }
}

/// The tools for installing tools are not in the catalog.
pub proof fn law_catalog_holds_no_internal_tool(
    platform: Platform,
    packages: Seq<CargoPackage>,
    versions: Seq<ToolVersion>,
    catalog: Vec<RepoTool>,
    at: int,
)
    requires
        is_catalog_step(platform, packages, versions, CatalogStep::Done(catalog)),
        0 <= at < catalog@.len(),
    ensures
        !is_internal(catalog@[at].package_name@),
        !is_internal(catalog@[at].binary_name@),
{
    let items = found_items(platform, packages);
    let step = CatalogStep::Done(catalog);
    let tools = choose|tools: Seq<RepoTool>| is_step_after(items, versions, tools, step);
    let order = choose|order: Seq<usize>|
        is_stable_listing(tools, order, tool_order()) && is_arranged(tools, order, catalog@);
    let place = order[at] as int;
    assert(catalog@[at] == tools[place]);
    assert(is_tool_of(items[place], versions[place], tools[place]));
    lemma_items_are_not_internal(platform, packages);
    assert(is_public_item(items[place]));
}

/// The catalog is sorted by the names of the binaries.
pub proof fn law_catalog_is_sorted(
    platform: Platform,
    packages: Seq<CargoPackage>,
    versions: Seq<ToolVersion>,
    catalog: Vec<RepoTool>,
    left: int,
    right: int,
)
    requires
        is_catalog_step(platform, packages, versions, CatalogStep::Done(catalog)),
        0 <= left < right < catalog@.len(),
    ensures
        text_at_most(catalog@[left].binary_name@, catalog@[right].binary_name@),
{
    let items = found_items(platform, packages);
    let step = CatalogStep::Done(catalog);
    let tools = choose|tools: Seq<RepoTool>| is_step_after(items, versions, tools, step);
    let order = choose|order: Seq<usize>|
        is_stable_listing(tools, order, tool_order()) && is_arranged(tools, order, catalog@);
    assert(catalog@[left] == tools[order[left] as int]);
    assert(catalog@[right] == tools[order[right] as int]);
    assert(tool_order()(tools[order[left] as int], tools[order[right] as int]));
}

/// Whether a name is none of those of the tools for installing tools.
pub open spec fn is_offered_name(name: Seq<char>) -> bool {
    name != "tool-core"@ && name != "tool-installer"@ && name != "toolctl"@
}

/// Whether a place, of a package and of a target in it, is that of a binary to install: neither
/// name is that of a tool for installing tools, and one of the kinds of the target is `bin`.
pub open spec fn is_tool_place(packages: Seq<CargoPackage>, place: (int, int)) -> bool {
    &&& 0 <= place.0 < packages.len()
    &&& 0 <= place.1 < packages[place.0].targets@.len()
    &&& is_offered_name(packages[place.0].name@)
    &&& is_offered_name(packages[place.0].targets@[place.1].name@)
    &&& exists|kind: int|
        0 <= kind < packages[place.0].targets@[place.1].kind@.len() && (
        #[trigger] packages[place.0].targets@[place.1].kind@[kind])@ == "bin"@
}

/// Whether a place is that of a package whose manifest has no directory.
pub open spec fn is_stray_place(
    platform: Platform,
    packages: Seq<CargoPackage>,
    place: (int, int),
) -> bool {
    &&& 0 <= place.0 < packages.len()
    &&& place.1 == -1
    &&& is_offered_name(packages[place.0].name@)
    &&& parent_of(platform, packages[place.0].manifest_path@) is None
}

/// Whether a place comes before another: in an earlier package, or earlier in the same.
pub open spec fn is_earlier_place(left: (int, int), right: (int, int)) -> bool {
    left.0 < right.0 || (left.0 == right.0 && left.1 < right.1)
}

/// Whether the places ascend.
pub open spec fn places_ascend(places: Seq<(int, int)>) -> bool {
    forall|left: int, right: int|
        0 <= left < right < places.len() ==> is_earlier_place(
            #[trigger] places[left],
            #[trigger] places[right],
        )
}

/// Whether an item was found at a place.
spec fn is_item_at(
    platform: Platform,
    packages: Seq<CargoPackage>,
    place: (int, int),
    item: FoundItem,
) -> bool {
    match item {
        FoundItem::Tool { package, binary, manifest, directory } => {
            &&& is_tool_place(packages, place)
            &&& package == packages[place.0].name@
            &&& binary == packages[place.0].targets@[place.1].name@
            &&& manifest == packages[place.0].manifest_path@
            &&& parent_of(platform, packages[place.0].manifest_path@) == Some(directory)
        },
        FoundItem::NoParent { manifest } => {
            &&& is_stray_place(platform, packages, place)
            &&& manifest == packages[place.0].manifest_path@
        },
    }
}

/// Whether an item is found at a place: a binary in a package with a directory, or the package.
spec fn has_item(platform: Platform, packages: Seq<CargoPackage>, place: (int, int)) -> bool {
    ||| is_tool_place(packages, place) && parent_of(
        platform,
        packages[place.0].manifest_path@,
    ) is Some
    ||| is_stray_place(platform, packages, place)
}

proof fn lemma_kind_is_named(kinds: Seq<String>)
    ensures
        views(kinds).contains("bin"@) <==> exists|kind: int|
            0 <= kind < kinds.len() && (#[trigger] kinds[kind])@ == "bin"@,
{
    if views(kinds).contains("bin"@) {
        let kind = choose|kind: int| 0 <= kind < views(kinds).len() && views(kinds)[kind] == "bin"@;
        assert(kinds[kind]@ == "bin"@);
    }
    if exists|kind: int| 0 <= kind < kinds.len() && (#[trigger] kinds[kind])@ == "bin"@ {
        let kind = choose|kind: int| 0 <= kind < kinds.len() && (#[trigger] kinds[kind])@ == "bin"@;
        assert(views(kinds)[kind] == "bin"@);
    }
}

/// The places of the binaries among the first targets of a package.
proof fn lemma_tool_places(
    platform: Platform,
    packages: Seq<CargoPackage>,
    at: int,
    directory: Seq<char>,
    count: int,
) -> (places: Seq<(int, int)>)
    requires
        0 <= at < packages.len(),
        is_offered_name(packages[at].name@),
        parent_of(platform, packages[at].manifest_path@) == Some(directory),
        0 <= count <= packages[at].targets@.len(),
    ensures
        places.len() == tools_of(packages[at], directory, count).len(),
        places_ascend(places),
        forall|next: int|
            0 <= next < places.len() ==> (#[trigger] places[next]).0 == at && places[next].1 < count
                && is_item_at(
                platform,
                packages,
                places[next],
                tools_of(packages[at], directory, count)[next],
            ),
        forall|place: (int, int)|
            place.0 == at && place.1 < count && #[trigger] is_tool_place(packages, place)
                ==> places.contains(place),
    decreases count,
{
    if count == 0 {
        Seq::empty()
    } else {
        let before = lemma_tool_places(platform, packages, at, directory, count - 1);
        let target = packages[at].targets@[count - 1];
        let own = (at, count - 1);
        lemma_kind_is_named(target.kind@);
        assert(is_tool_place(packages, own) <==> is_tool_target(target));
        let places = if is_tool_target(target) {
            before.push(own)
        } else {
            before
        };
        let items = tools_of(packages[at], directory, count);
        let earlier = tools_of(packages[at], directory, count - 1);
        assert forall|next: int| 0 <= next < places.len() implies (#[trigger] places[next]).0 == at
            && places[next].1 < count && is_item_at(
            platform,
            packages,
            places[next],
            items[next],
        ) by {
            if next < before.len() {
                assert(places[next] == before[next]);
                assert(items[next] == earlier[next]);
            }
        }
        assert forall|place: (int, int)|
            place.0 == at && place.1 < count && #[trigger] is_tool_place(
                packages,
                place,
            ) implies places.contains(place) by {
            if place.1 == count - 1 {
                assert(place == own);
                assert(places[places.len() - 1] == own);
            } else {
                assert(before.contains(place));
                let next = choose|next: int| 0 <= next < before.len() && before[next] == place;
                assert(places[next] == place);
            }
        }
        assert forall|left: int, right: int|
            0 <= left < right < places.len() implies is_earlier_place(
            #[trigger] places[left],
            #[trigger] places[right],
        ) by {
            assert(places[left] == before[left]);
            if right < before.len() {
                assert(places[right] == before[right]);
            }
        }
        places
    }
}

/// The places of all that is found.
proof fn lemma_item_places(platform: Platform, packages: Seq<CargoPackage>) -> (places: Seq<
    (int, int),
>)
    ensures
        places.len() == found_items(platform, packages).len(),
        places_ascend(places),
        forall|at: int|
            0 <= at < places.len() ==> is_item_at(
                platform,
                packages,
                #[trigger] places[at],
                found_items(platform, packages)[at],
            ),
        forall|place: (int, int)| #[trigger]
            has_item(platform, packages, place) ==> places.contains(place),
    decreases packages.len(),
{
    if packages.len() == 0 {
        Seq::empty()
    } else {
        let rest = packages.drop_last();
        let before = lemma_item_places(platform, rest);
        let last = packages.len() - 1;
        let package = packages.last();
        let own = if is_internal(package.name@) {
            Seq::empty()
        } else {
            match parent_of(platform, package.manifest_path@) {
                Some(directory) => lemma_tool_places(
                    platform,
                    packages,
                    last,
                    directory,
                    package.targets@.len() as int,
                ),
                None => seq![(last, -1int)],
            }
        };
        let places = before + own;
        let items = found_items(platform, packages);
        let earlier = found_items(platform, rest);
        let found = items_of(platform, package);
        assert(own.len() == found.len());
        assert(items == earlier + found);
        assert forall|place: (int, int)| place.0 < last implies (is_tool_place(packages, place)
            <==> is_tool_place(rest, place)) && (is_stray_place(platform, packages, place)
            <==> is_stray_place(platform, rest, place)) && #[trigger] has_item(
            platform,
            packages,
            place,
        ) == has_item(platform, rest, place) by {
            if 0 <= place.0 {
                assert(packages[place.0] == rest[place.0]);
            }
        }
        assert forall|at: int| 0 <= at < places.len() implies is_item_at(
            platform,
            packages,
            #[trigger] places[at],
            items[at],
        ) by {
            if at < before.len() {
                assert(places[at] == before[at]);
                assert(items[at] == earlier[at]);
                assert(is_item_at(platform, rest, before[at], earlier[at]));
                assert(before[at].0 < last);
                assert(has_item(platform, packages, before[at]) == has_item(
                    platform,
                    rest,
                    before[at],
                ));
            } else {
                assert(places[at] == own[at - before.len()]);
                assert(items[at] == found[at - before.len()]);
            }
        }
        assert forall|left: int, right: int|
            0 <= left < right < places.len() implies is_earlier_place(
            #[trigger] places[left],
            #[trigger] places[right],
        ) by {
            if right < before.len() {
                assert(places[left] == before[left] && places[right] == before[right]);
            } else if left < before.len() {
                assert(places[left] == before[left]);
                assert(is_item_at(platform, rest, before[left], earlier[left]));
                assert(before[left].0 < last);
                assert(places[right] == own[right - before.len()]);
            } else {
                assert(places[left] == own[left - before.len()]);
                assert(places[right] == own[right - before.len()]);
            }
        }
        assert forall|place: (int, int)| #[trigger]
            has_item(platform, packages, place) implies places.contains(place) by {
            if place.0 < last {
                assert(has_item(platform, rest, place));
                let at = choose|at: int| 0 <= at < before.len() && before[at] == place;
                assert(places[at] == place);
            } else {
                assert(own.contains(place)) by {
                    if is_tool_place(packages, place) {
                    } else {
                        assert(own[0] == place);
                    }
                }
                let at = choose|at: int| 0 <= at < own.len() && own[at] == place;
                assert(places[before.len() + at] == place);
            }
        }
        places
    }
}

/// Whether the places are those of all binaries to install, one behind the other.
pub open spec fn are_all_tool_places(
    packages: Seq<CargoPackage>,
    places: Seq<(int, int)>,
) -> bool {
    &&& places_ascend(places)
    &&& forall|place: (int, int)|
        places.contains(place) <==> #[trigger] is_tool_place(packages, place)
}

/// The catalog is complete: every binary to install has its tool in it, and it holds no others.
/// Each has the names, the manifest and the directory of its package, and of the versions the one
/// that was read for it.
pub proof fn law_catalog_is_complete(
    platform: Platform,
    packages: Seq<CargoPackage>,
    versions: Seq<ToolVersion>,
    catalog: Vec<RepoTool>,
) -> (found: (Seq<(int, int)>, Seq<int>))
    requires
        is_catalog_step(platform, packages, versions, CatalogStep::Done(catalog)),
    ensures
        ({
            let (places, order) = found;
            &&& are_all_tool_places(packages, places)
            &&& catalog@.len() == places.len() <= versions.len()
            &&& order.len() == places.len()
            &&& order.no_duplicates()
            &&& forall|next: int| 0 <= next < places.len() ==> #[trigger] order.contains(next)
            &&& forall|at: int|
                0 <= at < catalog@.len() ==> 0 <= #[trigger] order[at] < places.len() && {
                    let (package, target) = places[order[at]];
                    &&& catalog@[at].package_name@ == packages[package].name@
                    &&& catalog@[at].binary_name@ == packages[package].targets@[target].name@
                    &&& catalog@[at].manifest_path@ == packages[package].manifest_path@
                    &&& parent_of(platform, packages[package].manifest_path@) == Some(
                        catalog@[at].package_dir@,
                    )
                    &&& catalog@[at].latest_version == versions[order[at]]
                }
        }),
{
    let items = found_items(platform, packages);
    let step = CatalogStep::Done(catalog);
    let tools = choose|tools: Seq<RepoTool>| is_step_after(items, versions, tools, step);
    let places = lemma_item_places(platform, packages);
    let order = law_sorting_is_stable(tools, catalog@, tool_order());
    law_sorting_keeps_all(tools, catalog@, tool_order());
    assert forall|place: (int, int)|
        places.contains(place) <==> #[trigger] is_tool_place(packages, place) by {
        if places.contains(place) {
            let at = choose|at: int| 0 <= at < places.len() && places[at] == place;
            assert(is_item_at(platform, packages, places[at], items[at]));
            assert(is_tool_of(items[at], versions[at], tools[at]));
        }
        if is_tool_place(packages, place) {
            if parent_of(platform, packages[place.0].manifest_path@) is None {
                let stray = (place.0, -1int);
                assert(has_item(platform, packages, stray));
                let at = choose|at: int| 0 <= at < places.len() && places[at] == stray;
                assert(is_item_at(platform, packages, places[at], items[at]));
                assert(is_tool_of(items[at], versions[at], tools[at]));
            }
            assert(has_item(platform, packages, place));
        }
    }
    assert forall|at: int| 0 <= at < catalog@.len() implies 0 <= #[trigger] order[at]
        < places.len() && {
        let (package, target) = places[order[at]];
        &&& catalog@[at].package_name@ == packages[package].name@
        &&& catalog@[at].binary_name@ == packages[package].targets@[target].name@
        &&& catalog@[at].manifest_path@ == packages[package].manifest_path@
        &&& parent_of(platform, packages[package].manifest_path@) == Some(
            catalog@[at].package_dir@,
        )
        &&& catalog@[at].latest_version == versions[order[at]]
    } by {
        let next = order[at];
        assert(catalog@[at] == tools[next]);
        assert(is_tool_of(items[next], versions[next], tools[next]));
        assert(is_item_at(platform, packages, places[next], items[next]));
    }
    (places, order)
}

/// Every binary to install stands in the catalog, under its names and with its manifest.
pub proof fn law_every_binary_is_in_the_catalog(
    platform: Platform,
    packages: Seq<CargoPackage>,
    versions: Seq<ToolVersion>,
    catalog: Vec<RepoTool>,
    package: int,
    target: int,
) -> (at: int)
    requires
        is_catalog_step(platform, packages, versions, CatalogStep::Done(catalog)),
        is_tool_place(packages, (package, target)),
    ensures
        0 <= at < catalog@.len(),
        catalog@[at].package_name@ == packages[package].name@,
        catalog@[at].binary_name@ == packages[package].targets@[target].name@,
        catalog@[at].manifest_path@ == packages[package].manifest_path@,
{
    let (places, order) = law_catalog_is_complete(platform, packages, versions, catalog);
    assert(places.contains((package, target)));
    let next = choose|next: int| 0 <= next < places.len() && places[next] == (package, target);
    assert(order.contains(next));
    choose|at: int| 0 <= at < order.len() && order[at] == next
}

/// The catalog is sorted by the first character in which the names of the binaries differ.
pub proof fn law_catalog_names_ascend(
    platform: Platform,
    packages: Seq<CargoPackage>,
    versions: Seq<ToolVersion>,
    catalog: Vec<RepoTool>,
    left: int,
    right: int,
)
    requires
        is_catalog_step(platform, packages, versions, CatalogStep::Done(catalog)),
        0 <= left < right < catalog@.len(),
    ensures
        catalog@[left].binary_name@ == catalog@[right].binary_name@ || exists|at: int|
            is_smaller_at(catalog@[left].binary_name@, catalog@[right].binary_name@, at),
{
    law_catalog_is_sorted(platform, packages, versions, catalog, left, right);
    law_first_difference_decides(catalog@[left].binary_name@, catalog@[right].binary_name@);
}

/// Versions are read one by one: as many binaries as there are versions come first, and the next
/// directory is that of the binary behind them. Up to its package every manifest has a directory.
pub proof fn law_next_version_is_read(
    platform: Platform,
    packages: Seq<CargoPackage>,
    versions: Seq<ToolVersion>,
    directory: String,
) -> (found: (Seq<(int, int)>, (int, int)))
    requires
        is_catalog_step(platform, packages, versions, CatalogStep::Read(directory)),
    ensures
        ({
            let (places, next) = found;
            &&& places.len() == versions.len()
            &&& places_ascend(places)
            &&& is_tool_place(packages, next)
            &&& parent_of(platform, packages[next.0].manifest_path@) == Some(directory@)
            &&& forall|place: (int, int)|
                places.contains(place) <==> #[trigger] is_tool_place(packages, place)
                    && is_earlier_place(place, next)
            &&& forall|package: int|
                0 <= package <= next.0 && is_offered_name((#[trigger] packages[package]).name@)
                    ==> parent_of(platform, packages[package].manifest_path@) is Some
        }),
{
    let items = found_items(platform, packages);
    let step = CatalogStep::Read(directory);
    let tools = choose|tools: Seq<RepoTool>| is_step_after(items, versions, tools, step);
    let all = lemma_item_places(platform, packages);
    let count = tools.len() as int;
    let next = all[count];
    assert(is_item_at(platform, packages, all[count], items[count]));
    let places = all.take(count);
    assert forall|package: int|
        0 <= package <= next.0 && is_offered_name(
            (#[trigger] packages[package]).name@,
        ) implies parent_of(platform, packages[package].manifest_path@) is Some by {
        if parent_of(platform, packages[package].manifest_path@) is None {
            let stray = (package, -1int);
            assert(has_item(platform, packages, stray));
            let at = choose|at: int| 0 <= at < all.len() && all[at] == stray;
            if at > count {
                assert(is_earlier_place(all[count], all[at]));
            } else if at < count {
                assert(is_item_at(platform, packages, all[at], items[at]));
                assert(is_tool_of(items[at], versions[at], tools[at]));
            }
        }
    }
    assert forall|place: (int, int)|
        places.contains(place) <==> #[trigger] is_tool_place(packages, place) && is_earlier_place(
            place,
            next,
        ) by {
        if places.contains(place) {
            let at = choose|at: int| 0 <= at < places.len() && places[at] == place;
            assert(all[at] == place);
            assert(is_earlier_place(all[at], all[count]));
            assert(is_item_at(platform, packages, all[at], items[at]));
            assert(is_tool_of(items[at], versions[at], tools[at]));
        }
        if is_tool_place(packages, place) && is_earlier_place(place, next) {
            assert(is_offered_name(packages[place.0].name@));
            assert(has_item(platform, packages, place));
            let at = choose|at: int| 0 <= at < all.len() && all[at] == place;
            if at > count {
                assert(is_earlier_place(all[count], all[at]));
            }
            assert(places[at] == place);
        }
    }
    assert forall|left: int, right: int| 0 <= left < right < places.len() implies is_earlier_place(
        #[trigger] places[left],
        #[trigger] places[right],
    ) by {
        assert(places[left] == all[left] && places[right] == all[right]);
    }
    (places, next)
}

/// Making the catalog fails only at a package to install from whose manifest has no directory, the
/// first of that kind, when the versions of all binaries before it were read.
pub proof fn law_catalog_fails_at_a_stray_manifest(
    platform: Platform,
    packages: Seq<CargoPackage>,
    versions: Seq<ToolVersion>,
    error: CatalogError,
) -> (found: (Seq<(int, int)>, int))
    requires
        is_catalog_step(platform, packages, versions, CatalogStep::Failed(error)),
    ensures
        ({
            let (places, package) = found;
            &&& is_stray_place(platform, packages, (package, -1))
            &&& error matches CatalogError::NoParent(path)
            &&& path@ == packages[package].manifest_path@
            &&& places.len() <= versions.len()
            &&& places_ascend(places)
            &&& forall|place: (int, int)|
                places.contains(place) <==> #[trigger] is_tool_place(packages, place) && place.0
                    < package
            &&& forall|before: int|
                0 <= before < package && is_offered_name((#[trigger] packages[before]).name@)
                    ==> parent_of(platform, packages[before].manifest_path@) is Some
        }),
{
    let items = found_items(platform, packages);
    let step = CatalogStep::Failed(error);
    let tools = choose|tools: Seq<RepoTool>| is_step_after(items, versions, tools, step);
    let all = lemma_item_places(platform, packages);
    let count = tools.len() as int;
    let next = all[count];
    assert(is_item_at(platform, packages, all[count], items[count]));
    let places = all.take(count);
    assert forall|package: int|
        0 <= package < next.0 && is_offered_name(
            (#[trigger] packages[package]).name@,
        ) implies parent_of(platform, packages[package].manifest_path@) is Some by {
        if parent_of(platform, packages[package].manifest_path@) is None {
            let stray = (package, -1int);
            assert(has_item(platform, packages, stray));
            let at = choose|at: int| 0 <= at < all.len() && all[at] == stray;
            if at > count {
                assert(is_earlier_place(all[count], all[at]));
            } else if at < count {
                assert(is_item_at(platform, packages, all[at], items[at]));
                assert(is_tool_of(items[at], versions[at], tools[at]));
            }
        }
    }
    assert forall|place: (int, int)|
        places.contains(place) <==> #[trigger] is_tool_place(packages, place) && place.0
            < next.0 by {
        if places.contains(place) {
            let at = choose|at: int| 0 <= at < places.len() && places[at] == place;
            assert(all[at] == place);
            assert(is_earlier_place(all[at], all[count]));
            assert(is_item_at(platform, packages, all[at], items[at]));
            assert(is_tool_of(items[at], versions[at], tools[at]));
        }
        if is_tool_place(packages, place) && place.0 < next.0 {
            assert(is_offered_name(packages[place.0].name@));
            assert(has_item(platform, packages, place));
            let at = choose|at: int| 0 <= at < all.len() && all[at] == place;
            if at > count {
                assert(is_earlier_place(all[count], all[at]));
            }
            assert(places[at] == place);
        }
    }
    assert forall|left: int, right: int| 0 <= left < right < places.len() implies is_earlier_place(
        #[trigger] places[left],
        #[trigger] places[right],
    ) by {
        assert(places[left] == all[left] && places[right] == all[right]);
    }
    (places, next.0)
}

/// An error names the path or the tool that it is about.
pub proof fn law_errors_name_their_subject(error: CatalogError)
    ensures
        ({
            let text = error.text();
            match error {
                CatalogError::NoParent(path) => holds_part(text, path@),
                CatalogError::UnknownTool(name) => holds_part(text, name@),
                _ => true,
            }
        }),
{
    let text = error.text();
    match error {
        CatalogError::NoParent(path) => {
            let front = Seq::<char>::empty();
            let back = " does not have a parent directory"@;
            assert(text =~= front + path@ + back);
            lemma_part_is_held(front, path@, back);
        },
        CatalogError::UnknownTool(name) => {
            let front = "unknown tool '"@;
            let back = "'"@;
            assert(text =~= front + name@ + back);
            lemma_part_is_held(front, name@, back);
        },
        _ => {},
    }
}

} // verus!
