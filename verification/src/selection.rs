//! Choosing what to install, and at which version.

use vstd::prelude::*;

use crate::ascii::{is_same_lowered, law_same_in_either_case, same_lowered};
use crate::catalog::{copy_tools, CatalogError, RepoTool, Selection};
use crate::digits::{decimal, decimal_of};
use crate::text::{concat, holds_part, lemma_part_is_held, owned, views};
use crate::tool_versions::{short_commit, short_of, ToolVersion};

verus! {

/// Where the version to install comes from.
#[derive(Debug, PartialEq, Eq)]
pub enum VersionChoice {
    /// Resolve this reference.
    Resolve(String),
    /// Let the user select.
    Ask,
    Take(ToolVersion),
}

/// Whether a name stands for all tools.
pub open spec fn is_all(name: Seq<char>) -> bool {
    same_lowered(name, "all"@)
}

/// Whether a name stands for all tools.
pub fn is_all_target(tool_name: &str) -> (answer: bool)
    ensures
        answer == is_all(tool_name@),
{
    is_same_lowered(tool_name, "all")
}

/// The first tool of a name, in either case.
pub open spec fn tool_named(catalog: Seq<RepoTool>, name: Seq<char>) -> Option<RepoTool>
    decreases catalog.len(),
{
    if catalog.len() == 0 {
        None
    } else if same_lowered(catalog[0].binary_name@, name) {
        Some(catalog[0])
    } else {
        tool_named(catalog.drop_first(), name)
    }
}

/// Whether choosing a tool by its name has this result.
pub open spec fn is_named_result(
    catalog: Seq<RepoTool>,
    name: Seq<char>,
    result: Result<RepoTool, CatalogError>,
) -> bool {
    if is_all(name) {
        result == Err::<RepoTool, CatalogError>(CatalogError::AllIsManyTools)
    } else {
        match tool_named(catalog, name) {
            Some(tool) => result == Ok::<RepoTool, CatalogError>(tool),
            None => {
                &&& result matches Err(CatalogError::UnknownTool(text))
                &&& text@ == name
            },
        }
    }
}

/// Finds the tool of a name; `all` is none.
pub fn select_named_tool(catalog: &Vec<RepoTool>, tool_name: &str) -> (result: Result<
    RepoTool,
    CatalogError,
>)
    ensures
        is_named_result(catalog@, tool_name@, result),
{
    if is_all_target(tool_name) {
        return Err(CatalogError::AllIsManyTools);
    }
    let mut at: usize = 0;
    assert(catalog@.skip(0) =~= catalog@);
    while at < catalog.len()
        invariant
            !is_all(tool_name@),
            at <= catalog@.len(),
            tool_named(catalog@, tool_name@) == tool_named(catalog@.skip(at as int), tool_name@),
        decreases catalog@.len() - at,
    {
        assert(catalog@.skip(at as int)[0] == catalog@[at as int]);
        assert(catalog@.skip(at as int).drop_first() =~= catalog@.skip(at + 1));
        if is_same_lowered(catalog[at].binary_name.as_str(), tool_name) {
            return Ok(catalog[at].clone());
        }
        at += 1;
    }
    Err(CatalogError::UnknownTool(owned(tool_name)))
}

/// Finds the tool of a name in the catalog.
pub fn find_tool(catalog: &Vec<RepoTool>, tool_name: &str) -> (result: Result<
    RepoTool,
    CatalogError,
>)
    ensures
        is_named_result(catalog@, tool_name@, result),
{
    select_named_tool(catalog, tool_name)
}

/// Whether a name is among others, in either case.
pub open spec fn is_repeated(names: Seq<Seq<char>>, name: Seq<char>) -> bool {
    exists|at: int| 0 <= at < names.len() && same_lowered(#[trigger] names[at], name)
}

/// The names without those that came before in either case.
pub open spec fn distinct_names(names: Seq<Seq<char>>) -> Seq<Seq<char>>
    decreases names.len(),
{
    if names.len() == 0 {
        Seq::empty()
    } else {
        let before = distinct_names(names.drop_last());
        if is_repeated(names.drop_last(), names.last()) {
            before
        } else {
            before.push(names.last())
        }
    }
}

/// Whether one of the names stands for all tools.
pub open spec fn names_all(names: Seq<Seq<char>>) -> bool {
    exists|at: int| 0 <= at < names.len() && is_all(#[trigger] names[at])
}

/// Whether `tools` are the tools of the names, one for each.
pub open spec fn are_named(
    catalog: Seq<RepoTool>,
    names: Seq<Seq<char>>,
    tools: Seq<RepoTool>,
) -> bool {
    &&& tools.len() == names.len()
    &&& forall|at: int|
        0 <= at < names.len() ==> tool_named(catalog, #[trigger] names[at]) == Some(tools[at])
}

/// Whether `name` is the first of the names that no tool has.
pub open spec fn is_first_unknown(
    catalog: Seq<RepoTool>,
    names: Seq<Seq<char>>,
    at: int,
    name: Seq<char>,
) -> bool {
    &&& 0 <= at < names.len()
    &&& names[at] == name
    &&& tool_named(catalog, name) is None
    &&& forall|before: int|
        0 <= before < at ==> tool_named(catalog, #[trigger] names[before]) is Some
}

/// Whether choosing the tools to install has this result: the user selects where no name is given,
/// `all` among the names stands for the whole catalog, and a name counts once.
pub open spec fn is_selection(
    catalog: Seq<RepoTool>,
    names: Seq<Seq<char>>,
    result: Result<Selection, CatalogError>,
) -> bool {
    if catalog.len() == 0 {
        result == Err::<Selection, CatalogError>(CatalogError::EmptyCatalog)
    } else if names.len() == 0 {
        result == Ok::<Selection, CatalogError>(Selection::Ask)
    } else if names_all(names) {
        result matches Ok(Selection::Tools(tools)) && tools@ == catalog
    } else {
        match result {
            Ok(selection) => selection matches Selection::Tools(tools) && are_named(
                catalog,
                distinct_names(names),
                tools@,
            ),
            Err(error) => {
                &&& error matches CatalogError::UnknownTool(name)
                &&& exists|at: int| is_first_unknown(catalog, distinct_names(names), at, name@)
            },
        }
    }
}

/// Whether one of the names stands for all tools.
fn has_all_target(tool_names: &Vec<String>) -> (answer: bool)
    ensures
        answer == names_all(views(tool_names@)),
{
    let mut at: usize = 0;
    let ghost names = views(tool_names@);
    while at < tool_names.len()
        invariant
            at <= tool_names@.len(),
            names == views(tool_names@),
            forall|before: int| 0 <= before < at ==> !is_all(#[trigger] names[before]),
        decreases tool_names@.len() - at,
    {
        assert(names[at as int] == tool_names@[at as int]@);
        if is_all_target(tool_names[at].as_str()) {
            assert(is_all(names[at as int]));
            return true;
        }
        at += 1;
    }
    false
}

/// Whether the name at `place` came before in either case.
fn came_before(tool_names: &Vec<String>, place: usize) -> (answer: bool)
    requires
        place < tool_names@.len(),
    ensures
        answer == is_repeated(views(tool_names@).take(place as int), tool_names@[place as int]@),
{
    let mut at: usize = 0;
    let ghost names = views(tool_names@).take(place as int);
    let ghost name = tool_names@[place as int]@;
    while at < place
        invariant
            at <= place < tool_names@.len(),
            names == views(tool_names@).take(place as int),
            name == tool_names@[place as int]@,
            forall|before: int|
                0 <= before < at ==> !same_lowered(#[trigger] names[before], name),
        decreases place - at,
    {
        assert(names[at as int] == tool_names@[at as int]@);
        if is_same_lowered(tool_names[at].as_str(), tool_names[place].as_str()) {
            assert(same_lowered(names[at as int], name));
            return true;
        }
        at += 1;
    }
    false
}

/// Names that come later leave the distinct ones before them in place.
proof fn lemma_distinct_grow(names: Seq<Seq<char>>, count: int)
    requires
        0 <= count <= names.len(),
    ensures
        distinct_names(names.take(count)).is_prefix_of(distinct_names(names)),
    decreases names.len(),
{
    if count < names.len() {
        let rest = names.drop_last();
        lemma_distinct_grow(rest, count);
        assert(rest.take(count) =~= names.take(count));
        let less = distinct_names(names.take(count));
        let middle = distinct_names(rest);
        assert(less =~= distinct_names(names).subrange(0, less.len() as int)) by {
            assert(less =~= middle.subrange(0, less.len() as int));
        }
    } else {
        assert(names.take(count) =~= names);
        let all = distinct_names(names);
        assert(all =~= all.subrange(0, all.len() as int));
    }
}

/// A name that is kept is one of the names.
proof fn lemma_distinct_are_names(names: Seq<Seq<char>>, at: int)
    requires
        0 <= at < distinct_names(names).len(),
    ensures
        names.contains(distinct_names(names)[at]),
    decreases names.len(),
{
    let rest = names.drop_last();
    let before = distinct_names(rest);
    if at < before.len() {
        lemma_distinct_are_names(rest, at);
        let place = choose|place: int| 0 <= place < rest.len() && rest[place] == before[at];
        assert(names[place] == before[at]);
    } else {
        assert(names[names.len() - 1] == names.last());
    }
}

/// Chooses the tools to install.
pub fn select_install_tools(catalog: &Vec<RepoTool>, tool_names: &Vec<String>) -> (result: Result<
    Selection,
    CatalogError,
>)
    ensures
        is_selection(catalog@, views(tool_names@), result),
{
    if catalog.len() == 0 {
        return Err(CatalogError::EmptyCatalog);
    }
    if tool_names.len() == 0 {
        return Ok(Selection::Ask);
    }
    if has_all_target(tool_names) {
        return Ok(Selection::Tools(copy_tools(catalog)));
    }
    let ghost names = views(tool_names@);
    let ghost all = distinct_names(names);
    let mut selected: Vec<RepoTool> = Vec::new();
    let mut at: usize = 0;
    assert(names.take(0) =~= Seq::<Seq<char>>::empty());
    while at < tool_names.len()
        invariant
            at <= tool_names@.len(),
            catalog@.len() > 0,
            tool_names@.len() > 0,
            names == views(tool_names@),
            all == distinct_names(names),
            !names_all(names),
            are_named(catalog@, distinct_names(names.take(at as int)), selected@),
        decreases tool_names@.len() - at,
    {
        let ghost known = distinct_names(names.take(at as int));
        let ghost longer = names.take(at + 1);
        proof {
            assert(longer.drop_last() =~= names.take(at as int));
            assert(longer.last() == tool_names@[at as int]@);
            assert(names[at as int] == tool_names@[at as int]@);
            assert(!is_all(names[at as int]));
        }
        if !came_before(tool_names, at) {
            match select_named_tool(catalog, tool_names[at].as_str()) {
                Ok(tool) => {
                    let ghost earlier = selected@;
                    selected.push(tool);
                    assert forall|place: int|
                        0 <= place < distinct_names(longer).len() implies tool_named(
                        catalog@,
                        #[trigger] distinct_names(longer)[place],
                    ) == Some(selected@[place]) by {
                        if place < known.len() {
                            assert(distinct_names(longer)[place] == known[place]);
                            assert(selected@[place] == earlier[place]);
                        }
                    }
                },
                Err(error) => {
                    proof {
                        lemma_distinct_grow(names, at + 1);
                        let grown = distinct_names(longer);
                        assert(grown == all.subrange(0, grown.len() as int));
                        assert(all[known.len() as int] == grown[known.len() as int]);
                        assert forall|before: int| 0 <= before < known.len() implies tool_named(
                            catalog@,
                            #[trigger] all[before],
                        ) is Some by {
                            assert(all[before] == grown[before]);
                            assert(grown[before] == known[before]);
                        }
                        assert(is_first_unknown(
                            catalog@,
                            all,
                            known.len() as int,
                            tool_names@[at as int]@,
                        ));
                    }
                    return Err(error);
                },
            }
        }
        at += 1;
    }
    assert(names.take(at as int) =~= names);
    Ok(Selection::Tools(selected))
}

/// No tool is selected twice by its names, in whatever case they are written.
pub proof fn law_names_count_once(names: Seq<Seq<char>>, left: int, right: int)
    requires
        0 <= left < right < distinct_names(names).len(),
    ensures
        !same_lowered(distinct_names(names)[left], distinct_names(names)[right]),
    decreases names.len(),
{
    let rest = names.drop_last();
    let before = distinct_names(rest);
    if right < before.len() {
        law_names_count_once(rest, left, right);
    } else {
        lemma_distinct_are_names(rest, left);
        let place = choose|place: int| 0 <= place < rest.len() && rest[place] == before[left];
        if same_lowered(before[left], names.last()) {
            assert(same_lowered(rest[place], names.last()));
        }
    }
}

/// Every name is kept in some case.
pub proof fn law_no_name_is_lost(names: Seq<Seq<char>>, at: int)
    requires
        0 <= at < names.len(),
    ensures
        is_repeated(distinct_names(names), names[at]),
    decreases names.len(),
{
    let rest = names.drop_last();
    let before = distinct_names(rest);
    let all = distinct_names(names);
    if at < rest.len() {
        law_no_name_is_lost(rest, at);
        let place = choose|place: int|
            0 <= place < before.len() && same_lowered(#[trigger] before[place], rest[at]);
        assert(all[place] == before[place]);
        assert(same_lowered(all[place], names[at]));
    } else if is_repeated(rest, names.last()) {
        let first = choose|first: int|
            0 <= first < rest.len() && same_lowered(#[trigger] rest[first], names.last());
        law_no_name_is_lost(rest, first);
        let place = choose|place: int|
            0 <= place < before.len() && same_lowered(#[trigger] before[place], rest[first]);
        assert(same_lowered(all[place], names[at]));
    } else {
        assert(same_lowered(all[all.len() - 1], names[at]));
    }
}

/// A tool is found under its name in either case, and what is found has the name.
pub proof fn law_tools_are_found_in_either_case(
    catalog: Seq<RepoTool>,
    name: Seq<char>,
    other: Seq<char>,
)
    requires
        same_lowered(name, other),
    ensures
        tool_named(catalog, name) == tool_named(catalog, other),
        tool_named(catalog, name) matches Some(tool) ==> same_lowered(tool.binary_name@, name)
            && catalog.contains(tool),
    decreases catalog.len(),
{
    if catalog.len() > 0 {
        let rest = catalog.drop_first();
        law_tools_are_found_in_either_case(rest, name, other);
        assert(catalog.contains(catalog[0]));
        if let Some(tool) = tool_named(rest, name) {
            let place = choose|place: int| 0 <= place < rest.len() && rest[place] == tool;
            assert(catalog[place + 1] == tool);
        }
    }
}

/// The line under which a tool is offered.
pub open spec fn tool_label(tool: RepoTool) -> Seq<char> {
    tool.binary_name@ + "  "@ + short_of(tool.latest_version.commit@)->Some_0 + "  "@
        + tool.latest_version.commit_date@ + "  "@ + tool.package_name@
}

/// The line under which a tool is offered.
pub fn format_tool_option(tool: &RepoTool) -> (label: String)
    requires
        short_of(tool.latest_version.commit@) is Some,
    ensures
        label@ == tool_label(*tool),
{
    let mut label = concat(tool.binary_name.as_str(), "  ");
    label.append(short_commit(tool.latest_version.commit.as_str()).as_str());
    label.append("  ");
    label.append(tool.latest_version.commit_date.as_str());
    label.append("  ");
    label.append(tool.package_name.as_str());
    label
}

/// The lines that are offered: one for all tools, then one for each.
pub fn tool_options(catalog: &Vec<RepoTool>) -> (labels: Vec<String>)
    requires
        forall|at: int|
            0 <= at < catalog@.len() ==> short_of(
                (#[trigger] catalog@[at]).latest_version.commit@,
            ) is Some,
    ensures
        labels@.len() == catalog@.len() + 1,
        labels@[0]@ == "all tools ["@ + decimal(catalog@.len()) + " available]"@,
        forall|at: int|
            0 <= at < catalog@.len() ==> labels@[at + 1]@ == tool_label(#[trigger] catalog@[at]),
{
    let mut first = concat("all tools [", decimal_of(catalog.len() as u64).as_str());
    first.append(" available]");
    let mut labels: Vec<String> = Vec::new();
    labels.push(first);
    let mut at: usize = 0;
    while at < catalog.len()
        invariant
            at <= catalog@.len(),
            labels@.len() == at + 1,
            labels@[0] == first,
            forall|at: int|
                0 <= at < catalog@.len() ==> short_of(
                    (#[trigger] catalog@[at]).latest_version.commit@,
                ) is Some,
            forall|done: int|
                0 <= done < at ==> labels@[done + 1]@ == tool_label(#[trigger] catalog@[done]),
        decreases catalog@.len() - at,
    {
        labels.push(format_tool_option(&catalog[at]));
        at += 1;
    }
    labels
}

/// Whether this is what the user selected out of the lines that were offered: nothing is an error,
/// and the first line stands for all tools.
pub open spec fn is_choice(
    catalog: Seq<RepoTool>,
    selections: Seq<usize>,
    result: Result<Vec<RepoTool>, CatalogError>,
) -> bool {
    if selections.len() == 0 {
        result == Err::<Vec<RepoTool>, CatalogError>(CatalogError::NothingSelected)
    } else if selections.contains(0) {
        result matches Ok(tools) && tools@ == catalog
    } else {
        result matches Ok(tools) && tools@ == selections.map_values(
            |place: usize| catalog[place - 1],
        )
    }
}

/// The tools that the user selected out of the lines that were offered.
pub fn selected_tools(catalog: &Vec<RepoTool>, selections: &Vec<usize>) -> (result: Result<
    Vec<RepoTool>,
    CatalogError,
>)
    requires
        forall|at: int|
            0 <= at < selections@.len() ==> #[trigger] selections@[at] <= catalog@.len(),
    ensures
        is_choice(catalog@, selections@, result),
{
    if selections.len() == 0 {
        return Err(CatalogError::NothingSelected);
    }
    let ghost chosen = selections@.map_values(|place: usize| catalog@[place - 1]);
    let mut tools: Vec<RepoTool> = Vec::new();
    let mut at: usize = 0;
    while at < selections.len()
        invariant
            at <= selections@.len(),
            selections@.len() > 0,
            chosen == selections@.map_values(|place: usize| catalog@[place - 1]),
            tools@ == chosen.take(at as int),
            forall|before: int| 0 <= before < at ==> #[trigger] selections@[before] != 0,
            forall|at: int|
                0 <= at < selections@.len() ==> #[trigger] selections@[at] <= catalog@.len(),
        decreases selections@.len() - at,
    {
        let place: usize = selections[at];
        if place == 0 {
            assert(selections@.contains(0));
            return Ok(copy_tools(catalog));
        }
        tools.push(catalog[place - 1].clone());
        at += 1;
        assert(tools@ =~= chosen.take(at as int));
    }
    assert(chosen.take(at as int) =~= chosen);
    assert(!selections@.contains(0));
    Ok(tools)
}

/// Whether this is where the version to install comes from: a reference that was given, the user,
/// or the latest one.
pub open spec fn is_version_choice(
    tool: RepoTool,
    version: Option<&str>,
    select_version: bool,
    choice: VersionChoice,
) -> bool {
    match version {
        Some(reference) => choice matches VersionChoice::Resolve(text) && text@ == reference@,
        None => if select_version {
            choice == VersionChoice::Ask
        } else {
            choice == VersionChoice::Take(tool.latest_version)
        },
    }
}

/// Where the version to install comes from.
pub fn select_install_version(
    tool: &RepoTool,
    version: Option<&str>,
    select_version: bool,
) -> (choice: VersionChoice)
    ensures
        is_version_choice(*tool, version, select_version, choice),
{
    match version {
        Some(reference) => VersionChoice::Resolve(owned(reference)),
        None => {
            if select_version {
                VersionChoice::Ask
            } else {
                VersionChoice::Take(tool.latest_version.clone())
            }
        },
    }
}

/// Refuses to let the user select a version for more than one tool.
pub fn check_version_selection(count: usize, select_version: bool) -> (result: Result<
    (),
    CatalogError,
>)
    ensures
        result == (if count > 1 && select_version {
            Err::<(), CatalogError>(CatalogError::ManyVersionsToSelect)
        } else {
            Ok(())
        }),
{
    if count > 1 && select_version {
        Err(CatalogError::ManyVersionsToSelect)
    } else {
        Ok(())
    }
}

/// A name stands for the first tool in the catalog whose binary has it, in either case, and for
/// none exactly where no binary has it.
pub proof fn law_first_tool_of_the_name_is_meant(
    catalog: Seq<RepoTool>,
    name: Seq<char>,
) -> (at: int)
    ensures
        match tool_named(catalog, name) {
            Some(tool) => {
                &&& 0 <= at < catalog.len()
                &&& catalog[at] == tool
                &&& same_lowered(tool.binary_name@, name)
                &&& forall|before: int|
                    0 <= before < at ==> !same_lowered(
                        (#[trigger] catalog[before]).binary_name@,
                        name,
                    )
            },
            None => forall|other: int|
                0 <= other < catalog.len() ==> !same_lowered(
                    (#[trigger] catalog[other]).binary_name@,
                    name,
                ),
        },
    decreases catalog.len(),
{
    if catalog.len() == 0 || same_lowered(catalog[0].binary_name@, name) {
        0
    } else {
        let rest = catalog.drop_first();
        let at = law_first_tool_of_the_name_is_meant(rest, name);
        assert forall|other: int|
            0 < other < catalog.len() && !same_lowered(
                rest[other - 1].binary_name@,
                name,
            ) implies !same_lowered((#[trigger] catalog[other]).binary_name@, name) by {}
        at + 1
    }
}

/// `all` is that word, in either case.
pub proof fn law_all_is_its_word(name: Seq<char>)
    ensures
        is_all(name) <==> name.len() == 3 && (name[0] == 'a' || name[0] == 'A') && (name[1] == 'l'
            || name[1] == 'L') && (name[2] == 'l' || name[2] == 'L'),
{
    reveal_strlit("all");
    let word = "all"@;
    assert(word.len() == 3 && word[0] == 'a' && word[1] == 'l' && word[2] == 'l');
    law_same_in_either_case(name, word);
    if name.len() == 3 {
        assert forall|at: int| 0 <= at < 3 implies ({
            ||| #[trigger] name[at] == word[at]
            ||| 'A' <= name[at] <= 'Z' && word[at] as int == name[at] as int + 32
            ||| 'A' <= word[at] <= 'Z' && name[at] as int == word[at] as int + 32
        } <==> if at == 0 {
            name[at] == 'a' || name[at] == 'A'
        } else {
            name[at] == 'l' || name[at] == 'L'
        }) by {
            assert(name[at] as int == 'A' as int ==> name[at] == 'A');
            assert(name[at] as int == 'L' as int ==> name[at] == 'L');
        }
    }
}

/// The names that count are the first of each, in their order: each has its place, the places
/// ascend, and a place is among them exactly where no earlier name is the same in either case.
pub proof fn law_first_of_each_name_counts(names: Seq<Seq<char>>) -> (places: Seq<int>)
    ensures
        places.len() == distinct_names(names).len(),
        forall|left: int, right: int|
            0 <= left < right < places.len() ==> #[trigger] places[left] < #[trigger] places[right],
        forall|at: int|
            0 <= at < places.len() ==> 0 <= #[trigger] places[at] < names.len()
                && names[places[at]] == distinct_names(names)[at],
        forall|place: int|
            0 <= place < names.len() ==> (#[trigger] places.contains(place) <==> forall|before: int|
                0 <= before < place ==> !same_lowered(#[trigger] names[before], names[place])),
    decreases names.len(),
{
    if names.len() == 0 {
        Seq::empty()
    } else {
        let rest = names.drop_last();
        let before = law_first_of_each_name_counts(rest);
        let last = names.len() - 1;
        let earlier = distinct_names(rest);
        let all = distinct_names(names);
        let places = if is_repeated(rest, names.last()) {
            before
        } else {
            before.push(last)
        };
        assert forall|at: int| 0 <= at < places.len() implies 0 <= #[trigger] places[at]
            < names.len() && names[places[at]] == all[at] by {
            if at < before.len() {
                assert(places[at] == before[at]);
                assert(all[at] == earlier[at]);
                assert(names[before[at]] == rest[before[at]]);
            }
        }
        assert forall|left: int, right: int| 0 <= left < right < places.len() implies
            #[trigger] places[left] < #[trigger] places[right] by {
            assert(places[left] == before[left]);
            if right < before.len() {
                assert(places[right] == before[right]);
            }
        }
        assert forall|place: int| 0 <= place < names.len() implies (#[trigger] places.contains(place)
            <==> forall|before: int|
            0 <= before < place ==> !same_lowered(#[trigger] names[before], names[place])) by {
            if place < last {
                assert(names[place] == rest[place]);
                assert(before.contains(place) <==> places.contains(place)) by {
                    if before.contains(place) {
                        let at = choose|at: int| 0 <= at < before.len() && before[at] == place;
                        assert(places[at] == place);
                    }
                    if places.contains(place) {
                        let at = choose|at: int| 0 <= at < places.len() && places[at] == place;
                        assert(before[at] == place);
                    }
                }
                assert(forall|other: int|
                    0 <= other < place ==> #[trigger] names[other] == rest[other]);
            } else {
                assert(forall|other: int|
                    0 <= other < last ==> #[trigger] names[other] == rest[other]);
                if is_repeated(rest, names.last()) {
                    let at = choose|at: int|
                        0 <= at < rest.len() && same_lowered(#[trigger] rest[at], names.last());
                    assert(same_lowered(names[at], names[place]));
                    if places.contains(place) {
                        let spot = choose|spot: int|
                            0 <= spot < places.len() && places[spot] == place;
                        assert(before[spot] < rest.len());
                    }
                } else {
                    assert(places[places.len() - 1] == last);
                }
            }
        }
        places
    }
}

/// What is installed: all tools where one of the names is `all`, else the tool of each name, in
/// their order; the first name without a tool is an error.
pub proof fn law_selection_follows_the_names(
    catalog: Seq<RepoTool>,
    names: Seq<Seq<char>>,
    result: Result<Selection, CatalogError>,
)
    requires
        is_selection(catalog, names, result),
    ensures
        catalog.len() == 0 <==> result == Err::<Selection, CatalogError>(
            CatalogError::EmptyCatalog,
        ),
        catalog.len() > 0 && names.len() == 0 <==> result == Ok::<Selection, CatalogError>(
            Selection::Ask,
        ),
        catalog.len() > 0 && (exists|at: int| 0 <= at < names.len() && is_all(#[trigger] names[at]))
            ==> (result matches Ok(Selection::Tools(tools)) && tools@ == catalog),
        catalog.len() > 0 && names.len() > 0 && !(exists|at: int|
            0 <= at < names.len() && is_all(#[trigger] names[at])) ==> match result {
            Ok(Selection::Tools(tools)) => {
                let distinct = distinct_names(names);
                &&& tools@.len() == distinct.len()
                &&& forall|at: int|
                    0 <= at < tools@.len() ==> tool_named(catalog, #[trigger] distinct[at]) == Some(
                        tools@[at],
                    )
            },
            Err(CatalogError::UnknownTool(name)) => {
                let distinct = distinct_names(names);
                exists|at: int|
                    0 <= at < distinct.len() && #[trigger] distinct[at] == name@ && tool_named(
                        catalog,
                        name@,
                    ) is None && forall|before: int|
                        0 <= before < at ==> tool_named(catalog, #[trigger] distinct[before])
                            is Some
            },
            _ => false,
        },
{
    if catalog.len() > 0 && names.len() > 0 && !names_all(names) {
        if let Err(CatalogError::UnknownTool(name)) = result {
            let distinct = distinct_names(names);
            let at = choose|at: int| is_first_unknown(catalog, distinct, at, name@);
            assert(distinct[at] == name@);
        }
    }
}

/// What the user picks: entry 0 is all tools, and any other entry the tool one before it.
pub proof fn law_picked_entries_are_installed(
    catalog: Seq<RepoTool>,
    selections: Seq<usize>,
    result: Result<Vec<RepoTool>, CatalogError>,
)
    requires
        is_choice(catalog, selections, result),
    ensures
        result is Err <==> selections.len() == 0,
        result matches Err(error) ==> error is NothingSelected,
        result matches Ok(tools) ==> if exists|at: int|
            0 <= at < selections.len() && #[trigger] selections[at] == 0 {
            tools@ == catalog
        } else {
            tools@.len() == selections.len() && forall|at: int|
                0 <= at < selections.len() ==> tools@[at] == catalog[(#[trigger] selections[at])
                    - 1]
        },
{
}

/// A named version is looked up, else the user is asked where that is wanted, else the latest one
/// is taken.
pub proof fn law_version_is_named_asked_for_or_the_latest(
    tool: RepoTool,
    version: Option<&str>,
    select_version: bool,
    choice: VersionChoice,
)
    requires
        is_version_choice(tool, version, select_version, choice),
    ensures
        choice is Resolve <==> version is Some,
        choice is Ask <==> version is None && select_version,
        choice matches VersionChoice::Resolve(text) ==> text@ == version->Some_0@,
        choice matches VersionChoice::Take(taken) ==> taken == tool.latest_version,
{
}

/// A tool is found by its name unless that is `all`, which is many tools; a name without a tool is
/// repeated in the error.
pub proof fn law_named_tool_is_found(
    catalog: Seq<RepoTool>,
    name: Seq<char>,
    result: Result<RepoTool, CatalogError>,
)
    requires
        is_named_result(catalog, name, result),
    ensures
        result is Ok <==> !is_all(name) && tool_named(catalog, name) is Some,
        result matches Ok(tool) ==> tool_named(catalog, name) == Some(tool),
        result matches Err(error) ==> match error {
            CatalogError::AllIsManyTools => is_all(name),
            CatalogError::UnknownTool(text) => !is_all(name) && text@ == name,
            _ => false,
        },
{
}

/// A tool is offered by its name, and with its latest version and its package.
pub proof fn law_offer_names_the_tool(tool: RepoTool)
    ensures
        tool.binary_name@.is_prefix_of(tool_label(tool)),
        tool.package_name@.is_suffix_of(tool_label(tool)),
        holds_part(tool_label(tool), short_of(tool.latest_version.commit@)->Some_0),
        holds_part(tool_label(tool), tool.latest_version.commit_date@),
{
    let text = tool_label(tool);
    let name = tool.binary_name@;
    let short = short_of(tool.latest_version.commit@)->Some_0;
    let date = tool.latest_version.commit_date@;
    let package = tool.package_name@;
    assert(name =~= text.subrange(0, name.len() as int));
    assert(package =~= text.subrange(text.len() - package.len(), text.len() as int));
    assert(text =~= (name + "  "@) + short + ("  "@ + date + "  "@ + package));
    lemma_part_is_held(name + "  "@, short, "  "@ + date + "  "@ + package);
    assert(text =~= (name + "  "@ + short + "  "@) + date + ("  "@ + package));
    lemma_part_is_held(name + "  "@ + short + "  "@, date, "  "@ + package);
}

} // verus!
