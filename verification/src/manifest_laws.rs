//! What every rewritten manifest promises.

use vstd::prelude::*;

use crate::manifest::{
    identity_of, is_identity_result, is_rewrite_result, lemma_child_with_text, metadata_of,
    rewritten_document, rewritten_metadata, rewritten_root, NuspecError, PackageIdentity,
    RewrittenNuspec,
};
use crate::nuspec::{
    all_text, child_place, has_child, has_text, has_text_at, is_named, law_first_text_counts,
    node_text, node_with_versions, nodes_with_versions, text_of_child, with_child_text,
    with_children, with_versions,
};
use crate::spaces::trimmed;
use crate::text::{holds_part, lemma_part_is_held};
use crate::version::{rewritten_version, VersionRewrite};
use crate::xml::{ElementView, NodeView};
use crate::xml_document::{
    is_plain_element, is_plain_name, is_plain_node, is_plain_text, is_plain_value, is_read_element,
    is_read_node, is_simple_element, is_simple_node, is_simple_scope, reads_back, scope_of, settled,
    settled_node, settled_nodes, xml_document, xml_text,
};

verus! {

/// What is known of the first child of a name.
proof fn lemma_child_place_holds(children: Seq<NodeView>, name: Seq<char>)
    ensures
        0 <= child_place(children, name) <= children.len(),
        forall|before: int|
            0 <= before < child_place(children, name) ==> !is_named(
                #[trigger] children[before],
                name,
            ),
        has_child(children, name) <==> child_place(children, name) < children.len(),
        has_child(children, name) ==> is_named(children[child_place(children, name)], name),
    decreases children.len(),
{
    if children.len() > 0 && !is_named(children[0], name) {
        let rest = children.drop_first();
        let place = child_place(children, name);
        lemma_child_place_holds(rest, name);
        assert forall|before: int| 0 <= before < place implies !is_named(
            #[trigger] children[before],
            name,
        ) by {
            if before > 0 {
                assert(rest[before - 1] == children[before]);
            }
        }
        if has_child(children, name) {
            let at = choose|at: int|
                0 <= at < children.len() && is_named(#[trigger] children[at], name);
            assert(rest[at - 1] == children[at]);
            assert(has_child(rest, name));
            assert(rest[place - 1] == children[place]);
        }
        if has_child(rest, name) {
            let at = choose|at: int| 0 <= at < rest.len() && is_named(#[trigger] rest[at], name);
            assert(is_named(children[at + 1], name));
        }
    } else if children.len() > 0 {
        assert(has_child(children, name));
    }
}

/// The first child of a name can be exchanged for another of that name.
proof fn lemma_exchanged_child(children: Seq<NodeView>, name: Seq<char>, child: ElementView)
    requires
        has_child(children, name),
        child.name == name,
    ensures
        has_child(children.update(child_place(children, name), NodeView::Element(child)), name),
        child_place(children.update(child_place(children, name), NodeView::Element(child)), name)
            == child_place(children, name),
{
    let place = child_place(children, name);
    let changed = children.update(place, NodeView::Element(child));
    lemma_child_place_holds(children, name);
    lemma_child_place_holds(changed, name);
    let found = child_place(changed, name);
    assert(is_named(changed[place], name));
    if found < place {
        assert(changed[found] == children[found]);
    }
    if found > place {
        assert(!is_named(changed[place], name));
    }
}

/// The exchanged child is the one whose text is found, if it has any.
proof fn lemma_exchanged_text(children: Seq<NodeView>, name: Seq<char>, child: ElementView)
    requires
        has_child(children, name),
        child.name == name,
        has_text(child.children),
    ensures
        text_of_child(
            children.update(child_place(children, name), NodeView::Element(child)),
            name,
        ) == Some(trimmed(all_text(child.children))),
    decreases children.len(),
{
    lemma_child_place_holds(children, name);
    let place = child_place(children, name);
    let changed = children.update(place, NodeView::Element(child));
    if place > 0 {
        let rest = children.drop_first();
        lemma_child_place_holds(rest, name);
        lemma_exchanged_text(rest, name, child);
        assert(changed.drop_first() =~= rest.update(place - 1, NodeView::Element(child)));
        assert(changed[0] == children[0]);
    }
}

/// Exchanging a child leaves the text of children of another name alone.
proof fn lemma_other_text(
    children: Seq<NodeView>,
    at: int,
    child: ElementView,
    name: Seq<char>,
    other: Seq<char>,
)
    requires
        0 <= at < children.len(),
        is_named(children[at], name),
        child.name == name,
        name != other,
    ensures
        text_of_child(children.update(at, NodeView::Element(child)), other) == text_of_child(
            children,
            other,
        ),
    decreases children.len(),
{
    let changed = children.update(at, NodeView::Element(child));
    let rest = children.drop_first();
    if at > 0 {
        lemma_other_text(rest, at - 1, child, name, other);
        assert(changed.drop_first() =~= rest.update(at - 1, NodeView::Element(child)));
        assert(changed[0] == children[0]);
    } else {
        assert(changed.drop_first() =~= rest);
    }
}

/// Following other versions leaves all text alone.
proof fn lemma_versions_keep_text(nodes: Seq<NodeView>, versions: Map<Seq<char>, Seq<char>>)
    ensures
        has_text(nodes_with_versions(nodes, versions)) == has_text(nodes),
        all_text(nodes_with_versions(nodes, versions)) == all_text(nodes),
    decreases nodes.len(),
{
    let changed = nodes_with_versions(nodes, versions);
    assert forall|at: int| 0 <= at < nodes.len() implies node_text(#[trigger] changed[at])
        == node_text(nodes[at]) by {}
    if has_text(nodes) {
        let at = choose|at: int| 0 <= at < nodes.len() && node_text(#[trigger] nodes[at]) is Some;
        assert(node_text(changed[at]) is Some);
    }
    if has_text(changed) {
        let at = choose|at: int|
            0 <= at < changed.len() && node_text(#[trigger] changed[at]) is Some;
        assert(node_text(nodes[at]) is Some);
    }
    if nodes.len() > 0 {
        lemma_versions_keep_text(nodes.drop_last(), versions);
        assert(changed.drop_last() =~= nodes_with_versions(nodes.drop_last(), versions));
        assert(changed.last() == changed[nodes.len() - 1]);
        assert(nodes.last() == nodes[nodes.len() - 1]);
    }
}

/// Following other versions leaves the text of every child alone.
proof fn lemma_versions_keep_child_text(
    nodes: Seq<NodeView>,
    versions: Map<Seq<char>, Seq<char>>,
    name: Seq<char>,
)
    ensures
        text_of_child(nodes_with_versions(nodes, versions), name) == text_of_child(nodes, name),
    decreases nodes.len(),
{
    let changed = nodes_with_versions(nodes, versions);
    if nodes.len() > 0 {
        let rest = nodes.drop_first();
        lemma_versions_keep_child_text(rest, versions, name);
        assert(changed.drop_first() =~= nodes_with_versions(rest, versions));
        assert(changed[0] == node_with_versions(nodes[0], versions));
        if let NodeView::Element(child) = nodes[0] {
            lemma_versions_keep_text(child.children, versions);
            assert(changed[0] == NodeView::Element(with_versions(child, versions)));
            assert(with_versions(child, versions).children == nodes_with_versions(
                child.children,
                versions,
            ));
        }
    }
}

/// A rewritten manifest gives its package the same id as before, and the new version without white
/// space at its ends.
pub proof fn law_rewritten_manifest_names_the_new_version(
    root: ElementView,
    version: Seq<char>,
    versions: Option<Map<Seq<char>, Seq<char>>>,
)
    requires
        identity_of(root) is Ok,
    ensures
        identity_of(rewritten_document(root, version, versions)) == Ok::<
            (Seq<char>, Seq<char>),
            NuspecError,
        >(
            (identity_of(root)->Ok_0.0, trimmed(version)),
        ),
{
    let metadata = metadata_of(root);
    let renamed = with_child_text(metadata, "version"@, version);
    let changed = rewritten_metadata(metadata, version, versions);
    lemma_child_place_holds(root.children, "metadata"@);
    lemma_child_with_text(metadata.children, "version"@);
    lemma_child_place_holds(metadata.children, "version"@);
    let place = child_place(metadata.children, "version"@);
    let old_child = metadata.children[place]->Element_0;
    let new_child = with_children(old_child, seq![NodeView::Text(version)]);
    assert(has_text(new_child.children)) by {
        assert(node_text(new_child.children[0]) is Some);
    }
    assert(all_text(new_child.children) == version) by {
        assert(new_child.children.drop_last() =~= Seq::<NodeView>::empty());
        assert(all_text(Seq::<NodeView>::empty()) =~= Seq::<char>::empty());
        assert(node_text(new_child.children.last()) == Some(version));
        assert(Seq::<char>::empty() + version =~= version);
        assert(all_text(new_child.children) =~= version);
    }
    lemma_exchanged_text(metadata.children, "version"@, new_child);
    reveal_strlit("id");
    reveal_strlit("version");
    assert("id"@.len() != "version"@.len());
    lemma_other_text(metadata.children, place, new_child, "version"@, "id"@);
    if let Some(versions) = versions {
        lemma_versions_keep_child_text(renamed.children, versions, "version"@);
        lemma_versions_keep_child_text(renamed.children, versions, "id"@);
    }
    lemma_exchanged_child(root.children, "metadata"@, changed);
}

/// White space around comments leaves all text alone.
proof fn lemma_settling_keeps_text(nodes: Seq<NodeView>)
    ensures
        has_text(settled_nodes(nodes)) == has_text(nodes),
        all_text(settled_nodes(nodes)) == all_text(nodes),
    decreases nodes.len(),
{
    let changed = settled_nodes(nodes);
    assert forall|at: int| 0 <= at < nodes.len() implies node_text(#[trigger] changed[at])
        == node_text(nodes[at]) by {}
    if has_text(nodes) {
        let at = choose|at: int| 0 <= at < nodes.len() && node_text(#[trigger] nodes[at]) is Some;
        assert(node_text(changed[at]) is Some);
    }
    if has_text(changed) {
        let at = choose|at: int|
            0 <= at < changed.len() && node_text(#[trigger] changed[at]) is Some;
        assert(node_text(nodes[at]) is Some);
    }
    if nodes.len() > 0 {
        lemma_settling_keeps_text(nodes.drop_last());
        assert(changed.drop_last() =~= settled_nodes(nodes.drop_last()));
        assert(changed.last() == changed[nodes.len() - 1]);
        assert(nodes.last() == nodes[nodes.len() - 1]);
    }
}

/// White space around comments leaves the text of every child alone.
proof fn lemma_settling_keeps_child_text(nodes: Seq<NodeView>, name: Seq<char>)
    ensures
        text_of_child(settled_nodes(nodes), name) == text_of_child(nodes, name),
    decreases nodes.len(),
{
    let changed = settled_nodes(nodes);
    if nodes.len() > 0 {
        let rest = nodes.drop_first();
        lemma_settling_keeps_child_text(rest, name);
        assert(changed.drop_first() =~= settled_nodes(rest));
        assert(changed[0] == settled_node(nodes[0]));
        if let NodeView::Element(child) = nodes[0] {
            lemma_settling_keeps_text(child.children);
            assert(changed[0] == NodeView::Element(settled(child)));
        }
    }
}

/// White space around comments leaves the identity of a package alone.
pub proof fn lemma_settling_keeps_identity(root: ElementView)
    ensures
        identity_of(settled(root)) == identity_of(root),
{
    let changed = settled(root);
    let nodes = root.children;
    assert(changed.children == settled_nodes(nodes));
    assert forall|at: int| 0 <= at < nodes.len() implies is_named(
        #[trigger] changed.children[at],
        "metadata"@,
    ) == is_named(nodes[at], "metadata"@) by {
        assert(changed.children[at] == settled_node(nodes[at]));
    }
    lemma_child_place_holds(nodes, "metadata"@);
    lemma_child_place_holds(changed.children, "metadata"@);
    let place = child_place(nodes, "metadata"@);
    let found = child_place(changed.children, "metadata"@);
    if found < place {
        assert(!is_named(nodes[found], "metadata"@));
        assert(is_named(changed.children[found], "metadata"@));
    }
    if place < found {
        assert(!is_named(changed.children[place], "metadata"@));
        assert(is_named(nodes[place], "metadata"@));
    }
    if has_child(nodes, "metadata"@) {
        let metadata = metadata_of(root);
        assert(changed.children[place] == settled_node(nodes[place]));
        assert(metadata_of(changed) == settled(metadata));
        lemma_settling_keeps_child_text(metadata.children, "id"@);
        lemma_settling_keeps_child_text(metadata.children, "version"@);
    }
}

/// Whether every version is a plain attribute value.
pub open spec fn are_plain_versions(versions: Map<Seq<char>, Seq<char>>) -> bool {
    forall|id: Seq<char>| #[trigger] versions.contains_key(id) ==> is_plain_value(versions[id])
}

/// Following plain versions keeps an element plain.
proof fn lemma_versions_keep_plain(
    element: ElementView,
    scope: Map<Seq<char>, Seq<char>>,
    versions: Map<Seq<char>, Seq<char>>,
)
    requires
        is_plain_element(element, scope),
        are_plain_versions(versions),
    ensures
        is_plain_element(with_versions(element, versions), scope),
    decreases element,
{
    let changed = with_versions(element, versions);
    reveal_strlit("version");
    reveal_strlit("xmlns");
    assert("version"@.len() != "xmlns"@.len());
    assert(is_plain_name("version"@));
    assert forall|key: Seq<char>| #[trigger] changed.attributes.contains_key(key) implies
        is_plain_name(key) && key != "xmlns"@ && is_plain_value(changed.attributes[key]) by {
        if key != "version"@ || changed.attributes == element.attributes {
            assert(element.attributes.contains_key(key));
        }
    }
    assert(changed.attributes.remove("version"@) =~= element.attributes.remove("version"@));
    assert forall|at: int| 0 <= at < changed.children.len() implies is_plain_node(
        #[trigger] changed.children[at],
        scope,
    ) by {
        assert(is_plain_node(element.children[at], scope));
        if let NodeView::Element(child) = element.children[at] {
            assert(decreases_to!(element => element.children[at]));
            lemma_versions_keep_plain(child, scope, versions);
        }
    }
    assert forall|at: int, next: int|
        0 <= at < changed.children.len() && next == at + 1 && next < changed.children.len()
            && #[trigger] changed.children[at] is Text implies !(#[trigger] changed.children[next]
        is Text) by {
        assert(element.children[at] is Text);
        assert(!(element.children[next] is Text));
    }
}

/// Exchanging a child element for a plain one keeps an element plain.
proof fn lemma_exchange_keeps_plain(
    element: ElementView,
    scope: Map<Seq<char>, Seq<char>>,
    place: int,
    child: ElementView,
)
    requires
        is_plain_element(element, scope),
        0 <= place < element.children.len(),
        element.children[place] is Element,
        is_plain_element(child, scope),
    ensures
        is_plain_element(
            with_children(element, element.children.update(place, NodeView::Element(child))),
            scope,
        ),
{
    let changed = with_children(element, element.children.update(place, NodeView::Element(child)));
    assert forall|at: int| 0 <= at < changed.children.len() implies is_plain_node(
        #[trigger] changed.children[at],
        scope,
    ) by {
        assert(is_plain_node(element.children[at], scope));
    }
    assert forall|at: int, next: int|
        0 <= at < changed.children.len() && next == at + 1 && next < changed.children.len()
            && #[trigger] changed.children[at] is Text implies !(#[trigger] changed.children[next]
        is Text) by {
        assert(element.children[at] is Text);
        assert(!(element.children[next] is Text));
    }
}

/// An element that was read, if it is simple, is plain.
proof fn lemma_simple_is_plain(element: ElementView, scope: Map<Seq<char>, Seq<char>>)
    requires
        is_read_element(element),
        is_simple_element(element, scope),
    ensures
        is_plain_element(element, scope),
    decreases element,
{
    assert forall|at: int| 0 <= at < element.children.len() implies is_plain_node(
        #[trigger] element.children[at],
        scope,
    ) by {
        assert(is_read_node(element.children[at]));
        assert(is_simple_node(element.children[at], scope));
        if let NodeView::Element(child) = element.children[at] {
            assert(decreases_to!(element => element.children[at]));
            lemma_simple_is_plain(child, scope);
        }
    }
}

/// Whether a document is made of plain names, values and characters in one scope.
pub open spec fn is_simple_document(root: ElementView) -> bool {
    is_simple_scope(scope_of(root)) && is_simple_element(root, scope_of(root))
}

/// A manifest that was read is rewritten to one that reads back, if it is simple and the new
/// version and the versions of the dependencies are plain.
pub proof fn law_simple_manifest_reads_back(
    root: ElementView,
    version: Seq<char>,
    versions: Option<Map<Seq<char>, Seq<char>>>,
)
    requires
        is_read_element(root),
        is_simple_document(root),
        identity_of(root) is Ok,
        is_plain_text(version),
        versions is Some ==> are_plain_versions(versions->Some_0),
    ensures
        reads_back(root),
        reads_back(rewritten_document(root, version, versions)),
{
    let scope = scope_of(root);
    lemma_simple_is_plain(root, scope);
    law_rewriting_keeps_a_manifest_plain(root, scope, version, versions);
}

/// A plain manifest is plain when it is rewritten, if the new version and the versions of the
/// dependencies are plain: so it is one that reads back.
pub proof fn law_rewriting_keeps_a_manifest_plain(
    root: ElementView,
    scope: Map<Seq<char>, Seq<char>>,
    version: Seq<char>,
    versions: Option<Map<Seq<char>, Seq<char>>>,
)
    requires
        identity_of(root) is Ok,
        is_plain_element(root, scope),
        is_plain_text(version),
        versions is Some ==> are_plain_versions(versions->Some_0),
    ensures
        is_plain_element(rewritten_document(root, version, versions), scope),
{
    let metadata = metadata_of(root);
    lemma_child_place_holds(root.children, "metadata"@);
    let root_place = child_place(root.children, "metadata"@);
    assert(is_plain_node(root.children[root_place], scope));
    lemma_child_with_text(metadata.children, "version"@);
    lemma_child_place_holds(metadata.children, "version"@);
    let place = child_place(metadata.children, "version"@);
    assert(is_plain_node(metadata.children[place], scope));
    let old_child = metadata.children[place]->Element_0;
    let new_child = with_children(old_child, seq![NodeView::Text(version)]);
    assert(is_plain_element(new_child, scope)) by {
        assert(is_plain_node(new_child.children[0], scope));
    }
    lemma_exchange_keeps_plain(metadata, scope, place, new_child);
    let renamed = with_child_text(metadata, "version"@, version);
    if let Some(versions) = versions {
        lemma_versions_keep_plain(renamed, scope, versions);
    }
    lemma_exchange_keeps_plain(
        root,
        scope,
        root_place,
        rewritten_metadata(metadata, version, versions),
    );
}

/// Whether the first child element called `metadata` stands at a place.
pub open spec fn is_metadata_at(root: ElementView, place: int) -> bool {
    &&& 0 <= place < root.children.len()
    &&& root.children[place] matches NodeView::Element(child) && child.name == "metadata"@
    &&& forall|before: int|
        0 <= before < place ==> !(#[trigger] root.children[before] matches NodeView::Element(child)
            && child.name == "metadata"@)
}

/// Whether the first child element called `name` with any text stands at a place.
pub open spec fn is_first_text_at(children: Seq<NodeView>, name: Seq<char>, place: int) -> bool {
    &&& 0 <= place < children.len()
    &&& has_text_at(children, name, place)
    &&& forall|before: int| 0 <= before < place ==> !#[trigger] has_text_at(children, name, before)
}

/// The place of the metadata is that of the first child element of that name.
proof fn lemma_metadata_place(root: ElementView, place: int)
    requires
        is_metadata_at(root, place),
    ensures
        has_child(root.children, "metadata"@),
        child_place(root.children, "metadata"@) == place,
{
    lemma_child_place_holds(root.children, "metadata"@);
    let found = child_place(root.children, "metadata"@);
    assert(is_named(root.children[place], "metadata"@));
    if found < place {
        assert(is_named(root.children[found], "metadata"@));
    }
    if found > place {
        assert(!is_named(root.children[place], "metadata"@));
    }
}

/// The identity of a package is the text of the first id and of the first version in its metadata,
/// with no white space around them.
pub proof fn law_identity_is_read_from_the_metadata(
    root: ElementView,
    place: int,
    id_place: int,
    version_place: int,
)
    requires
        is_metadata_at(root, place),
        is_first_text_at(root.children[place]->Element_0.children, "id"@, id_place),
        is_first_text_at(root.children[place]->Element_0.children, "version"@, version_place),
    ensures
        ({
            let children = root.children[place]->Element_0.children;
            identity_of(root) == Ok::<(Seq<char>, Seq<char>), NuspecError>(
                (
                    trimmed(all_text(children[id_place]->Element_0.children)),
                    trimmed(all_text(children[version_place]->Element_0.children)),
                ),
            )
        }),
{
    lemma_metadata_place(root, place);
    let children = root.children[place]->Element_0.children;
    law_first_text_counts(children, "id"@);
    law_first_text_counts(children, "version"@);
}

/// A manifest has no identity exactly where it has no metadata, or its metadata no text for the id
/// or for the version, and what is missing first is named.
pub proof fn law_identity_is_missing_for_a_reason(root: ElementView)
    ensures
        match identity_of(root) {
            Err(NuspecError::MissingMetadata) => forall|place: int| !is_metadata_at(root, place),
            Err(NuspecError::MissingId) => exists|place: int|
                #[trigger] is_metadata_at(root, place) && forall|at: int|
                    0 <= at < root.children[place]->Element_0.children.len()
                        ==> !#[trigger] has_text_at(
                        root.children[place]->Element_0.children,
                        "id"@,
                        at,
                    ),
            Err(NuspecError::MissingVersion) => exists|place: int|
                #[trigger] is_metadata_at(root, place) && forall|at: int|
                    0 <= at < root.children[place]->Element_0.children.len()
                        ==> !#[trigger] has_text_at(
                        root.children[place]->Element_0.children,
                        "version"@,
                        at,
                    ),
            Err(_) => false,
            Ok(_) => exists|place: int| is_metadata_at(root, place),
        },
{
    lemma_child_place_holds(root.children, "metadata"@);
    let place = child_place(root.children, "metadata"@);
    if has_child(root.children, "metadata"@) {
        assert(is_metadata_at(root, place)) by {
            assert forall|before: int| 0 <= before < place implies !(
            #[trigger] root.children[before] matches NodeView::Element(child) && child.name
                == "metadata"@) by {
                assert(!is_named(root.children[before], "metadata"@));
            }
        }
        let children = root.children[place]->Element_0.children;
        law_first_text_counts(children, "id"@);
        law_first_text_counts(children, "version"@);
    } else {
        assert forall|place: int| !is_metadata_at(root, place) by {
            if is_metadata_at(root, place) {
                assert(is_named(root.children[place], "metadata"@));
            }
        }
    }
}

/// Rewriting puts the new version into the first version element of the metadata, as its only
/// content, and lets the dependencies in the metadata follow. Nothing else changes: neither the
/// manifest around the metadata, nor what else the metadata holds.
pub proof fn law_rewriting_changes_nothing_else(
    root: ElementView,
    version: Seq<char>,
    versions: Option<Map<Seq<char>, Seq<char>>>,
    place: int,
    version_place: int,
)
    requires
        is_metadata_at(root, place),
        ({
            let children = root.children[place]->Element_0.children;
            &&& 0 <= version_place < children.len()
            &&& children[version_place] matches NodeView::Element(child) && child.name == "version"@
            &&& forall|before: int|
                0 <= before < version_place ==> !(
                #[trigger] children[before] matches NodeView::Element(child) && child.name
                    == "version"@)
        }),
    ensures
        ({
            let before = root.children[place]->Element_0;
            let document = rewritten_document(root, version, None);
            let behind = document.children[place]->Element_0;
            let old_child = before.children[version_place]->Element_0;
            &&& document == (ElementView { children: document.children, ..root })
            &&& document.children.len() == root.children.len()
            &&& forall|at: int|
                0 <= at < root.children.len() && at != place ==> #[trigger] document.children[at]
                    == root.children[at]
            &&& document.children[place] is Element
            &&& behind == (ElementView { children: behind.children, ..before })
            &&& behind.children.len() == before.children.len()
            &&& forall|at: int|
                0 <= at < before.children.len() && at != version_place
                    ==> #[trigger] behind.children[at] == before.children[at]
            &&& behind.children[version_place] == NodeView::Element(
                ElementView { children: seq![NodeView::Text(version)], ..old_child },
            )
            &&& versions matches Some(followed) ==> rewritten_document(root, version, versions)
                == (ElementView {
                children: document.children.update(
                    place,
                    NodeView::Element(with_versions(behind, followed)),
                ),
                ..root
            })
        }),
{
    lemma_metadata_place(root, place);
    let metadata = root.children[place]->Element_0;
    lemma_child_place_holds(metadata.children, "version"@);
    let found = child_place(metadata.children, "version"@);
    assert(is_named(metadata.children[version_place], "version"@));
    assert(found == version_place) by {
        if found < version_place {
            assert(is_named(metadata.children[found], "version"@));
        }
        if found > version_place {
            assert(!is_named(metadata.children[version_place], "version"@));
        }
    }
    let document = rewritten_document(root, version, None);
    let behind = document.children[place]->Element_0;
    if let Some(followed) = versions {
        let whole = rewritten_document(root, version, versions);
        assert(whole.children =~= document.children.update(
            place,
            NodeView::Element(with_versions(behind, followed)),
        ));
    }
}

/// The bytes of a rewritten manifest are those of the rewritten document, and its identity is the
/// id that it had and the version that is written into it.
pub proof fn law_rewritten_bytes_are_of_the_document(
    nuspec_bytes: Seq<u8>,
    version_rewrite: VersionRewrite,
    versions: Option<Map<Seq<char>, Seq<char>>>,
    result: Result<RewrittenNuspec, NuspecError>,
)
    requires
        is_rewrite_result(nuspec_bytes, version_rewrite, versions, result),
    ensures
        match result {
            Ok(rewritten) => {
                &&& xml_document(nuspec_bytes) matches Some(root)
                &&& identity_of(root) matches Ok((id, current))
                &&& rewritten.identity.package_id@ == id
                &&& rewritten.identity.version@ == rewritten_version(current, version_rewrite)
                &&& xml_text(rewritten_document(root, rewritten.identity.version@, versions))
                    == Some(rewritten.contents@)
            },
            Err(error) => {
                ||| xml_document(nuspec_bytes) is None && error is UnreadableManifest
                ||| (xml_document(nuspec_bytes) matches Some(root) && identity_of(root) == Err::<
                    (Seq<char>, Seq<char>),
                    NuspecError,
                >(error))
                ||| (xml_document(nuspec_bytes) matches Some(root) && identity_of(root) matches Ok(
                    (_, current),
                ) && error is Unwritable && xml_text(
                    rewritten_document(root, rewritten_version(current, version_rewrite), versions),
                ) is None)
            },
        },
{
}

/// A manifest is rewritten exactly where it can be read and has an identity: with its own version,
/// made new.
pub proof fn law_manifest_with_identity_is_rewritten(
    nuspec_bytes: Seq<u8>,
    version_rewrite: VersionRewrite,
    versions: Option<Map<Seq<char>, Seq<char>>>,
)
    ensures
        match rewritten_root(nuspec_bytes, version_rewrite, versions) {
            Some(document) => xml_document(nuspec_bytes) matches Some(root) && (identity_of(
                root,
            ) matches Ok((_, version)) && document == rewritten_document(
                root,
                rewritten_version(version, version_rewrite),
                versions,
            )),
            None => xml_document(nuspec_bytes) matches Some(root) ==> identity_of(root) is Err,
        },
{
}

/// The identity of a manifest is read exactly where it can be read and has one: its id, and its
/// version made new.
pub proof fn law_identity_has_the_new_version(
    nuspec_bytes: Seq<u8>,
    version_rewrite: VersionRewrite,
    result: Result<PackageIdentity, NuspecError>,
)
    requires
        is_identity_result(nuspec_bytes, version_rewrite, result),
    ensures
        match result {
            Ok(identity) => xml_document(nuspec_bytes) matches Some(root) && (identity_of(
                root,
            ) matches Ok((id, version)) && identity.package_id@ == id && identity.version@
                == rewritten_version(version, version_rewrite)),
            Err(error) => match xml_document(nuspec_bytes) {
                Some(root) => identity_of(root) == Err::<(Seq<char>, Seq<char>), NuspecError>(error),
                None => error is UnreadableIdentity,
            },
        },
{
}

/// An error of reading or writing says what was wrong.
pub proof fn law_errors_say_what_was_wrong(error: NuspecError)
    ensures
        ({
            let text = error.text();
            match error {
                NuspecError::UnreadableIdentity(detail) => holds_part(text, detail@),
                NuspecError::UnreadableManifest(detail) => holds_part(text, detail@),
                NuspecError::Unwritable(detail) => holds_part(text, detail@),
                _ => true,
            }
        }),
{
    let text = error.text();
    match error {
        NuspecError::UnreadableIdentity(detail) => {
            let front = "failed to parse nuspec XML while reading package identity: "@;
            let back = Seq::<char>::empty();
            assert(text =~= front + detail@ + back);
            lemma_part_is_held(front, detail@, back);
        },
        NuspecError::UnreadableManifest(detail) => {
            let front = "failed to parse nuspec XML while rewriting package version: "@;
            let back = Seq::<char>::empty();
            assert(text =~= front + detail@ + back);
            lemma_part_is_held(front, detail@, back);
        },
        NuspecError::Unwritable(detail) => {
            let front = "failed to serialize rewritten nuspec XML: "@;
            let back = Seq::<char>::empty();
            assert(text =~= front + detail@ + back);
            lemma_part_is_held(front, detail@, back);
        },
        _ => {},
    }
}

} // verus!
