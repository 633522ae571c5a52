//! Package manifests: `.nuspec` documents.

use vstd::prelude::*;

use crate::spaces::{trim, trimmed};
use crate::text::{owned, same_text};
use crate::text_map::TextMap;
use crate::xml::{node_view, ElementView, NodeView, XmlElement, XmlNode};

verus! {

/// Whether `node` is an element called `name`.
pub open spec fn is_named(node: NodeView, name: Seq<char>) -> bool {
    node matches NodeView::Element(element) && element.name == name
}

/// The place of the first element called `name`, or the number of nodes where there is none.
pub open spec fn child_place(children: Seq<NodeView>, name: Seq<char>) -> int
    decreases children.len(),
{
    if children.len() == 0 || is_named(children[0], name) {
        0
    } else {
        1 + child_place(children.drop_first(), name)
    }
}

/// Whether there is an element called `name`.
pub open spec fn has_child(children: Seq<NodeView>, name: Seq<char>) -> bool {
    exists|at: int| 0 <= at < children.len() && is_named(#[trigger] children[at], name)
}

/// The first place is the one that has an element called `name` and none before it.
proof fn lemma_child_place(children: Seq<NodeView>, name: Seq<char>, place: int)
    requires
        0 <= place <= children.len(),
        forall|before: int| 0 <= before < place ==> !is_named(#[trigger] children[before], name),
        place < children.len() ==> is_named(children[place], name),
    ensures
        child_place(children, name) == place,
        has_child(children, name) <==> place < children.len(),
    decreases children.len(),
{
    if children.len() > 0 && place > 0 {
        let rest = children.drop_first();
        assert forall|before: int| 0 <= before < place - 1 implies !is_named(
            #[trigger] rest[before],
            name,
        ) by {
            assert(rest[before] == children[before + 1]);
        }
        assert(!is_named(children[0], name));
        lemma_child_place(rest, name, place - 1);
    }
    if place == children.len() {
        assert(!has_child(children, name));
    }
}

/// The text of one node: that of a text or a CDATA section.
pub open spec fn node_text(node: NodeView) -> Option<Seq<char>> {
    match node {
        NodeView::Text(text) => Some(text),
        NodeView::CData(text) => Some(text),
        _ => None,
    }
}

/// Whether there is any text or CDATA section.
pub open spec fn has_text(children: Seq<NodeView>) -> bool {
    exists|at: int| 0 <= at < children.len() && node_text(#[trigger] children[at]) is Some
}

/// The texts and CDATA sections, one behind the other.
pub open spec fn all_text(children: Seq<NodeView>) -> Seq<char>
    decreases children.len(),
{
    if children.len() == 0 {
        Seq::empty()
    } else {
        match node_text(children.last()) {
            Some(text) => all_text(children.drop_last()) + text,
            None => all_text(children.drop_last()),
        }
    }
}

/// The text of the first child called `name` that has any, without white space at its ends.
pub open spec fn text_of_child(children: Seq<NodeView>, name: Seq<char>) -> Option<Seq<char>>
    decreases children.len(),
{
    if children.len() == 0 {
        None
    } else {
        match children[0] {
            NodeView::Element(child) if child.name == name && has_text(child.children) => Some(
                trimmed(all_text(child.children)),
            ),
            _ => text_of_child(children.drop_first(), name),
        }
    }
}

/// `element` with other children.
pub open spec fn with_children(element: ElementView, children: Seq<NodeView>) -> ElementView {
    ElementView { children, ..element }
}

/// `element` with `value` as the only content of its first child called `name`.
pub open spec fn with_child_text(
    element: ElementView,
    name: Seq<char>,
    value: Seq<char>,
) -> ElementView {
    let place = child_place(element.children, name);
    let child = element.children[place]->Element_0;
    with_children(
        element,
        element.children.update(
            place,
            NodeView::Element(with_children(child, seq![NodeView::Text(value)])),
        ),
    )
}

/// The attributes of `element` once its version follows that of the package it depends on.
pub open spec fn followed_attributes(
    element: ElementView,
    versions: Map<Seq<char>, Seq<char>>,
) -> Map<Seq<char>, Seq<char>> {
    let id = element.attributes["id"@];
    if element.name == "dependency"@ && element.attributes.contains_key("id"@)
        && versions.contains_key(id) {
        element.attributes.insert("version"@, versions[id])
    } else {
        element.attributes
    }
}

/// `element`, with every dependency in it on a package of `versions` set to that package's version.
pub open spec fn with_versions(
    element: ElementView,
    versions: Map<Seq<char>, Seq<char>>,
) -> ElementView
    decreases element,
{
    ElementView {
        attributes: followed_attributes(element, versions),
        children: nodes_with_versions(element.children, versions),
        ..element
    }
}

/// `with_versions` of every element in a list.
pub open spec fn nodes_with_versions(
    nodes: Seq<NodeView>,
    versions: Map<Seq<char>, Seq<char>>,
) -> Seq<NodeView>
    decreases nodes,
{
    Seq::new(
        nodes.len(),
        |at: int|
            if 0 <= at < nodes.len() {
                node_with_versions(nodes[at], versions)
            } else {
                arbitrary()
            },
    )
}

/// `with_versions` of a node that is an element; any other node as it is.
pub open spec fn node_with_versions(
    node: NodeView,
    versions: Map<Seq<char>, Seq<char>>,
) -> NodeView
    decreases node,
{
    match node {
        NodeView::Element(element) => NodeView::Element(with_versions(element, versions)),
        _ => node,
    }
}

/// Finds the first child called `name`.
pub fn child_element(element: &XmlElement, name: &str) -> (place: Option<usize>)
    ensures
        match place {
            Some(at) => at < element.children@.len() && at == child_place(
                element@.children,
                name@,
            ) && element.children@[at as int] is Element && is_named(
                element@.children[at as int],
                name@,
            ),
            None => !has_child(element@.children, name@),
        },
{
    let ghost children = element@.children;
    let mut at: usize = 0;
    while at < element.children.len()
        invariant
            children == element@.children,
            children.len() == element.children@.len(),
            at <= children.len(),
            forall|before: int|
                0 <= before < at ==> !is_named(#[trigger] children[before], name@),
        decreases children.len() - at,
    {
        assert(children[at as int] == node_view(element.children@[at as int]));
        if let XmlNode::Element(child) = &element.children[at] {
            if same_text(child.name.as_str(), name) {
                proof {
                    lemma_child_place(children, name@, at as int);
                }
                return Some(at);
            }
        }
        at += 1;
    }
    proof {
        lemma_child_place(children, name@, at as int);
    }
    None
}

/// The texts and CDATA sections of `element`, one behind the other; nothing where it has none.
pub fn get_text(element: &XmlElement) -> (text: Option<String>)
    ensures
        match text {
            Some(text) => has_text(element@.children) && text@ == all_text(element@.children),
            None => !has_text(element@.children),
        },
{
    let ghost children = element@.children;
    let mut found = false;
    let mut text = String::new();
    let mut at: usize = 0;
    while at < element.children.len()
        invariant
            children == element@.children,
            children.len() == element.children@.len(),
            at <= children.len(),
            found <==> has_text(children.take(at as int)),
            text@ == all_text(children.take(at as int)),
        decreases children.len() - at,
    {
        assert(children[at as int] == node_view(element.children@[at as int]));
        let ghost longer = children.take(at + 1);
        assert(longer.drop_last() =~= children.take(at as int));
        assert(longer.last() == children[at as int]);
        assert(found ==> has_text(longer)) by {
            if found {
                let front = children.take(at as int);
                let place = choose|place: int|
                    0 <= place < front.len() && node_text(#[trigger] front[place]) is Some;
                assert(longer[place] == front[place]);
            }
        }
        assert(has_text(longer) ==> found || node_text(children[at as int]) is Some) by {
            if has_text(longer) && !found {
                let place = choose|place: int|
                    0 <= place < longer.len() && node_text(#[trigger] longer[place]) is Some;
                if place < at {
                    assert(children.take(at as int)[place] == longer[place]);
                }
            }
        }
        match &element.children[at] {
            XmlNode::Text(piece) => {
                text.append(piece.as_str());
                found = true;
                assert(node_text(longer[at as int]) is Some);
            },
            XmlNode::CData(piece) => {
                text.append(piece.as_str());
                found = true;
                assert(node_text(longer[at as int]) is Some);
            },
            _ => {},
        }
        at += 1;
    }
    assert(children.take(at as int) =~= children);
    if found {
        Some(text)
    } else {
        None
    }
}

/// The text of the first child called `name` that has any, without white space at its ends.
pub fn child_text(element: &XmlElement, name: &str) -> (text: Option<String>)
    ensures
        match text {
            Some(text) => text_of_child(element@.children, name@) == Some(text@),
            None => text_of_child(element@.children, name@) is None,
        },
{
    let ghost children = element@.children;
    let mut at: usize = 0;
    assert(children.skip(0) =~= children);
    while at < element.children.len()
        invariant
            children == element@.children,
            children.len() == element.children@.len(),
            at <= children.len(),
            text_of_child(children, name@) == text_of_child(children.skip(at as int), name@),
        decreases children.len() - at,
    {
        assert(children[at as int] == node_view(element.children@[at as int]));
        assert(children.skip(at as int)[0] == children[at as int]);
        assert(children.skip(at as int).drop_first() =~= children.skip(at + 1));
        if let XmlNode::Element(child) = &element.children[at] {
            if same_text(child.name.as_str(), name) {
                if let Some(text) = get_text(child) {
                    return Some(trim(text.as_str()));
                }
            }
        }
        at += 1;
    }
    assert(children.skip(at as int) =~= Seq::<NodeView>::empty());
    None
}

/// Makes `value` the only content of the first child called `name`; says whether there is one.
pub fn set_child_text(element: &mut XmlElement, name: &str, value: &str) -> (found: bool)
    ensures
        found <==> has_child(old(element)@.children, name@),
        found ==> final(element)@ == with_child_text(old(element)@, name@, value@),
        !found ==> *final(element) == *old(element),
{
    match child_element(element, name) {
        Some(at) => {
            let ghost before = element.children@;
            let ghost view = element@;
            let removed = element.children.remove(at);
            if let XmlNode::Element(child) = removed {
                let ghost child_view = child@;
                assert(view.children[at as int] == NodeView::Element(child_view));
                let mut changed = child;
                let mut content: Vec<XmlNode> = Vec::new();
                content.push(XmlNode::Text(owned(value)));
                changed.children = content;
                assert(changed@.children =~= seq![NodeView::Text(value@)]);
                assert(changed@ =~= with_children(child_view, seq![NodeView::Text(value@)]));
                let ghost replaced = XmlNode::Element(changed);
                element.children.insert(at, XmlNode::Element(changed));
                assert(element.children@ =~= before.update(at as int, replaced));
                assert(element@.children =~= view.children.update(
                    at as int,
                    node_view(replaced),
                ));
            }
            true
        },
        None => false,
    }
}

/// Sets every dependency in `element` on a package of `versions` to that package's version.
pub fn rewrite_dependency_versions(element: &mut XmlElement, versions: &TextMap)
    ensures
        final(element)@ == with_versions(old(element)@, versions@),
    decreases *old(element),
{
    let ghost before = *element;
    if same_text(element.name.as_str(), "dependency") {
        if let Some(id) = element.attributes.get("id") {
            if let Some(version) = versions.get(id.as_str()) {
                element.attributes.insert(owned("version"), version);
            }
        }
    }
    assert(element.attributes@ == followed_attributes(before@, versions@));
    let mut at: usize = 0;
    while at < element.children.len()
        invariant
            before == *old(element),
            at <= element.children@.len(),
            element.children@.len() == before.children@.len(),
            element.prefix == before.prefix,
            element.namespace == before.namespace,
            element.namespaces == before.namespaces,
            element.name == before.name,
            element.attributes@ == followed_attributes(before@, versions@),
            forall|done: int|
                0 <= done < at ==> node_view(#[trigger] element.children@[done])
                    == node_with_versions(node_view(before.children@[done]), versions@),
            forall|left: int|
                at <= left < element.children@.len() ==> #[trigger] element.children@[left]
                    == before.children@[left],
        decreases element.children@.len() - at,
    {
        let ghost node = before.children@[at as int];
        match &mut element.children[at] {
            XmlNode::Element(child) => {
                proof {
                    assert(node == XmlNode::Element(*child));
                    assert(decreases_to!(before => before.children));
                    assert(decreases_to!(before.children => before.children@));
                    assert(decreases_to!(before.children@ => before.children@[at as int]));
                    assert(decreases_to!(node => node->Element_0));
                }
                rewrite_dependency_versions(child, versions);
            },
            _ => {},
        }
        at += 1;
    }
    assert(element@.children =~= nodes_with_versions(before@.children, versions@));
}

/// The node at the end of a path of places, each among the children of the node before.
pub open spec fn node_at(node: NodeView, path: Seq<int>) -> Option<NodeView>
    decreases path.len(),
{
    if path.len() == 0 {
        Some(node)
    } else {
        match node {
            NodeView::Element(element) => if 0 <= path[0] < element.children.len() {
                node_at(element.children[path[0]], path.drop_first())
            } else {
                None
            },
            _ => None,
        }
    }
}

/// Wherever in a document a dependency on a package of `versions` stands, at any depth, it gets
/// that package's version, and keeps its other attributes. Nothing else changes anywhere: every
/// path leads to the same kind of node as before, every other element keeps its attributes, every
/// element its name, its namespaces and its number of children, and every other node stays as it
/// is.
pub proof fn law_every_dependency_follows(
    root: ElementView,
    versions: Map<Seq<char>, Seq<char>>,
    path: Seq<int>,
)
    ensures
        match (
            node_at(NodeView::Element(root), path),
            node_at(NodeView::Element(with_versions(root, versions)), path),
        ) {
            (None, None) => true,
            (Some(NodeView::Element(before)), Some(NodeView::Element(behind))) => {
                let id = before.attributes["id"@];
                &&& behind.attributes == if before.name == "dependency"@
                    && before.attributes.contains_key("id"@) && versions.contains_key(id) {
                    before.attributes.insert("version"@, versions[id])
                } else {
                    before.attributes
                }
                &&& behind.name == before.name
                &&& behind.prefix == before.prefix
                &&& behind.namespace == before.namespace
                &&& behind.namespaces == before.namespaces
                &&& behind.children.len() == before.children.len()
            },
            (Some(before), Some(behind)) => behind == before,
            _ => false,
        },
    decreases path.len(),
{
    let changed = with_versions(root, versions);
    assert(changed.children.len() == root.children.len());
    if path.len() > 0 && 0 <= path[0] < root.children.len() {
        let child = root.children[path[0]];
        assert(changed.children[path[0]] == node_with_versions(child, versions));
        let rest = path.drop_first();
        assert(node_at(NodeView::Element(root), path) == node_at(child, rest));
        assert(node_at(NodeView::Element(changed), path) == node_at(
            changed.children[path[0]],
            rest,
        ));
        match child {
            NodeView::Element(element) => law_every_dependency_follows(element, versions, rest),
            _ => {
                assert(changed.children[path[0]] == child);
                assert(node_at(child, rest) == if rest.len() == 0 {
                    Some(child)
                } else {
                    None
                });
            },
        }
    }
}

/// Texts and CDATA sections count one behind the other, and nothing else does.
pub proof fn law_text_goes_on(one: Seq<NodeView>, other: Seq<NodeView>)
    ensures
        all_text(one + other) == all_text(one) + all_text(other),
        one.len() == 0 ==> all_text(one).len() == 0,
        one.len() == 1 ==> all_text(one) == match one[0] {
            NodeView::Text(text) => text,
            NodeView::CData(text) => text,
            _ => Seq::empty(),
        },
    decreases other.len(),
{
    let all = one + other;
    if other.len() > 0 {
        law_text_goes_on(one, other.drop_last());
        assert(all.drop_last() =~= one + other.drop_last());
        assert(all_text(all) =~= all_text(one) + all_text(other));
    } else {
        assert(all =~= one);
        assert(all_text(one) + all_text(other) =~= all_text(one));
    }
    if one.len() == 1 {
        assert(one.drop_last() =~= Seq::<NodeView>::empty());
        assert(all_text(one.drop_last()) =~= Seq::<char>::empty());
        assert(all_text(one) =~= match one[0] {
            NodeView::Text(text) => text,
            NodeView::CData(text) => text,
            _ => Seq::empty(),
        });
    }
}

/// Whether an element called `name` that holds a text or a CDATA section stands at a place.
pub open spec fn has_text_at(children: Seq<NodeView>, name: Seq<char>, place: int) -> bool {
    &&& children[place] matches NodeView::Element(child)
    &&& child.name == name
    &&& exists|at: int|
        0 <= at < child.children.len() && (#[trigger] child.children[at] is Text
            || child.children[at] is CData)
}

/// The text of a name is that of the first element of that name that holds any, with no white space
/// around it; there is none exactly where no such element holds any.
pub proof fn law_first_text_counts(children: Seq<NodeView>, name: Seq<char>)
    ensures
        text_of_child(children, name) is None <==> forall|place: int|
            0 <= place < children.len() ==> !#[trigger] has_text_at(children, name, place),
        forall|place: int|
            0 <= place < children.len() && #[trigger] has_text_at(children, name, place) && (
            forall|before: int|
                0 <= before < place ==> !#[trigger] has_text_at(children, name, before))
                ==> text_of_child(children, name) == Some(
                trimmed(all_text(children[place]->Element_0.children)),
            ),
    decreases children.len(),
{
    if children.len() > 0 {
        let rest = children.drop_first();
        law_first_text_counts(rest, name);
        assert forall|place: int| 0 <= place < rest.len() implies #[trigger] has_text_at(
            rest,
            name,
            place,
        ) == has_text_at(children, name, place + 1) by {
            assert(rest[place] == children[place + 1]);
        }
        assert(has_text_at(children, name, 0) <==> (children[0] matches NodeView::Element(child)
            && child.name == name && has_text(child.children))) by {
            if let NodeView::Element(child) = children[0] {
                if has_text(child.children) {
                    let at = choose|at: int|
                        0 <= at < child.children.len() && node_text(
                            #[trigger] child.children[at],
                        ) is Some;
                    assert(child.children[at] is Text || child.children[at] is CData);
                }
                if has_text_at(children, name, 0) {
                    let at = choose|at: int|
                        0 <= at < child.children.len() && (#[trigger] child.children[at] is Text
                            || child.children[at] is CData);
                    assert(node_text(child.children[at]) is Some);
                }
            }
        }
        if !has_text_at(children, name, 0) {
            assert(text_of_child(children, name) == text_of_child(rest, name));
            assert forall|place: int|
                0 <= place < children.len() && #[trigger] has_text_at(children, name, place) && (
                forall|before: int|
                    0 <= before < place ==> !#[trigger] has_text_at(
                        children,
                        name,
                        before,
                    )) implies text_of_child(children, name) == Some(
                trimmed(all_text(children[place]->Element_0.children)),
            ) by {
                assert(has_text_at(rest, name, place - 1));
                assert forall|before: int| 0 <= before < place - 1 implies !#[trigger] has_text_at(
                    rest,
                    name,
                    before,
                ) by {
                    assert(!has_text_at(children, name, before + 1));
                }
                assert(rest[place - 1] == children[place]);
            }
            if forall|place: int|
                0 <= place < rest.len() ==> !#[trigger] has_text_at(rest, name, place) {
                assert forall|place: int| 0 <= place < children.len() implies !#[trigger] has_text_at(
                    children,
                    name,
                    place,
                ) by {
                    if place > 0 {
                        assert(!has_text_at(rest, name, place - 1));
                    }
                }
            }
            if forall|place: int|
                0 <= place < children.len() ==> !#[trigger] has_text_at(children, name, place) {
                assert forall|place: int| 0 <= place < rest.len() implies !#[trigger] has_text_at(
                    rest,
                    name,
                    place,
                ) by {
                    assert(!has_text_at(children, name, place + 1));
                }
            }
        } else {
            assert(text_of_child(children, name) is Some);
            assert forall|place: int|
                0 <= place < children.len() && #[trigger] has_text_at(children, name, place) && (
                forall|before: int|
                    0 <= before < place ==> !#[trigger] has_text_at(
                        children,
                        name,
                        before,
                    )) implies text_of_child(children, name) == Some(
                trimmed(all_text(children[place]->Element_0.children)),
            ) by {
                if place > 0 {
                    assert(!has_text_at(children, name, 0));
                }
            }
        }
    }
}

} // verus!
