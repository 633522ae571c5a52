//! Paths as text: their components, and what is joined to and taken off them.

use vstd::prelude::*;

use crate::platform::Platform;
use crate::prefixes::{
    find_piece_end, find_prefix, find_prefix_end, has_verbatim_prefix, is_same_prefix, is_separator,
    is_verbatim, lemma_piece_end, lemma_prefix_end, parts_components, piece_end, prefix_end,
    prefix_of, Prefix, PrefixView,
};
use crate::text::{chars_of, concat, owned, same_chars, text_between, text_of};

verus! {

/// A component of a path.
#[derive(Debug)]
pub enum Component {
    /// What stands before everything else, on Windows.
    Prefix(Prefix),
    /// The leading separator.
    Root,
    /// A leading `.`, or any behind a verbatim prefix.
    Current,
    /// A `..`.
    Parent,
    /// A name.
    Normal(Vec<char>),
}

/// A component with the characters of the path that it takes up.
#[derive(Debug)]
pub struct Mark {
    pub component: Component,
    pub start: usize,
    pub end: usize,
}

/// What a component is.
pub enum ComponentView {
    Prefix(PrefixView),
    Root,
    Current,
    Parent,
    Normal(Seq<char>),
}

/// What a mark is.
pub struct MarkView {
    pub component: ComponentView,
    pub start: int,
    pub end: int,
}

impl View for Component {
    type V = ComponentView;

    open spec fn view(&self) -> ComponentView {
        match *self {
            Component::Prefix(prefix) => ComponentView::Prefix(prefix@),
            Component::Root => ComponentView::Root,
            Component::Current => ComponentView::Current,
            Component::Parent => ComponentView::Parent,
            Component::Normal(name) => ComponentView::Normal(name@),
        }
    }
}

impl View for Mark {
    type V = MarkView;

    open spec fn view(&self) -> MarkView {
        MarkView {
            component: self.component@,
            start: self.start as int,
            end: self.end as int,
        }
    }
}

/// The views of a list of marks.
pub open spec fn mark_views(marks: Seq<Mark>) -> Seq<MarkView> {
    marks.map_values(|mark: Mark| mark@)
}

/// The components of a list of marks.
pub open spec fn mark_components(found: Seq<MarkView>) -> Seq<ComponentView> {
    found.map_values(|mark: MarkView| mark.component)
}

/// Where the root of a path ends: behind its prefix, and behind the separator that follows if there
/// is one.
pub open spec fn root_end(platform: Platform, path: Seq<char>) -> int {
    let start = prefix_end(platform, path);
    if start < path.len() && is_separator(platform, false, path[start]) {
        start + 1
    } else {
        start
    }
}

/// Whether a separator stands behind the prefix of a path, or at its front where it has none.
pub open spec fn has_root(platform: Platform, path: Seq<char>) -> bool {
    root_end(platform, path) > prefix_end(platform, path)
}

/// Whether a path begins at a root though no separator says so: at that of a share or a device.
pub open spec fn has_silent_root(platform: Platform, path: Seq<char>) -> bool {
    !has_root(platform, path) && (prefix_of(platform, path) matches Some(prefix) && (prefix is Share
        || prefix is Device))
}

/// The component that a piece between two separators stands for, if any: a lone dot counts only
/// where it is kept.
pub open spec fn component_of(piece: Seq<char>, is_dot_kept: bool) -> Option<ComponentView> {
    if piece.len() == 0 {
        None
    } else if piece == seq!['.'] {
        if is_dot_kept {
            Some(ComponentView::Current)
        } else {
            None
        }
    } else if piece == seq!['.', '.'] {
        Some(ComponentView::Parent)
    } else {
        Some(ComponentView::Normal(piece))
    }
}

/// The components of the pieces of `path` from `start` on. A lone dot is kept at the very front of
/// a path, and behind a verbatim prefix.
pub open spec fn body_marks(
    platform: Platform,
    verbatim: bool,
    path: Seq<char>,
    start: int,
) -> Seq<MarkView>
    decreases path.len() + 1 - start,
{
    if start < 0 || start > path.len() {
        Seq::empty()
    } else {
        let end = piece_end(platform, verbatim, path, start);
        proof {
            lemma_piece_end(platform, verbatim, path, start);
        }
        let rest = body_marks(platform, verbatim, path, end + 1);
        match component_of(path.subrange(start, end), verbatim || start == 0) {
            Some(component) => seq![MarkView { component, start, end }] + rest,
            None => rest,
        }
    }
}

/// The prefix and the root of a path, as far as it has them.
pub open spec fn front_marks(platform: Platform, path: Seq<char>) -> Seq<MarkView> {
    let end = prefix_end(platform, path);
    let front = match prefix_of(platform, path) {
        Some(prefix) => seq![MarkView { component: ComponentView::Prefix(prefix), start: 0, end }],
        None => Seq::empty(),
    };
    if has_root(platform, path) || has_silent_root(platform, path) {
        front.push(
            MarkView {
                component: ComponentView::Root,
                start: end,
                end: root_end(platform, path),
            },
        )
    } else {
        front
    }
}

/// The components of a path, with where they stand.
pub open spec fn marks(platform: Platform, path: Seq<char>) -> Seq<MarkView> {
    front_marks(platform, path) + body_marks(
        platform,
        is_verbatim(platform, path),
        path,
        root_end(platform, path),
    )
}

/// The components of a path.
pub open spec fn components(platform: Platform, path: Seq<char>) -> Seq<ComponentView> {
    mark_components(marks(platform, path))
}

/// Whether two paths have the same components.
pub open spec fn same_path(platform: Platform, left: Seq<char>, right: Seq<char>) -> bool {
    components(platform, left) == components(platform, right)
}

/// The last component of a path, if it is a name.
pub open spec fn file_name_of(platform: Platform, path: Seq<char>) -> Option<Seq<char>> {
    let found = marks(platform, path);
    if found.len() > 0 {
        match found.last().component {
            ComponentView::Normal(name) => Some(name),
            _ => None,
        }
    } else {
        None
    }
}

/// Whether a lone dot stands right behind a drive. It is no component, and is never taken off.
pub open spec fn has_drive_dot(platform: Platform, path: Seq<char>) -> bool {
    let start = prefix_end(platform, path);
    &&& prefix_of(platform, path) matches Some(prefix) && prefix is Drive
    &&& start < path.len() && path[start] == '.'
    &&& start + 1 < path.len() ==> is_separator(platform, false, path[start + 1])
}

/// Where the part of a path ends that is not taken off with a name.
pub open spec fn front_end(platform: Platform, path: Seq<char>) -> int {
    if has_drive_dot(platform, path) {
        prefix_end(platform, path) + 1
    } else {
        root_end(platform, path)
    }
}

/// The larger of two numbers.
pub open spec fn larger(left: int, right: int) -> int {
    if left < right {
        right
    } else {
        left
    }
}

/// The part of a path before its last component; a root, a prefix and the empty path have none.
pub open spec fn parent_of(platform: Platform, path: Seq<char>) -> Option<Seq<char>> {
    let found = marks(platform, path);
    if found.len() == front_marks(platform, path).len() {
        None
    } else if found.len() == 1 {
        Some(Seq::empty())
    } else {
        Some(path.take(larger(found[found.len() - 2].end, front_end(platform, path))))
    }
}

/// The separator that joining puts between two paths.
pub open spec fn main_separator(platform: Platform) -> char {
    match platform {
        Platform::Unix => '/',
        Platform::Windows => '\\',
    }
}

/// A list of components and one more behind it: a root leaves only the prefix, a `.` changes
/// nothing, and a `..` takes a name off.
pub open spec fn with_component(
    list: Seq<ComponentView>,
    component: ComponentView,
) -> Seq<ComponentView> {
    match component {
        ComponentView::Root => list.take(1).push(component),
        ComponentView::Current => list,
        ComponentView::Parent => if list.len() > 0 && list.last() is Normal {
            list.drop_last()
        } else {
            list
        },
        _ => list.push(component),
    }
}

/// A list of components and others behind it, one after the other.
pub open spec fn with_components(
    list: Seq<ComponentView>,
    others: Seq<ComponentView>,
) -> Seq<ComponentView>
    decreases others.len(),
{
    if others.len() == 0 {
        list
    } else {
        with_components(with_component(list, others[0]), others.drop_first())
    }
}

/// A component as text; the text of a prefix is given.
pub open spec fn component_text(prefix: Seq<char>, component: ComponentView) -> Seq<char> {
    match component {
        ComponentView::Prefix(_) => prefix,
        ComponentView::Root => seq!['\\'],
        ComponentView::Current => seq!['.'],
        ComponentView::Parent => seq!['.', '.'],
        ComponentView::Normal(name) => name,
    }
}

/// Components as text, with a backslash between each two that are no root.
pub open spec fn written_out(prefix: Seq<char>, list: Seq<ComponentView>) -> Seq<char>
    decreases list.len(),
{
    if list.len() == 0 {
        Seq::empty()
    } else {
        let front = written_out(prefix, list.drop_last());
        let text = component_text(prefix, list.last());
        if list.len() > 1 && list[list.len() - 2] != ComponentView::Root && list.last()
            != ComponentView::Root {
            front.push('\\') + text
        } else {
            front + text
        }
    }
}

/// `path` seen from `base`. A path with a prefix stands for itself. Behind a verbatim prefix the
/// components are joined one by one. A path with a root keeps only the prefix of the base.
pub open spec fn joined_path(platform: Platform, base: Seq<char>, path: Seq<char>) -> Seq<char> {
    if prefix_of(platform, path) is Some {
        path
    } else if is_verbatim(platform, base) && path.len() > 0 {
        written_out(
            base.take(prefix_end(platform, base)),
            with_components(components(platform, base), components(platform, path)),
        )
    } else if has_root(platform, path) {
        base.take(prefix_end(platform, base)) + path
    } else if base.len() == 0 || is_separator(platform, false, base.last()) || is_bare_drive(
        platform,
        base,
    ) {
        base + path
    } else {
        base.push(main_separator(platform)) + path
    }
}

/// Whether a path is a drive and nothing more.
pub open spec fn is_bare_drive(platform: Platform, path: Seq<char>) -> bool {
    &&& prefix_of(platform, path) matches Some(prefix) && prefix is Drive
    &&& path.len() == prefix_end(platform, path)
}

/// Whether the components of `base` are the first ones of `path`.
pub open spec fn is_inside(platform: Platform, path: Seq<char>, base: Seq<char>) -> bool {
    components(platform, base).is_prefix_of(components(platform, path))
}

/// The part of `path` behind the components of `base`.
pub open spec fn part_inside(platform: Platform, path: Seq<char>, base: Seq<char>) -> Seq<char> {
    let found = marks(platform, path);
    let count = marks(platform, base).len() as int;
    let is_prefix_only = count == 1 && prefix_of(platform, path) is Some;
    if found.len() == 0 || (count >= found.len() && !is_prefix_only) {
        Seq::empty()
    } else {
        let start = if count == 0 {
            0
        } else if is_prefix_only {
            prefix_end(platform, path)
        } else {
            found[count].start
        };
        path.subrange(start, larger(found.last().end, front_end(platform, path)))
    }
}

/// The place of the last `character` in `text`, or -1.
pub open spec fn last_place(text: Seq<char>, character: char) -> int
    decreases text.len(),
{
    if text.len() == 0 {
        -1
    } else if text.last() == character {
        text.len() - 1
    } else {
        last_place(text.drop_last(), character)
    }
}

/// A file name up to its last dot; the whole of it where that dot is missing or leads.
pub open spec fn stem_of(name: Seq<char>) -> Seq<char> {
    let place = last_place(name, '.');
    if place <= 0 {
        name
    } else {
        name.take(place)
    }
}

/// What is known of the marks behind a place.
pub proof fn lemma_body_marks(platform: Platform, verbatim: bool, path: Seq<char>, start: int)
    requires
        0 <= start <= path.len() + 1,
    ensures
        forall|at: int|
            0 <= at < body_marks(platform, verbatim, path, start).len() ==> start <= (
            #[trigger] body_marks(platform, verbatim, path, start)[at]).start < body_marks(
                platform,
                verbatim,
                path,
                start,
            )[at].end <= path.len(),
        forall|at: int, later: int|
            0 <= at < later < body_marks(platform, verbatim, path, start).len() ==> (
            #[trigger] body_marks(platform, verbatim, path, start)[at]).end < (
            #[trigger] body_marks(platform, verbatim, path, start)[later]).start,
    decreases path.len() + 1 - start,
{
    if start <= path.len() {
        lemma_piece_end(platform, verbatim, path, start);
        let end = piece_end(platform, verbatim, path, start);
        let all = body_marks(platform, verbatim, path, start);
        let rest = body_marks(platform, verbatim, path, end + 1);
        lemma_body_marks(platform, verbatim, path, end + 1);
        if component_of(path.subrange(start, end), verbatim || start == 0) is Some {
            assert forall|at: int| 0 <= at < all.len() implies start <= (#[trigger] all[at]).start
                < all[at].end <= path.len() by {
                if at > 0 {
                    assert(all[at] == rest[at - 1]);
                }
            }
            assert forall|at: int, later: int| 0 <= at < later < all.len() implies (
            #[trigger] all[at]).end < (#[trigger] all[later]).start by {
                assert(all[later] == rest[later - 1]);
                if at > 0 {
                    assert(all[at] == rest[at - 1]);
                }
            }
        }
    }
}

/// Marks lie in the path, one behind the other.
pub proof fn lemma_marks(platform: Platform, path: Seq<char>)
    ensures
        0 <= prefix_end(platform, path) <= root_end(platform, path) <= front_end(platform, path)
            <= path.len(),
        forall|at: int|
            0 <= at < marks(platform, path).len() ==> 0 <= (#[trigger] marks(
                platform,
                path,
            )[at]).start <= marks(platform, path)[at].end <= path.len(),
        forall|at: int, later: int|
            0 <= at < later < marks(platform, path).len() ==> (#[trigger] marks(
                platform,
                path,
            )[at]).end <= (#[trigger] marks(platform, path)[later]).start,
{
    lemma_prefix_end(platform, path);
    let start = root_end(platform, path);
    let verbatim = is_verbatim(platform, path);
    let front = front_marks(platform, path);
    let body = body_marks(platform, verbatim, path, start);
    let all = marks(platform, path);
    lemma_body_marks(platform, verbatim, path, start);
    assert forall|at: int| 0 <= at < all.len() implies 0 <= (#[trigger] all[at]).start
        <= all[at].end <= path.len() by {
        if at >= front.len() {
            assert(all[at] == body[at - front.len()]);
        } else {
            assert(all[at] == front[at]);
        }
    }
    assert forall|at: int, later: int| 0 <= at < later < all.len() implies (#[trigger] all[at]).end
        <= (#[trigger] all[later]).start by {
        if later >= front.len() {
            assert(all[later] == body[later - front.len()]);
        } else {
            assert(all[later] == front[later]);
        }
        if at >= front.len() {
            assert(all[at] == body[at - front.len()]);
        } else {
            assert(all[at] == front[at]);
        }
    }
}

/// Finds where the root of a path ends.
fn find_root_end(platform: Platform, chars: &Vec<char>) -> (end: usize)
    ensures
        end == root_end(platform, chars@),
        end <= chars@.len(),
{
    proof {
        lemma_prefix_end(platform, chars@);
    }
    let start: usize = find_prefix_end(platform, chars);
    if start < chars.len() && parts_components(platform, false, chars[start]) {
        start + 1
    } else {
        start
    }
}

/// Finds where the part of a path ends that is not taken off with a name.
fn find_front_end(platform: Platform, chars: &Vec<char>) -> (end: usize)
    ensures
        end == front_end(platform, chars@),
{
    proof {
        lemma_prefix_end(platform, chars@);
    }
    let start: usize = find_prefix_end(platform, chars);
    if let Some(Prefix::Drive(_)) = find_prefix(platform, chars) {
        if start < chars.len() && chars[start] == '.' && (start + 1 >= chars.len()
            || parts_components(platform, false, chars[start + 1])) {
            return start + 1;
        }
    }
    find_root_end(platform, chars)
}

/// Finds the component of the piece from `start` to `end`.
fn find_component(chars: &Vec<char>, start: usize, end: usize, is_dot_kept: bool) -> (found: Option<
    Component,
>)
    requires
        start <= end <= chars@.len(),
    ensures
        match found {
            Some(component) => component_of(
                chars@.subrange(start as int, end as int),
                is_dot_kept,
            ) == Some(component@),
            None => component_of(chars@.subrange(start as int, end as int), is_dot_kept) is None,
        },
{
    let ghost piece = chars@.subrange(start as int, end as int);
    if start == end {
        return None;
    }
    if end - start == 1 && chars[start] == '.' {
        assert(piece =~= seq!['.']);
        return if is_dot_kept {
            Some(Component::Current)
        } else {
            None
        };
    }
    if end - start == 2 && chars[start] == '.' && chars[start + 1] == '.' {
        assert(piece =~= seq!['.', '.']);
        return Some(Component::Parent);
    }
    assert(piece != seq!['.'] && piece != seq!['.', '.']) by {
        assert(piece[0] == chars@[start as int]);
        if piece.len() > 1 {
            assert(piece[1] == chars@[start + 1]);
        }
    }
    let name = chars_of(text_between(chars, start, end).as_str());
    Some(Component::Normal(name))
}

/// Finds the prefix and the root of a path.
fn find_front(platform: Platform, chars: &Vec<char>) -> (found: Vec<Mark>)
    ensures
        mark_views(found@) == front_marks(platform, chars@),
{
    let mut found: Vec<Mark> = Vec::new();
    let end: usize = find_prefix_end(platform, chars);
    let root: usize = find_root_end(platform, chars);
    let mut is_rooted = root > end;
    if let Some(prefix) = find_prefix(platform, chars) {
        match &prefix {
            Prefix::Share(_, _) => {
                is_rooted = true;
            },
            Prefix::Device(_) => {
                is_rooted = true;
            },
            _ => {},
        }
        found.push(Mark { component: Component::Prefix(prefix), start: 0, end });
    }
    if is_rooted {
        found.push(Mark { component: Component::Root, start: end, end: root });
    }
    assert(mark_views(found@) =~= front_marks(platform, chars@));
    found
}

/// Finds the components of a path.
pub fn find_marks(platform: Platform, chars: &Vec<char>) -> (found: Vec<Mark>)
    ensures
        mark_views(found@) == marks(platform, chars@),
{
    let mut found = find_front(platform, chars);
    let verbatim = has_verbatim_prefix(platform, chars);
    let mut start: usize = find_root_end(platform, chars);
    let mut more = true;
    while more
        invariant
            verbatim == is_verbatim(platform, chars@),
            more ==> start <= chars@.len(),
            !more ==> mark_views(found@) == marks(platform, chars@),
            more ==> mark_views(found@) + body_marks(platform, verbatim, chars@, start as int)
                == marks(platform, chars@),
        decreases
                (if more {
                    chars@.len() - start + 1
                } else {
                    0int
                }),
    {
        let end: usize = find_piece_end(platform, verbatim, chars, start);
        let ghost before = mark_views(found@);
        let ghost rest = body_marks(platform, verbatim, chars@, end + 1);
        if let Some(component) = find_component(chars, start, end, verbatim || start == 0) {
            let mark = Mark { component, start, end };
            let ghost view = mark@;
            found.push(mark);
            assert(mark_views(found@) =~= before.push(view));
            assert(before.push(view) + rest =~= before + (seq![view] + rest));
        }
        if end < chars.len() {
            start = end + 1;
        } else {
            more = false;
            assert(rest =~= Seq::<MarkView>::empty());
            assert(mark_views(found@) + rest =~= mark_views(found@));
        }
    }
    found
}

/// The last component of a path, if it is a name.
pub fn file_name(platform: Platform, path: &str) -> (name: Option<String>)
    ensures
        match name {
            Some(name) => file_name_of(platform, path@) == Some(name@),
            None => file_name_of(platform, path@) is None,
        },
{
    let found = find_marks(platform, &chars_of(path));
    if found.len() == 0 {
        return None;
    }
    assert(mark_views(found@).last() == found@[found@.len() - 1]@);
    match &found[found.len() - 1].component {
        Component::Normal(name) => Some(text_of(name)),
        _ => None,
    }
}

/// The part of a path before its last component.
pub fn parent(platform: Platform, path: &str) -> (part: Option<String>)
    ensures
        match part {
            Some(part) => parent_of(platform, path@) == Some(part@),
            None => parent_of(platform, path@) is None,
        },
{
    let chars = chars_of(path);
    let found = find_marks(platform, &chars);
    let front = find_front(platform, &chars);
    assert(mark_views(found@).len() == found@.len());
    assert(mark_views(front@).len() == front@.len());
    if found.len() == front.len() {
        return None;
    }
    if found.len() == 1 {
        return Some(String::new());
    }
    assert(mark_views(found@)[found@.len() - 2] == found@[found@.len() - 2]@);
    proof {
        lemma_marks(platform, path@);
    }
    let last: usize = found[found.len() - 2].end;
    let kept: usize = find_front_end(platform, &chars);
    let end: usize = if last < kept {
        kept
    } else {
        last
    };
    assert(path@.subrange(0, end as int) =~= path@.take(end as int));
    Some(text_between(&chars, 0, end))
}

/// The components of a list of marks.
spec fn listed(list: Seq<Mark>) -> Seq<ComponentView> {
    mark_components(mark_views(list))
}

/// Puts one more component behind a list.
fn add_component(list: &mut Vec<Mark>, mark: Mark)
    requires
        old(list)@.len() > 0,
        listed(old(list)@)[0] is Prefix,
    ensures
        listed(final(list)@) == with_component(listed(old(list)@), mark.component@),
        final(list)@.len() > 0,
        listed(final(list)@)[0] is Prefix,
{
    let ghost before = listed(list@);
    let count: usize = list.len();
    assert(before[0] == list@[0].component@);
    assert(before.last() == list@[count - 1].component@);
    match &mark.component {
        Component::Current => {
            return;
        },
        Component::Parent => {
            let is_name = match &list[count - 1].component {
                Component::Normal(_) => true,
                _ => false,
            };
            if is_name {
                list.pop();
                assert(listed(list@) =~= before.drop_last());
            }
            return;
        },
        Component::Root => {
            list.truncate(1);
            assert(listed(list@) =~= before.take(1));
        },
        _ => {},
    }
    let ghost shorter = listed(list@);
    let ghost added = mark.component@;
    list.push(mark);
    assert(listed(list@) =~= shorter.push(added));
}

/// A component as text.
fn text_of_component(prefix: &str, component: &Component) -> (text: String)
    ensures
        text@ == component_text(prefix@, component@),
{
    match component {
        Component::Prefix(_) => owned(prefix),
        Component::Root => single('\\'),
        Component::Current => single('.'),
        Component::Parent => {
            let mut text = single('.');
            text.push('.');
            assert(text@ =~= seq!['.', '.']);
            text
        },
        Component::Normal(name) => text_of(name),
    }
}

/// A text of one character.
fn single(character: char) -> (text: String)
    ensures
        text@ == seq![character],
{
    let mut text = String::new();
    text.push(character);
    assert(text@ =~= seq![character]);
    text
}

/// Writes components out.
fn write_out(prefix: &str, list: &Vec<Mark>) -> (text: String)
    ensures
        text@ == written_out(prefix@, listed(list@)),
{
    let ghost all = listed(list@);
    let mut text = String::new();
    let mut at: usize = 0;
    assert(all.take(0) =~= Seq::<ComponentView>::empty());
    assert(text@ =~= Seq::<char>::empty());
    while at < list.len()
        invariant
            at <= list@.len(),
            all == listed(list@),
            text@ == written_out(prefix@, all.take(at as int)),
        decreases list@.len() - at,
    {
        let ghost longer = all.take(at + 1);
        assert(longer.drop_last() =~= all.take(at as int));
        assert(longer.last() == list@[at as int].component@);
        let is_root = match &list[at].component {
            Component::Root => true,
            _ => false,
        };
        if at > 0 && !is_root {
            assert(longer[longer.len() - 2] == list@[at - 1].component@);
            let follows_root = match &list[at - 1].component {
                Component::Root => true,
                _ => false,
            };
            if !follows_root {
                text.push('\\');
            }
        }
        text.append(text_of_component(prefix, &list[at].component).as_str());
        at += 1;
    }
    assert(all.take(at as int) =~= all);
    text
}

/// Joins a path to one with a verbatim prefix, component by component.
fn join_verbatim(platform: Platform, base: &Vec<char>, path: &Vec<char>) -> (joined: String)
    requires
        is_verbatim(platform, base@),
    ensures
        joined@ == written_out(
            base@.take(prefix_end(platform, base@)),
            with_components(components(platform, base@), components(platform, path@)),
        ),
{
    proof {
        lemma_prefix_end(platform, base@);
    }
    let mut list = find_marks(platform, base);
    let mut others = find_marks(platform, path);
    let ghost whole = with_components(components(platform, base@), components(platform, path@));
    assert(front_marks(platform, base@).len() > 0);
    assert(marks(platform, base@)[0] == front_marks(platform, base@)[0]);
    assert(mark_views(list@)[0] == list@[0]@);
    while others.len() > 0
        invariant
            list@.len() > 0,
            listed(list@)[0] is Prefix,
            with_components(listed(list@), listed(others@)) == whole,
        decreases others@.len(),
    {
        let ghost rest = listed(others@);
        let mark = others.remove(0);
        assert(rest[0] == mark.component@);
        assert(listed(others@) =~= rest.drop_first());
        add_component(&mut list, mark);
    }
    assert(listed(others@) =~= Seq::<ComponentView>::empty());
    let end: usize = find_prefix_end(platform, base);
    assert(base@.subrange(0, end as int) =~= base@.take(end as int));
    write_out(text_between(base, 0, end).as_str(), &list)
}

/// Whether joining puts a separator behind a path.
fn needs_separator(platform: Platform, base: &Vec<char>) -> (answer: bool)
    ensures
        answer == !(base@.len() == 0 || is_separator(platform, false, base@.last())
            || is_bare_drive(platform, base@)),
{
    if base.len() == 0 || parts_components(platform, false, base[base.len() - 1]) {
        return false;
    }
    match find_prefix(platform, base) {
        Some(Prefix::Drive(_)) => base.len() != find_prefix_end(platform, base),
        _ => true,
    }
}

/// `path` seen from `base`.
pub fn join_path(platform: Platform, base: &str, path: &str) -> (joined: String)
    ensures
        joined@ == joined_path(platform, base@, path@),
{
    let base_chars = chars_of(base);
    let path_chars = chars_of(path);
    proof {
        lemma_prefix_end(platform, base@);
    }
    if find_prefix(platform, &path_chars).is_some() {
        return owned(path);
    }
    if has_verbatim_prefix(platform, &base_chars) && path_chars.len() > 0 {
        return join_verbatim(platform, &base_chars, &path_chars);
    }
    if find_root_end(platform, &path_chars) > 0 {
        let end: usize = find_prefix_end(platform, &base_chars);
        assert(base@.subrange(0, end as int) =~= base@.take(end as int));
        return concat(text_between(&base_chars, 0, end).as_str(), path);
    }
    let mut joined = owned(base);
    if needs_separator(platform, &base_chars) {
        match platform {
            Platform::Unix => joined.push('/'),
            Platform::Windows => joined.push('\\'),
        }
    }
    joined.append(path);
    joined
}

/// Decides whether two components are the same.
pub fn is_same_component(left: &Component, right: &Component) -> (answer: bool)
    ensures
        answer == (left@ == right@),
{
    match (left, right) {
        (Component::Prefix(left), Component::Prefix(right)) => is_same_prefix(left, right),
        (Component::Root, Component::Root) => true,
        (Component::Current, Component::Current) => true,
        (Component::Parent, Component::Parent) => true,
        (Component::Normal(left), Component::Normal(right)) => same_chars(left, right),
        _ => false,
    }
}

/// Decides whether the components of `base` are the first ones of `found`.
fn starts_with_marks(found: &Vec<Mark>, base: &Vec<Mark>) -> (answer: bool)
    ensures
        answer == listed(base@).is_prefix_of(listed(found@)),
{
    let ghost wanted = listed(base@);
    let ghost given = listed(found@);
    if base.len() > found.len() {
        return false;
    }
    let mut at: usize = 0;
    while at < base.len()
        invariant
            wanted == listed(base@),
            given == listed(found@),
            at <= base@.len() <= found@.len(),
            forall|before: int| 0 <= before < at ==> wanted[before] == given[before],
        decreases base@.len() - at,
    {
        assert(wanted[at as int] == base@[at as int].component@);
        assert(given[at as int] == found@[at as int].component@);
        if !is_same_component(&base[at].component, &found[at].component) {
            assert(given.subrange(0, wanted.len() as int)[at as int] != wanted[at as int]);
            return false;
        }
        at += 1;
    }
    assert(given.subrange(0, wanted.len() as int) =~= wanted);
    true
}

/// Whether two paths have the same components.
pub fn is_same_path(platform: Platform, left: &str, right: &str) -> (answer: bool)
    ensures
        answer == same_path(platform, left@, right@),
{
    let left_marks = find_marks(platform, &chars_of(left));
    let right_marks = find_marks(platform, &chars_of(right));
    let answer = left_marks.len() == right_marks.len() && starts_with_marks(
        &left_marks,
        &right_marks,
    );
    proof {
        let ghost wanted = components(platform, right@);
        let ghost given = components(platform, left@);
        assert(wanted.len() == right_marks@.len());
        assert(given.len() == left_marks@.len());
        if answer {
            assert(given.subrange(0, wanted.len() as int) =~= given);
        }
        if wanted == given {
            assert(given.subrange(0, wanted.len() as int) =~= wanted);
        }
    }
    answer
}

/// The part of `path` inside `base`; nothing where it is not inside.
pub fn strip_prefix(platform: Platform, path: &str, base: &str) -> (part: Option<String>)
    ensures
        match part {
            Some(part) => is_inside(platform, path@, base@) && part@ == part_inside(
                platform,
                path@,
                base@,
            ),
            None => !is_inside(platform, path@, base@),
        },
{
    let chars = chars_of(path);
    let found = find_marks(platform, &chars);
    let base_marks = find_marks(platform, &chars_of(base));
    if !starts_with_marks(&found, &base_marks) {
        return None;
    }
    let count: usize = base_marks.len();
    assert(marks(platform, base@).len() == count);
    assert(marks(platform, path@).len() == found@.len());
    let is_prefix_only = count == 1 && find_prefix(platform, &chars).is_some();
    if found.len() == 0 || (count >= found.len() && !is_prefix_only) {
        return Some(String::new());
    }
    assert(mark_views(found@).last() == found@[found@.len() - 1]@);
    proof {
        lemma_marks(platform, path@);
        lemma_last_mark(platform, path@);
    }
    let start: usize = if count == 0 {
        0
    } else if is_prefix_only {
        find_prefix_end(platform, &chars)
    } else {
        assert(mark_views(found@)[count as int] == found@[count as int]@);
        found[count].start
    };
    let last: usize = found[found.len() - 1].end;
    let kept: usize = find_front_end(platform, &chars);
    let end: usize = if last < kept {
        kept
    } else {
        last
    };
    Some(text_between(&chars, start, end))
}

/// The last mark ends behind the prefix.
proof fn lemma_last_mark(platform: Platform, path: Seq<char>)
    ensures
        marks(platform, path).len() > 0 ==> prefix_end(platform, path) <= marks(
            platform,
            path,
        ).last().end,
{
    let front = front_marks(platform, path);
    let all = marks(platform, path);
    lemma_marks(platform, path);
    if all.len() > 1 && front.len() > 0 {
        assert(all[0] == front[0]);
        assert(all[0].end <= all[all.len() - 1].start);
    } else if all.len() == 1 && front.len() == 1 {
        assert(all[0] == front[0]);
    }
}

/// The last component of a path up to its last dot, if it is a name.
pub fn file_stem(platform: Platform, path: &str) -> (stem: Option<String>)
    ensures
        match stem {
            Some(stem) => file_name_of(platform, path@) matches Some(name) && stem@ == stem_of(name),
            None => file_name_of(platform, path@) is None,
        },
{
    match file_name(platform, path) {
        None => None,
        Some(name) => {
            let chars = chars_of(name.as_str());
            let mut place: usize = chars.len();
            assert(name@.take(place as int) =~= name@);
            while place > 0 && chars[place - 1] != '.'
                invariant
                    chars@ == name@,
                    place <= name@.len(),
                    last_place(name@, '.') == last_place(name@.take(place as int), '.'),
                decreases place,
            {
                let ghost front = name@.take(place as int);
                assert(front.drop_last() =~= name@.take(place - 1));
                assert(front.last() == name@[place - 1]);
                place -= 1;
            }
            if place > 0 {
                assert(name@.take(place as int).last() == '.');
            }
            if place <= 1 {
                Some(name)
            } else {
                assert(name@.subrange(0, place - 1) =~= name@.take(place - 1));
                Some(text_between(&chars, 0, place - 1))
            }
        },
    }
}

} // verus!
