//! What joining paths does to their components.

use vstd::prelude::*;

use crate::paths::{
    body_marks, component_of, component_text, components, file_name_of, front_marks, has_drive_dot,
    has_root, is_bare_drive, is_inside, joined_path, last_place, lemma_body_marks, lemma_marks,
    main_separator, mark_components, marks, parent_of, part_inside, root_end, stem_of,
    with_component, with_components, written_out, ComponentView, MarkView,
};
use crate::platform::Platform;
use crate::prefixes::{
    begins_verbatim, begins_with_two, is_drive_at, is_separator, is_verbatim, lemma_piece_end,
    lemma_piece_ends_at, lemma_prefix_end, lemma_two_pieces, piece_end, prefix_end, prefix_of,
    two_pieces, verbatim_prefix, PrefixView,
};

verus! {

/// Whether a text holds no separator.
pub open spec fn is_one_piece(platform: Platform, text: Seq<char>) -> bool {
    forall|at: int| 0 <= at < text.len() ==> !is_separator(platform, false, #[trigger] text[at])
}

/// Whether a text is the name of one directory entry.
pub open spec fn is_plain_name(platform: Platform, name: Seq<char>) -> bool {
    &&& name.len() > 0
    &&& is_one_piece(platform, name)
    &&& prefix_of(platform, name) is None
    &&& name != seq!['.']
    &&& name != seq!['.', '.']
}

/// Whether a name can be joined to a path without becoming a part of its prefix. That is always so
/// but for the beginnings of shares and devices, and for verbatim prefixes with nothing behind
/// them.
pub open spec fn takes_names(platform: Platform, base: Seq<char>) -> bool {
    match prefix_of(platform, base) {
        None => platform == Platform::Unix || !begins_with_two(base),
        Some(PrefixView::Drive(_)) => true,
        Some(PrefixView::Share(_, _)) => true,
        Some(PrefixView::Device(name)) => name.len() > 0,
        Some(PrefixView::VerbatimShare(_, share)) => share.len() > 0 && has_root(platform, base),
        Some(_) => has_root(platform, base),
    }
}

/// Behind one more separator, the components of a path go on as if it began there.
proof fn lemma_separator_splits(
    platform: Platform,
    verbatim: bool,
    front: Seq<char>,
    separator: char,
    rest: Seq<char>,
    start: int,
)
    requires
        0 <= start <= front.len(),
        is_separator(platform, verbatim, separator),
    ensures
        ({
            let whole = front.push(separator) + rest;
            body_marks(platform, verbatim, whole, start) == body_marks(
                platform,
                verbatim,
                front,
                start,
            ) + body_marks(platform, verbatim, whole, front.len() as int + 1)
        }),
    decreases front.len() - start,
{
    let whole = front.push(separator) + rest;
    lemma_piece_end(platform, verbatim, front, start);
    let end = piece_end(platform, verbatim, front, start);
    assert forall|at: int| start <= at < end implies !is_separator(
        platform,
        verbatim,
        #[trigger] whole[at],
    ) by {
        assert(whole[at] == front[at]);
    }
    assert(is_separator(platform, verbatim, whole[end])) by {
        if end < front.len() {
            assert(whole[end] == front[end]);
        }
    }
    lemma_piece_ends_at(platform, verbatim, whole, start, end);
    assert(whole.subrange(start, end) =~= front.subrange(start, end));
    let behind = body_marks(platform, verbatim, whole, front.len() as int + 1);
    if end < front.len() {
        lemma_separator_splits(platform, verbatim, front, separator, rest, end + 1);
    } else {
        assert(body_marks(platform, verbatim, front, end + 1) =~= Seq::<MarkView>::empty());
    }
    assert(body_marks(platform, verbatim, whole, start) =~= body_marks(
        platform,
        verbatim,
        front,
        start,
    ) + behind);
}

/// The last piece of a path is one component, or none.
proof fn lemma_last_piece(
    platform: Platform,
    verbatim: bool,
    path: Seq<char>,
    piece: Seq<char>,
    start: int,
)
    requires
        forall|at: int|
            0 <= at < piece.len() ==> !is_separator(platform, verbatim, #[trigger] piece[at]),
        0 <= start <= path.len(),
        path.skip(start) == piece,
    ensures
        match component_of(piece, verbatim || start == 0) {
            Some(component) => body_marks(platform, verbatim, path, start) == seq![
                MarkView { component, start, end: path.len() as int },
            ],
            None => body_marks(platform, verbatim, path, start) == Seq::<MarkView>::empty(),
        },
{
    let end = path.len() as int;
    assert forall|at: int| start <= at < end implies !is_separator(
        platform,
        verbatim,
        #[trigger] path[at],
    ) by {
        assert(path[at] == piece[at - start]);
    }
    lemma_piece_ends_at(platform, verbatim, path, start, end);
    assert(path.subrange(start, end) =~= piece);
    assert(body_marks(platform, verbatim, path, end + 1) =~= Seq::<MarkView>::empty());
    assert(body_marks(platform, verbatim, path, start) =~= match component_of(
        piece,
        verbatim || start == 0,
    ) {
        Some(component) => seq![MarkView { component, start, end }],
        None => Seq::empty(),
    });
}

/// There is nothing behind the end of a path.
proof fn lemma_no_marks_at_end(platform: Platform, verbatim: bool, path: Seq<char>)
    ensures
        body_marks(platform, verbatim, path, path.len() as int) == Seq::<MarkView>::empty(),
{
    let end = path.len() as int;
    assert(path.skip(end) =~= Seq::<char>::empty());
    lemma_last_piece(platform, verbatim, path, Seq::empty(), end);
}

/// No component behind the root is a prefix.
pub proof fn lemma_body_has_no_prefix(
    platform: Platform,
    verbatim: bool,
    path: Seq<char>,
    start: int,
)
    ensures
        forall|at: int|
            0 <= at < body_marks(platform, verbatim, path, start).len() ==> !((
            #[trigger] body_marks(platform, verbatim, path, start)[at]).component is Prefix),
    decreases path.len() + 1 - start,
{
    if 0 <= start <= path.len() {
        lemma_piece_end(platform, verbatim, path, start);
        let end = piece_end(platform, verbatim, path, start);
        lemma_body_has_no_prefix(platform, verbatim, path, end + 1);
        let all = body_marks(platform, verbatim, path, start);
        let rest = body_marks(platform, verbatim, path, end + 1);
        assert forall|at: int| 0 <= at < all.len() implies !((#[trigger] all[at]).component
            is Prefix) by {
            if all.len() > rest.len() {
                if at > 0 {
                    assert(all[at] == rest[at - 1]);
                }
            } else {
                assert(all[at] == rest[at]);
            }
        }
    }
}

/// What stands before a path that is joined to a base that is not verbatim.
spec fn plain_front(platform: Platform, base: Seq<char>) -> Seq<char> {
    if base.len() == 0 || is_separator(platform, false, base.last()) || is_bare_drive(
        platform,
        base,
    ) {
        base
    } else {
        base.push(main_separator(platform))
    }
}

/// Two paths that agree up to the end of a share agree in it.
proof fn lemma_same_share(path: Seq<char>, other: Seq<char>, start: int)
    requires
        0 <= start <= path.len() <= other.len(),
        two_pieces(false, path, start).0.len() > 0,
        two_pieces(false, path, start).1.len() > 0,
        path == other.take(path.len() as int),
        other.len() > path.len() ==> is_separator(
            Platform::Windows,
            false,
            other[path.len() as int],
        ) || is_separator(Platform::Windows, false, path.last()),
    ensures
        two_pieces(false, other, start) == two_pieces(false, path, start),
{
    let windows = Platform::Windows;
    lemma_piece_end(windows, false, path, start);
    let end = piece_end(windows, false, path, start);
    assert forall|at: int| 0 <= at < path.len() implies path[at] == #[trigger] other[at] by {
        assert(other.take(path.len() as int)[at] == other[at]);
    }
    assert(end < path.len());
    lemma_piece_ends_at(windows, false, other, start, end);
    lemma_piece_end(windows, false, path, end + 1);
    let last = piece_end(windows, false, path, end + 1);
    if last == path.len() && other.len() > path.len() {
        assert(!is_separator(windows, false, path[last - 1]));
    }
    lemma_piece_ends_at(windows, false, other, end + 1, last);
    assert(other.subrange(start, end) =~= path.subrange(start, end));
    assert(other.subrange(end + 1, last) =~= path.subrange(end + 1, last));
}

/// Joining a path without a prefix or a root to a base keeps the prefix of the base.
proof fn lemma_join_keeps_prefix(platform: Platform, base: Seq<char>, path: Seq<char>)
    requires
        takes_names(platform, base),
        !is_verbatim(platform, base),
        path.len() > 0,
        prefix_of(platform, path) is None,
        !has_root(platform, path),
    ensures
        prefix_of(platform, plain_front(platform, base) + path) == prefix_of(platform, base),
        takes_names(platform, plain_front(platform, base) + path),
{
    let whole = plain_front(platform, base) + path;
    if platform == Platform::Windows {
        assert(!is_separator(platform, false, path[0]));
        assert forall|at: int| 0 <= at < base.len() implies base[at] == #[trigger] whole[at] by {}
        assert(whole.take(base.len() as int) =~= base);
        lemma_prefix_end(platform, base);
        match prefix_of(platform, base) {
            None => {
                if base.len() == 0 {
                    assert(whole =~= path);
                    if begins_with_two(path) {
                        assert(is_separator(platform, false, path[0]));
                    }
                }
            },
            Some(PrefixView::Drive(_)) => {},
            Some(PrefixView::Share(server, share)) => {
                lemma_two_pieces(false, base, 2);
                lemma_same_share(base, whole, 2);
            },
            Some(PrefixView::Device(name)) => {
                lemma_piece_end(platform, false, base, 4);
                let end = piece_end(platform, false, base, 4);
                if end == base.len() {
                    assert(!is_separator(platform, false, base[end - 1]));
                }
                lemma_piece_ends_at(platform, false, whole, 4, end);
                assert(whole.subrange(4, end) =~= base.subrange(4, end));
            },
            Some(_) => {},
        }
    }
}

/// Joining a path without a prefix or a root to a base that is not verbatim puts the components of
/// its own pieces behind those of the base.
proof fn lemma_join_splits(platform: Platform, base: Seq<char>, path: Seq<char>)
    requires
        takes_names(platform, base),
        !is_verbatim(platform, base),
        path.len() > 0,
        prefix_of(platform, path) is None,
        !has_root(platform, path),
    ensures
        ({
            let whole = joined_path(platform, base, path);
            &&& whole == plain_front(platform, base) + path
            &&& prefix_of(platform, whole) == prefix_of(platform, base)
            &&& marks(platform, whole).len() >= marks(platform, base).len()
            &&& marks(platform, whole).skip(marks(platform, base).len() as int) == body_marks(
                platform,
                false,
                whole,
                whole.len() - path.len(),
            )
            &&& components(platform, whole).take(marks(platform, base).len() as int) == components(
                platform,
                base,
            )
        }),
{
    let whole = joined_path(platform, base, path);
    let front = plain_front(platform, base);
    let place = front.len() as int;
    assert(whole =~= front + path);
    lemma_join_keeps_prefix(platform, base, path);
    lemma_prefix_end(platform, base);
    let origin = prefix_end(platform, base);
    let start = root_end(platform, base);
    let body = body_marks(platform, false, base, start);
    let tail = body_marks(platform, false, whole, place);
    assert(!is_separator(platform, false, path[0]));
    assert(mark_components(front_marks(platform, whole)) =~= mark_components(
        front_marks(platform, base),
    ) && body_marks(platform, false, whole, root_end(platform, whole)) =~= body + tail) by {
        if base.len() == 0 || is_bare_drive(platform, base) {
            assert(front =~= base);
            assert(whole[origin] == path[0]);
            lemma_no_marks_at_end(platform, false, base);
        } else if base.len() == origin {
            // A share or a device: the separator behind it makes its root plain to see.
            let last = base.last();
            lemma_share_ends_plainly(platform, base);
            assert(whole[origin] == main_separator(platform));
            lemma_no_marks_at_end(platform, false, base);
        } else {
            assert(whole[origin] == base[origin]);
            let shorter = if is_separator(platform, false, base.last()) {
                base.drop_last()
            } else {
                base
            };
            let separator = front.last();
            assert(front =~= shorter.push(separator));
            assert(whole =~= shorter.push(separator) + path);
            if start <= shorter.len() {
                lemma_separator_splits(platform, false, shorter, separator, path, start);
                if shorter.len() < base.len() {
                    assert(base =~= shorter.push(separator) + Seq::<char>::empty());
                    lemma_separator_splits(
                        platform,
                        false,
                        shorter,
                        separator,
                        Seq::empty(),
                        start,
                    );
                    lemma_no_marks_at_end(platform, false, base);
                    assert(body =~= body_marks(platform, false, shorter, start));
                }
            } else {
                lemma_no_marks_at_end(platform, false, base);
            }
        }
    }
    let heads = front_marks(platform, whole);
    let base_heads = front_marks(platform, base);
    assert(heads.len() == base_heads.len()) by {
        assert(mark_components(heads).len() == mark_components(base_heads).len());
    }
    assert(marks(platform, whole) =~= heads + body + tail);
    assert(marks(platform, whole).skip(marks(platform, base).len() as int) =~= tail);
    let all = components(platform, whole).take(marks(platform, base).len() as int);
    let known = components(platform, base);
    assert forall|at: int| 0 <= at < known.len() implies all[at] == known[at] by {
        if at < heads.len() {
            assert(mark_components(heads)[at] == mark_components(base_heads)[at]);
        }
    }
    assert(all =~= known);
}

/// A share or a device with a name does not end with a separator.
proof fn lemma_share_ends_plainly(platform: Platform, base: Seq<char>)
    requires
        takes_names(platform, base),
        !is_verbatim(platform, base),
        !is_bare_drive(platform, base),
        base.len() == prefix_end(platform, base),
        base.len() > 0,
    ensures
        prefix_of(platform, base) matches Some(prefix) && (prefix is Share || prefix is Device),
        !is_separator(platform, false, base.last()),
{
    lemma_prefix_end(platform, base);
    match prefix_of(platform, base) {
        Some(PrefixView::Share(server, share)) => {
            lemma_piece_end(platform, false, base, 2);
            let end = piece_end(platform, false, base, 2);
            lemma_piece_end(platform, false, base, end + 1);
            assert(!is_separator(platform, false, base[base.len() - 1]));
        },
        Some(PrefixView::Device(name)) => {
            lemma_piece_end(platform, false, base, 4);
            assert(!is_separator(platform, false, base[base.len() - 1]));
        },
        _ => {},
    }
}

/// A plain name has one component.
proof fn lemma_name_is_a_component(platform: Platform, name: Seq<char>)
    requires
        is_plain_name(platform, name),
    ensures
        !has_root(platform, name),
        components(platform, name) == seq![ComponentView::Normal(name)],
{
    assert(!is_separator(platform, false, name[0]));
    assert(name.skip(0) =~= name);
    lemma_last_piece(platform, false, name, name, 0);
    assert(front_marks(platform, name) =~= Seq::<MarkView>::empty());
    assert(components(platform, name) =~= seq![ComponentView::Normal(name)]);
}

/// A text that is one piece, with a suffix that begins with a dot, is a plain name.
pub proof fn lemma_name_with_suffix(platform: Platform, name: Seq<char>, suffix: Seq<char>)
    requires
        is_one_piece(platform, name),
        prefix_of(platform, name) is None,
        is_one_piece(platform, suffix),
        suffix.len() > 2,
        suffix[0] == '.',
    ensures
        is_plain_name(platform, name + suffix),
{
    let file = name + suffix;
    assert forall|at: int| 0 <= at < file.len() implies !is_separator(
        platform,
        false,
        #[trigger] file[at],
    ) by {
        if at < name.len() {
            assert(file[at] == name[at]);
        } else {
            assert(file[at] == suffix[at - name.len()]);
        }
    }
    if platform == Platform::Windows {
        assert(!is_drive_at(name, 0)) by {
            if name.len() > 0 {
                assert(!is_separator(platform, false, name[0]));
            }
        }
        assert(!is_drive_at(file, 0));
    }
    lemma_letters_have_no_prefix(platform, file);
}

/// A text that is one piece has no prefix unless a colon stands second.
pub proof fn lemma_letters_have_no_prefix(platform: Platform, name: Seq<char>)
    requires
        name.len() > 0,
        is_one_piece(platform, name),
        platform == Platform::Windows ==> !is_drive_at(name, 0),
    ensures
        prefix_of(platform, name) is None,
{
    assert(!is_separator(platform, false, name[0]));
}

/// Joining a plain name to a path adds it as the last component.
pub proof fn law_join_adds_a_component(platform: Platform, base: Seq<char>, name: Seq<char>)
    requires
        is_plain_name(platform, name),
        takes_names(platform, base),
    ensures
        components(platform, joined_path(platform, base, name)) == components(platform, base).push(
            ComponentView::Normal(name),
        ),
        file_name_of(platform, joined_path(platform, base, name)) == Some(name),
        is_inside(platform, joined_path(platform, base, name), base),
        takes_names(platform, joined_path(platform, base, name)),
{
    lemma_name_is_a_component(platform, name);
    let path = joined_path(platform, base, name);
    let known = components(platform, base);
    if is_verbatim(platform, base) {
        lemma_verbatim_join(platform, base, name);
    } else {
        lemma_join_splits(platform, base, name);
        lemma_join_keeps_prefix(platform, base, name);
        let place = path.len() - name.len();
        assert(path.skip(place) =~= name);
        lemma_last_piece(platform, false, path, name, place);
        let tail = body_marks(platform, false, path, place);
        let count = marks(platform, base).len() as int;
        assert(marks(platform, path) =~= marks(platform, path).take(count) + tail);
        assert(components(platform, path) =~= components(platform, path).take(count).push(
            ComponentView::Normal(name),
        ));
    }
    let all = components(platform, path);
    assert(all.subrange(0, known.len() as int) =~= known);
    assert(all.last() == marks(platform, path).last().component);
}

/// Whether a path is relative, begins with a name or `..`, and has nothing behind its last
/// component.
pub open spec fn is_tidy_relative(platform: Platform, path: Seq<char>) -> bool {
    let found = marks(platform, path);
    &&& prefix_of(platform, path) is None
    &&& !has_root(platform, path)
    &&& found.len() > 0
    &&& found[0].start == 0
    &&& found[0].component != ComponentView::Current
    &&& found.last().end == path.len()
}

/// A mark that stands further behind.
spec fn moved(mark: MarkView, distance: int) -> MarkView {
    MarkView {
        component: mark.component,
        start: mark.start + distance,
        end: mark.end + distance,
    }
}

/// Behind other text, the components of a path stand further behind.
proof fn lemma_marks_move(platform: Platform, front: Seq<char>, rest: Seq<char>, start: int)
    requires
        0 <= start <= rest.len() + 1,
        start == 0 ==> rest.take(piece_end(platform, false, rest, 0)) != seq!['.'],
    ensures
        body_marks(platform, false, front + rest, front.len() + start) == body_marks(
            platform,
            false,
            rest,
            start,
        ).map_values(|mark: MarkView| moved(mark, front.len() as int)),
    decreases rest.len() + 1 - start,
{
    let whole = front + rest;
    let distance = front.len() as int;
    let shift = |mark: MarkView| moved(mark, distance);
    if start <= rest.len() {
        lemma_piece_end(platform, false, rest, start);
        let end = piece_end(platform, false, rest, start);
        assert forall|at: int| distance + start <= at < distance + end implies !is_separator(
            platform,
            false,
            #[trigger] whole[at],
        ) by {
            assert(whole[at] == rest[at - distance]);
        }
        lemma_piece_ends_at(platform, false, whole, distance + start, distance + end);
        let piece = rest.subrange(start, end);
        assert(whole.subrange(distance + start, distance + end) =~= piece);
        if start == 0 {
            assert(piece =~= rest.take(end));
        }
        assert(component_of(piece, start == 0) == component_of(piece, distance + start == 0));
        lemma_marks_move(platform, front, rest, end + 1);
    }
    assert(body_marks(platform, false, whole, distance + start) =~= body_marks(
        platform,
        false,
        rest,
        start,
    ).map_values(shift));
}

/// A relative path that was joined to another is the part inside it. A verbatim base is left out,
/// as joining to it takes `..` away, and so is a drive with a lone dot, which is never taken off.
pub proof fn law_join_is_undone(platform: Platform, base: Seq<char>, path: Seq<char>)
    requires
        is_tidy_relative(platform, path),
        takes_names(platform, base),
        !is_verbatim(platform, base),
        !(components(platform, base).len() == 1 && has_drive_dot(platform, base)),
    ensures
        is_inside(platform, joined_path(platform, base, path), base),
        part_inside(platform, joined_path(platform, base, path), base) == path,
{
    let whole = joined_path(platform, base, path);
    let found = body_marks(platform, false, path, 0);
    let distance = whole.len() - path.len();
    let shift = |mark: MarkView| moved(mark, distance);
    assert(front_marks(platform, path) =~= Seq::<MarkView>::empty());
    assert(marks(platform, path) =~= found);
    if path.len() == 0 {
        lemma_no_marks_at_end(platform, false, path);
    }
    lemma_piece_end(platform, false, path, 0);
    let first = path.take(piece_end(platform, false, path, 0));
    assert(path.subrange(0, piece_end(platform, false, path, 0)) =~= first);
    if first == seq!['.'] {
        assert(component_of(first, true) == Some(ComponentView::Current));
        assert(found[0].component == ComponentView::Current);
    }
    lemma_join_splits(platform, base, path);
    let front = whole.take(distance);
    assert(whole =~= front + path);
    lemma_marks_move(platform, front, path, 0);
    let count = marks(platform, base).len() as int;
    let tail = marks(platform, whole).skip(count);
    assert(tail =~= found.map_values(shift));
    assert(components(platform, base) =~= components(platform, whole).subrange(0, count));
    assert(marks(platform, whole)[count] == tail[0]);
    assert(marks(platform, whole).last() == tail.last());
    assert(tail[0] == shift(found[0]));
    assert(tail.last() == shift(found.last()));
    lemma_marks(platform, whole);
    assert(whole.subrange(distance, whole.len() as int) =~= path);
    lemma_prefix_end(platform, base);
    if count == 0 {
        assert(front_marks(platform, base).len() == 0);
        lemma_no_components(platform, base);
    } else if count == 1 && prefix_of(platform, base) is Some {
        lemma_only_prefix(platform, base);
    }
}

/// A path without components is empty.
proof fn lemma_no_components(platform: Platform, path: Seq<char>)
    requires
        marks(platform, path).len() == 0,
    ensures
        path.len() == 0,
{
    assert(front_marks(platform, path).len() == 0);
    assert(prefix_of(platform, path) is None);
    assert(root_end(platform, path) == 0);
    lemma_piece_end(platform, false, path, 0);
    let end = piece_end(platform, false, path, 0);
    assert(path.subrange(0, end).len() == end);
    if path.len() > 0 {
        assert(!is_separator(platform, false, path[0]));
        assert(component_of(path.subrange(0, end), true) is Some);
    }
}

/// A path with nothing but a prefix that is not verbatim is a drive.
proof fn lemma_only_prefix(platform: Platform, path: Seq<char>)
    requires
        marks(platform, path).len() == 1,
        prefix_of(platform, path) is Some,
        !is_verbatim(platform, path),
        !has_drive_dot(platform, path),
    ensures
        is_bare_drive(platform, path),
{
    lemma_prefix_end(platform, path);
    let start = prefix_end(platform, path);
    assert(front_marks(platform, path).len() == 1);
    assert(prefix_of(platform, path)->Some_0 is Drive);
    assert(root_end(platform, path) == start);
    assert(body_marks(platform, false, path, start).len() == 0);
    if start < path.len() {
        assert(!is_separator(platform, false, path[start]));
        lemma_piece_end(platform, false, path, start);
        let end = piece_end(platform, false, path, start);
        let piece = path.subrange(start, end);
        assert(component_of(piece, false) is None);
        assert(piece.len() > 0);
        assert(piece == seq!['.']);
        assert(piece[0] == path[start]);
        assert(end == start + 1);
    }
}

/// Where one path is inside a second and that inside a third, it is inside the third.
pub proof fn law_being_inside_chains(
    platform: Platform,
    path: Seq<char>,
    middle: Seq<char>,
    base: Seq<char>,
)
    requires
        is_inside(platform, path, middle),
        is_inside(platform, middle, base),
    ensures
        is_inside(platform, path, base),
{
    let all = components(platform, path);
    let part = components(platform, middle);
    let less = components(platform, base);
    assert(all.subrange(0, part.len() as int) == part);
    assert(part.subrange(0, less.len() as int) == less);
    assert(all.subrange(0, less.len() as int) =~= less) by {
        assert forall|at: int| 0 <= at < less.len() implies all[at] == less[at] by {
            assert(less[at] == part.subrange(0, less.len() as int)[at]);
            assert(part[at] == all.subrange(0, part.len() as int)[at]);
        }
    }
}

/// Whether a component behind a verbatim prefix and its root can be written out and read back.
spec fn is_piece_component(component: ComponentView) -> bool {
    match component {
        ComponentView::Normal(name) => {
            &&& name.len() > 0
            &&& name != seq!['.']
            &&& name != seq!['.', '.']
            &&& forall|at: int| 0 <= at < name.len() ==> #[trigger] name[at] != '\\'
        },
        ComponentView::Current => true,
        ComponentView::Parent => true,
        _ => false,
    }
}

/// The components behind a verbatim prefix and its root can be read back.
proof fn lemma_body_is_readable(path: Seq<char>, start: int)
    requires
        0 <= start <= path.len() + 1,
    ensures
        forall|at: int|
            0 <= at < body_marks(Platform::Windows, true, path, start).len() ==> is_piece_component(
                (#[trigger] body_marks(Platform::Windows, true, path, start)[at]).component,
            ),
    decreases path.len() + 1 - start,
{
    if start <= path.len() {
        let windows = Platform::Windows;
        lemma_piece_end(windows, true, path, start);
        let end = piece_end(windows, true, path, start);
        lemma_body_is_readable(path, end + 1);
        let all = body_marks(windows, true, path, start);
        let rest = body_marks(windows, true, path, end + 1);
        let piece = path.subrange(start, end);
        assert forall|at: int| 0 <= at < all.len() implies is_piece_component(
            (#[trigger] all[at]).component,
        ) by {
            if component_of(piece, true) is Some {
                if at > 0 {
                    assert(all[at] == rest[at - 1]);
                } else {
                    assert forall|place: int| 0 <= place < piece.len() implies #[trigger] piece[place]
                        != '\\' by {
                        assert(piece[place] == path[start + place]);
                    }
                }
            } else {
                assert(all[at] == rest[at]);
            }
        }
    }
}

/// A verbatim prefix stays the same before any root.
proof fn lemma_verbatim_prefix_stays(base: Seq<char>, other: Seq<char>)
    requires
        is_verbatim(Platform::Windows, base),
        takes_names(Platform::Windows, base),
        other.len() > prefix_end(Platform::Windows, base),
        other.take(prefix_end(Platform::Windows, base)) == base.take(
            prefix_end(Platform::Windows, base),
        ),
        other[prefix_end(Platform::Windows, base)] == '\\',
    ensures
        prefix_of(Platform::Windows, other) == prefix_of(Platform::Windows, base),
{
    let windows = Platform::Windows;
    lemma_prefix_end(windows, base);
    let end = prefix_end(windows, base);
    assert forall|at: int| 0 <= at < end implies base[at] == #[trigger] other[at] by {
        assert(base.take(end)[at] == other.take(end)[at]);
    }
    assert(begins_verbatim(base));
    match prefix_of(windows, base) {
        Some(PrefixView::VerbatimShare(server, share)) => {
            lemma_piece_end(windows, true, base, 8);
            let middle = piece_end(windows, true, base, 8);
            lemma_piece_end(windows, true, base, middle + 1);
            assert(piece_end(windows, true, base, middle + 1) == end);
            lemma_piece_ends_at(windows, true, other, 8, middle);
            lemma_piece_ends_at(windows, true, other, middle + 1, end);
            assert(other.subrange(8, middle) =~= base.subrange(8, middle));
            assert(other.subrange(middle + 1, end) =~= base.subrange(middle + 1, end));
        },
        Some(PrefixView::VerbatimDrive(_)) => {
            assert(other[4] == base[4] && other[5] == base[5]);
        },
        Some(PrefixView::Verbatim(name)) => {
            lemma_piece_end(windows, true, base, 4);
            assert(piece_end(windows, true, base, 4) == end);
            lemma_piece_ends_at(windows, true, other, 4, end);
            assert(other.subrange(4, end) =~= base.subrange(4, end));
            assert(end < base.len() && is_separator(windows, true, base[end]));
            assert(base[end] == other[end]);
            lemma_not_otherwise_verbatim(base, other, end);
        },
        _ => {},
    }
}

/// A verbatim name is no share and no drive before another root either.
proof fn lemma_not_otherwise_verbatim(base: Seq<char>, other: Seq<char>, end: int)
    requires
        verbatim_prefix(base) is Verbatim,
        4 <= end < base.len(),
        end < other.len(),
        end == piece_end(Platform::Windows, true, base, 4),
        base[end] == other[end],
        base[end] == '\\',
        forall|at: int| 0 <= at < end ==> base[at] == #[trigger] other[at],
    ensures
        verbatim_prefix(other) is Verbatim,
{
    let windows = Platform::Windows;
    lemma_piece_end(windows, true, base, 4);
    if end >= 8 {
        assert(base[4] == other[4] && base[5] == other[5] && base[6] == other[6] && base[7]
            == other[7]);
    } else if end == 7 {
        assert(base[4] == other[4] && base[5] == other[5] && base[6] == other[6]);
    } else if end == 6 {
        assert(base[4] == other[4] && base[5] == other[5]);
    } else if end == 5 {
        assert(base[4] == other[4]);
    }
}

/// Components behind a verbatim prefix and its root, written out, are read as they are.
proof fn lemma_written_out(base: Seq<char>, list: Seq<ComponentView>)
    requires
        is_verbatim(Platform::Windows, base),
        takes_names(Platform::Windows, base),
        list.len() >= 2,
        list[0] == ComponentView::Prefix(prefix_of(Platform::Windows, base)->Some_0),
        list[1] == ComponentView::Root,
        forall|at: int| 2 <= at < list.len() ==> is_piece_component(#[trigger] list[at]),
    ensures
        ({
            let path = written_out(base.take(prefix_end(Platform::Windows, base)), list);
            &&& prefix_of(Platform::Windows, path) == prefix_of(Platform::Windows, base)
            &&& has_root(Platform::Windows, path)
            &&& components(Platform::Windows, path) == list
        }),
    decreases list.len(),
{
    let windows = Platform::Windows;
    lemma_prefix_end(windows, base);
    let end = prefix_end(windows, base);
    let raw = base.take(end);
    let path = written_out(raw, list);
    let front = list.drop_last();
    let before = written_out(raw, front);
    let last = list.last();
    let text = component_text(raw, last);
    if list.len() == 2 {
        assert(front.drop_last() =~= Seq::<ComponentView>::empty());
        assert(written_out(raw, front.drop_last()) =~= Seq::<char>::empty());
        assert(front.last() == list[0]);
        assert(before =~= raw);
        assert(path =~= raw.push('\\'));
        assert(path.take(end) =~= raw);
        lemma_verbatim_prefix_stays(base, path);
        lemma_no_marks_at_end(windows, true, path);
        assert(components(windows, path) =~= list);
    } else {
        assert(front[0] == list[0] && front[1] == list[1]);
        assert forall|at: int| 2 <= at < front.len() implies is_piece_component(
            #[trigger] front[at],
        ) by {
            assert(front[at] == list[at]);
        }
        lemma_written_out(base, front);
        lemma_prefix_end(windows, before);
        assert(is_piece_component(list[list.len() - 1]));
        lemma_begins_with_prefix(raw, front);
        assert(before.take(end) == raw);
        let start = end + 1;
        assert(root_end(windows, before) == start);
        // The components of the front, behind its root, and then the last one.
        let place = path.len() - text.len();
        assert(path =~= path.take(place) + text);
        assert(path.skip(place) =~= text);
        assert forall|at: int| 0 <= at < text.len() implies !is_separator(
            windows,
            true,
            #[trigger] text[at],
        ) by {}
        assert(component_of(text, true) == Some(last)) by {
            assert(seq!['.'] != seq!['.', '.']) by {
                assert(seq!['.'].len() != seq!['.', '.'].len());
            }
        }
        lemma_last_piece(windows, true, path, text, place);
        assert(before[end] == '\\') by {
            lemma_root_is_written(raw, front);
        }
        if list.len() == 3 {
            assert(list[1] == ComponentView::Root);
            assert(path =~= before + text);
            assert(before.len() == start) by {
                assert(front.drop_last().drop_last() =~= Seq::<ComponentView>::empty());
                assert(written_out(raw, front.drop_last().drop_last()) =~= Seq::<char>::empty());
                assert(front.drop_last().last() == list[0]);
                assert(written_out(raw, front.drop_last()) =~= raw);
                assert(before =~= raw.push('\\'));
            }
            assert(body_marks(windows, true, before, start) =~= Seq::<MarkView>::empty()) by {
                lemma_no_marks_at_end(windows, true, before);
            }
        } else {
            assert(list[list.len() - 2] == front[front.len() - 1]);
            assert(is_piece_component(front[front.len() - 1]));
            assert(path =~= before.push('\\') + text);
            lemma_separator_splits(windows, true, before, '\\', text, start);
        }
        assert(path.take(end) =~= raw);
        assert(path[end] == before[end]);
        lemma_verbatim_prefix_stays(base, path);
        assert(root_end(windows, path) == start);
        let known = body_marks(windows, true, before, start);
        let tail = body_marks(windows, true, path, place);
        assert(body_marks(windows, true, path, start) =~= known + tail);
        assert(front_marks(windows, path) =~= front_marks(windows, before));
        assert(marks(windows, path) =~= marks(windows, before) + tail);
        assert(components(windows, path) =~= components(windows, before).push(last));
        assert(list =~= front.push(last));
    }
}

/// What is written out begins with the prefix.
proof fn lemma_begins_with_prefix(raw: Seq<char>, list: Seq<ComponentView>)
    requires
        list.len() >= 1,
        list[0] is Prefix,
    ensures
        written_out(raw, list).len() >= raw.len(),
        written_out(raw, list).take(raw.len() as int) == raw,
    decreases list.len(),
{
    let front = list.drop_last();
    if list.len() == 1 {
        assert(written_out(raw, front) =~= Seq::<char>::empty());
        assert(written_out(raw, list) =~= raw);
    } else {
        assert(front[0] == list[0]);
        lemma_begins_with_prefix(raw, front);
    }
    assert(written_out(raw, list).take(raw.len() as int) =~= raw);
}

/// The root is written out behind the prefix.
proof fn lemma_root_is_written(raw: Seq<char>, list: Seq<ComponentView>)
    requires
        list.len() >= 2,
        list[0] is Prefix,
        list[1] == ComponentView::Root,
    ensures
        written_out(raw, list).len() > raw.len(),
        written_out(raw, list)[raw.len() as int] == '\\',
    decreases list.len(),
{
    let front = list.drop_last();
    if list.len() == 2 {
        assert(front.drop_last() =~= Seq::<ComponentView>::empty());
        assert(written_out(raw, front.drop_last()) =~= Seq::<char>::empty());
        assert(front.last() == list[0]);
        assert(written_out(raw, front) =~= raw);
        assert(written_out(raw, list) =~= raw.push('\\'));
    } else {
        assert(front[0] == list[0] && front[1] == list[1]);
        lemma_root_is_written(raw, front);
    }
}

/// Joining a plain name to a path with a verbatim prefix and a root adds it as the last component.
proof fn lemma_verbatim_join(platform: Platform, base: Seq<char>, name: Seq<char>)
    requires
        is_plain_name(platform, name),
        is_verbatim(platform, base),
        takes_names(platform, base),
    ensures
        components(platform, joined_path(platform, base, name)) == components(platform, base).push(
            ComponentView::Normal(name),
        ),
        takes_names(platform, joined_path(platform, base, name)),
{
    let known = components(platform, base);
    let list = known.push(ComponentView::Normal(name));
    lemma_name_is_a_component(platform, name);
    let others = components(platform, name);
    assert(others.drop_first() =~= Seq::<ComponentView>::empty());
    assert(with_components(list, others.drop_first()) == list);
    assert(with_component(known, others[0]) == list);
    assert(with_components(known, others) == list);
    lemma_prefix_end(platform, base);
    let heads = front_marks(platform, base);
    let start = root_end(platform, base);
    let body = body_marks(platform, true, base, start);
    assert(heads.len() == 2);
    lemma_body_is_readable(base, start);
    assert forall|at: int| 2 <= at < list.len() implies is_piece_component(
        #[trigger] list[at],
    ) by {
        if at < known.len() {
            assert(marks(platform, base)[at] == body[at - 2]);
            assert(is_piece_component(body[at - 2].component));
        } else {
            assert forall|place: int| 0 <= place < name.len() implies #[trigger] name[place]
                != '\\' by {
                assert(!is_separator(platform, false, name[place]));
            }
        }
    }
    assert(list[0] == heads[0].component && list[1] == heads[1].component);
    lemma_written_out(base, list);
}

/// Names that are joined to one path give different paths.
pub proof fn lemma_joined_names_differ(
    platform: Platform,
    base: Seq<char>,
    left: Seq<char>,
    right: Seq<char>,
)
    requires
        is_plain_name(platform, left),
        is_plain_name(platform, right),
        joined_path(platform, base, left) == joined_path(platform, base, right),
    ensures
        left == right,
{
    lemma_name_is_a_component(platform, left);
    lemma_name_is_a_component(platform, right);
    let left_path = joined_path(platform, base, left);
    let right_path = joined_path(platform, base, right);
    let front = if is_verbatim(platform, base) {
        let known = components(platform, base);
        let text = written_out(base.take(prefix_end(platform, base)), known);
        lemma_one_more_name(platform, base, left);
        lemma_one_more_name(platform, base, right);
        if known.len() > 0 && known.last() != ComponentView::Root {
            text.push('\\')
        } else {
            text
        }
    } else {
        plain_front(platform, base)
    };
    assert(left_path =~= front + left);
    assert(right_path =~= front + right);
    assert(left =~= left_path.skip(front.len() as int));
    assert(right =~= right_path.skip(front.len() as int));
}

/// A name that is joined to a verbatim path is written behind it.
proof fn lemma_one_more_name(platform: Platform, base: Seq<char>, name: Seq<char>)
    requires
        is_plain_name(platform, name),
        is_verbatim(platform, base),
    ensures
        ({
            let known = components(platform, base);
            let raw = base.take(prefix_end(platform, base));
            let text = written_out(raw, known);
            joined_path(platform, base, name) == if known.len() > 0 && known.last()
                != ComponentView::Root {
                text.push('\\') + name
            } else {
                text + name
            }
        }),
{
    lemma_name_is_a_component(platform, name);
    let known = components(platform, base);
    let others = components(platform, name);
    let list = known.push(ComponentView::Normal(name));
    assert(others.drop_first() =~= Seq::<ComponentView>::empty());
    assert(with_components(list, others.drop_first()) == list);
    assert(with_components(known, others) == list);
    assert(list.drop_last() =~= known);
}

/// Whether a character parts the names of a path: `/`, and on Windows also the backslash.
pub open spec fn is_parting(platform: Platform, character: char) -> bool {
    character == '/' || (platform == Platform::Windows && character == '\\')
}

/// What a piece behind a separator adds to the components of a path.
pub open spec fn added_by(piece: Seq<char>) -> Seq<ComponentView> {
    if piece.len() == 0 || piece == seq!['.'] {
        seq![]
    } else if piece == seq!['.', '.'] {
        seq![ComponentView::Parent]
    } else {
        seq![ComponentView::Normal(piece)]
    }
}

/// The components of a path go on with every piece behind a separator: nothing and a dot add none,
/// two dots stand for the parent, and everything else is a name. A separator at the beginning is
/// the root.
pub proof fn law_components_go_on(
    platform: Platform,
    front: Seq<char>,
    separator: char,
    piece: Seq<char>,
)
    requires
        is_parting(platform, separator),
        forall|at: int| 0 <= at < piece.len() ==> !is_parting(platform, #[trigger] piece[at]),
        prefix_of(platform, front) is None,
        prefix_of(platform, front.push(separator) + piece) is None,
    ensures
        front.len() > 0 ==> components(platform, front.push(separator) + piece) == components(
            platform,
            front,
        ) + added_by(piece),
        front.len() == 0 ==> components(platform, front.push(separator) + piece) == seq![
            ComponentView::Root,
        ] + added_by(piece),
{
    let whole = front.push(separator) + piece;
    let start = front.len() as int + 1;
    assert(forall|at: int|
        0 <= at < piece.len() ==> !is_separator(platform, false, #[trigger] piece[at]));
    assert(whole.skip(start) =~= piece);
    lemma_last_piece(platform, false, whole, piece, start);
    let tail = body_marks(platform, false, whole, start);
    assert(mark_components(tail) =~= added_by(piece));
    if front.len() > 0 {
        assert(whole[0] == front[0]);
        assert(root_end(platform, whole) == root_end(platform, front));
        assert(front_marks(platform, whole) =~= front_marks(platform, front));
        lemma_separator_splits(platform, false, front, separator, piece, root_end(platform, front));
        assert(marks(platform, whole) =~= marks(platform, front) + tail);
        assert(components(platform, whole) =~= components(platform, front) + mark_components(tail));
    } else {
        assert(whole[0] == separator);
        assert(root_end(platform, whole) == 1);
        let root = MarkView { component: ComponentView::Root, start: 0, end: 1 };
        assert(front_marks(platform, whole) =~= seq![root]);
        assert(marks(platform, whole) =~= seq![root] + tail);
        assert(components(platform, whole) =~= seq![ComponentView::Root] + mark_components(tail));
    }
}

/// A path of one piece has that as its component, a dot included; the empty path has none.
pub proof fn law_components_of_one_piece(platform: Platform, piece: Seq<char>)
    requires
        forall|at: int| 0 <= at < piece.len() ==> !is_parting(platform, #[trigger] piece[at]),
        prefix_of(platform, piece) is None,
    ensures
        components(platform, piece) == if piece == seq!['.'] {
            seq![ComponentView::Current]
        } else {
            added_by(piece)
        },
{
    assert(forall|at: int|
        0 <= at < piece.len() ==> !is_separator(platform, false, #[trigger] piece[at]));
    assert(piece.skip(0) =~= piece);
    lemma_last_piece(platform, false, piece, piece, 0);
    assert(root_end(platform, piece) == 0);
    assert(front_marks(platform, piece) =~= seq![]);
    assert(marks(platform, piece) =~= body_marks(platform, false, piece, 0));
    assert(components(platform, piece) =~= if piece == seq!['.'] {
        seq![ComponentView::Current]
    } else {
        added_by(piece)
    });
}

/// The name of a file is the last component of its path, where that is a name.
pub proof fn law_file_name_is_the_last_component(platform: Platform, path: Seq<char>)
    ensures
        match file_name_of(platform, path) {
            Some(name) => components(platform, path).len() > 0 && components(platform, path).last()
                == ComponentView::Normal(name),
            None => components(platform, path).len() == 0 || !(components(platform, path).last()
                is Normal),
        },
{
    let found = marks(platform, path);
    assert(components(platform, path).len() == found.len());
    if found.len() > 0 {
        assert(components(platform, path).last() == found.last().component);
    }
}

/// The first marks behind a place of a path are those of the path up to the end of the last of
/// them.
proof fn lemma_marks_of_a_part(
    platform: Platform,
    verbatim: bool,
    path: Seq<char>,
    start: int,
    count: int,
)
    requires
        0 <= start <= path.len(),
        0 < count <= body_marks(platform, verbatim, path, start).len(),
    ensures
        ({
            let found = body_marks(platform, verbatim, path, start);
            let end = found[count - 1].end;
            &&& start <= end <= path.len()
            &&& body_marks(platform, verbatim, path.take(end), start) == found.take(count)
        }),
    decreases path.len() + 1 - start,
{
    lemma_piece_end(platform, verbatim, path, start);
    let found = body_marks(platform, verbatim, path, start);
    let end = piece_end(platform, verbatim, path, start);
    let rest = body_marks(platform, verbatim, path, end + 1);
    let piece = path.subrange(start, end);
    let own = component_of(piece, verbatim || start == 0);
    let last = found[count - 1].end;
    if own is Some && count == 1 {
        let part = path.take(end);
        assert(last == end);
        assert(part.skip(start) =~= piece);
        assert forall|at: int| 0 <= at < piece.len() implies !is_separator(
            platform,
            verbatim,
            #[trigger] piece[at],
        ) by {
            assert(piece[at] == path[start + at]);
        }
        lemma_last_piece(platform, verbatim, part, piece, start);
        assert(body_marks(platform, verbatim, part, start) =~= found.take(1));
    } else {
        let fewer = if own is Some {
            count - 1
        } else {
            count
        };
        assert(found[count - 1] == rest[fewer - 1]);
        assert(end + 1 <= path.len());
        lemma_marks_of_a_part(platform, verbatim, path, end + 1, fewer);
        let part = path.take(last);
        assert forall|at: int| start <= at < end implies !is_separator(
            platform,
            verbatim,
            #[trigger] part[at],
        ) by {
            assert(part[at] == path[at]);
        }
        assert(end + 1 <= last);
        assert(is_separator(platform, verbatim, part[end])) by {
            assert(part[end] == path[end]);
        }
        lemma_piece_ends_at(platform, verbatim, part, start, end);
        assert(part.subrange(start, end) =~= piece);
        assert(body_marks(platform, verbatim, part, start) =~= found.take(count));
    }
}

/// The parent of a path has all its components but the last. There is none exactly where there is
/// no component but the root.
pub proof fn law_parent_drops_the_last_component(path: Seq<char>)
    ensures
        match parent_of(Platform::Unix, path) {
            Some(above) => components(Platform::Unix, path).len() > 0 && components(
                Platform::Unix,
                above,
            ) == components(Platform::Unix, path).drop_last() && above.is_prefix_of(path),
            None => components(Platform::Unix, path).len() == 0 || components(Platform::Unix, path)
                == seq![ComponentView::Root],
        },
{
    let unix = Platform::Unix;
    let found = marks(unix, path);
    let front = front_marks(unix, path);
    let start = root_end(unix, path);
    let body = body_marks(unix, false, path, start);
    assert(found == front + body);
    assert(components(unix, path).len() == found.len());
    match parent_of(unix, path) {
        None => {
            if front.len() > 0 {
                assert(found =~= front);
                assert(components(unix, path) =~= seq![ComponentView::Root]);
            }
        },
        Some(above) => {
            assert(body.len() > 0);
            if body.len() > 1 {
                let count = body.len() - 1;
                lemma_marks_of_a_part(unix, false, path, start, count);
                let end = body[count - 1].end;
                assert(found[found.len() - 2] == body[count - 1]);
                assert(above =~= path.take(end));
                assert(end > 0) by {
                    if end == 0 {
                        assert(path.take(0) =~= Seq::empty());
                        lemma_no_marks_at_end(unix, false, path.take(0));
                    }
                }
                assert(above[0] == path[0]);
                assert(root_end(unix, above) == start);
                assert(front_marks(unix, above) =~= front);
                assert(marks(unix, above) =~= found.drop_last());
            } else if front.len() > 0 {
                assert(found[found.len() - 2] == front[0]);
                assert(above =~= path.take(1));
                assert(above[0] == path[0]);
                lemma_no_marks_at_end(unix, false, above);
                assert(front_marks(unix, above) =~= front);
                assert(marks(unix, above) =~= found.drop_last());
            } else {
                assert(above =~= Seq::empty());
                lemma_no_marks_at_end(unix, false, above);
                assert(marks(unix, above) =~= found.drop_last());
            }
            assert(components(unix, above) =~= components(unix, path).drop_last());
            assert(above =~= path.subrange(0, above.len() as int));
        },
    }
}

/// On Unix a path is joined to a base with one separator between them; one that begins with a
/// separator takes the place of the base.
pub proof fn law_joined_paths_on_unix(base: Seq<char>, path: Seq<char>)
    ensures
        ({
            let whole = joined_path(Platform::Unix, base, path);
            if path.len() > 0 && path[0] == '/' {
                whole == path
            } else if base.len() == 0 || base.last() == '/' {
                whole == base + path
            } else {
                whole == base + seq!['/'] + path
            }
        }),
{
    let whole = joined_path(Platform::Unix, base, path);
    if path.len() > 0 && path[0] == '/' {
        assert(whole =~= path);
    } else if !(base.len() == 0 || base.last() == '/') {
        assert(whole =~= base + seq!['/'] + path);
    }
}

/// The stem of a name is what stands before its last dot, if that is not its first character; else
/// it is the name.
pub proof fn law_stem_ends_before_the_last_dot(name: Seq<char>)
    ensures
        stem_of(name) == name || {
            let rest = name.skip(stem_of(name).len() as int);
            &&& stem_of(name).len() > 0
            &&& name == stem_of(name) + rest
            &&& rest.len() > 0
            &&& rest[0] == '.'
            &&& !rest.skip(1).contains('.')
        },
        stem_of(name) == name ==> forall|at: int| 0 < at < name.len() ==> #[trigger] name[at] != '.',
{
    lemma_last_place(name, '.');
    let place = last_place(name, '.');
    if place > 0 {
        let rest = name.skip(place);
        assert(stem_of(name).len() == place);
        assert(name =~= stem_of(name) + rest);
        assert forall|at: int| 0 <= at < rest.skip(1).len() implies rest.skip(1)[at] != '.' by {
            assert(rest.skip(1)[at] == name[place + 1 + at]);
        }
    }
}

proof fn lemma_last_place(text: Seq<char>, character: char)
    ensures
        -1 <= last_place(text, character) < text.len(),
        last_place(text, character) >= 0 ==> text[last_place(text, character)] == character,
        forall|at: int|
            last_place(text, character) < at < text.len() ==> #[trigger] text[at] != character,
    decreases text.len(),
{
    if text.len() > 0 && text.last() != character {
        let rest = text.drop_last();
        lemma_last_place(rest, character);
        assert(forall|at: int| 0 <= at < rest.len() ==> #[trigger] text[at] == rest[at]);
    }
}

/// A path is inside another exactly where its components begin with those of the other.
pub proof fn law_inside_by_components(platform: Platform, path: Seq<char>, base: Seq<char>)
    ensures
        is_inside(platform, path, base) <==> {
            &&& components(platform, base).len() <= components(platform, path).len()
            &&& forall|at: int|
                0 <= at < components(platform, base).len() ==> #[trigger] components(
                    platform,
                    base,
                )[at] == components(platform, path)[at]
        },
{
    let known = components(platform, base);
    let all = components(platform, path);
    if known.len() <= all.len() {
        if forall|at: int| 0 <= at < known.len() ==> #[trigger] known[at] == all[at] {
            assert(known =~= all.subrange(0, known.len() as int));
        }
        if is_inside(platform, path, base) {
            assert forall|at: int| 0 <= at < known.len() implies #[trigger] known[at]
                == all[at] by {
                assert(known == all.subrange(0, known.len() as int));
                assert(all.subrange(0, known.len() as int)[at] == all[at]);
            }
        }
    }
}

/// On Unix the part of a path inside another stands in it from the first component that the other
/// does not have, up to the end of the last.
pub proof fn law_part_inside_on_unix(path: Seq<char>, base: Seq<char>)
    requires
        is_inside(Platform::Unix, path, base),
    ensures
        ({
            let found = marks(Platform::Unix, path);
            let count = components(Platform::Unix, base).len() as int;
            let part = part_inside(Platform::Unix, path, base);
            &&& part.len() == 0 <==> count == found.len()
            &&& 0 < count < found.len() ==> part == path.subrange(
                found[count].start,
                found.last().end,
            )
            &&& count == 0 && found.len() > 0 ==> part == path.take(found.last().end)
        }),
{
    let unix = Platform::Unix;
    let found = marks(unix, path);
    let front = front_marks(unix, path);
    let start = root_end(unix, path);
    let body = body_marks(unix, false, path, start);
    let count = components(unix, base).len() as int;
    lemma_marks(unix, path);
    lemma_body_marks(unix, false, path, start);
    assert(count == marks(unix, base).len());
    assert(components(unix, path).len() == found.len());
    assert(found == front + body);
    if found.len() > 0 {
        if body.len() > 0 {
            assert(found.last() == body.last());
            assert(found.last().end > start);
            if count < found.len() {
                if count >= front.len() {
                    assert(found[count] == body[count - front.len()]);
                    assert(found[count].start < found.last().end) by {
                        if count < found.len() - 1 {
                            assert(found[count].end <= found.last().start);
                        }
                    }
                } else {
                    assert(found[count] == front[count]);
                }
            }
        } else {
            assert(found.last() == front.last());
        }
        if count == 0 {
            assert(part_inside(unix, path, base) =~= path.take(found.last().end));
        }
    }
}

/// On Windows a path with a prefix takes the place of the base, and one with only a root takes the
/// place of all but its prefix. Any other is joined with one separator between them, but for a bare
/// drive, which takes none.
pub proof fn law_joined_paths_on_windows(base: Seq<char>, path: Seq<char>)
    requires
        !is_verbatim(Platform::Windows, base),
    ensures
        ({
            let windows = Platform::Windows;
            let whole = joined_path(windows, base, path);
            let is_rooted = path.len() > 0 && is_parting(windows, path[0]);
            let is_drive = base.len() == 2 && ('a' <= base[0] <= 'z' || 'A' <= base[0] <= 'Z')
                && base[1] == ':';
            &&& prefix_of(windows, path) is Some ==> whole == path
            &&& prefix_of(windows, path) is None && is_rooted ==> whole == base.take(
                prefix_end(windows, base),
            ) + path
            &&& prefix_of(windows, path) is None && !is_rooted ==> if base.len() == 0
                || is_parting(windows, base.last()) || is_drive {
                whole == base + path
            } else {
                whole == base + seq!['\\'] + path
            }
        }),
{
    let windows = Platform::Windows;
    let whole = joined_path(windows, base, path);
    lemma_prefix_end(windows, base);
    if prefix_of(windows, path) is None && !(path.len() > 0 && is_parting(windows, path[0])) {
        if !(base.len() == 0 || is_parting(windows, base.last())) {
            let is_drive = base.len() == 2 && ('a' <= base[0] <= 'z' || 'A' <= base[0] <= 'Z')
                && base[1] == ':';
            assert(is_drive <==> is_bare_drive(windows, base));
            if !is_drive {
                assert(whole =~= base + seq!['\\'] + path);
            }
        }
    }
}

/// Joined to a verbatim base, the components of a path are added one behind the other: a name is
/// added, a dot adds nothing, two dots take off a name, and the root leaves nothing but the prefix.
pub proof fn law_components_are_added_one_by_one(
    list: Seq<ComponentView>,
    others: Seq<ComponentView>,
    next: ComponentView,
)
    ensures
        with_components(list, Seq::empty()) == list,
        ({
            let before = with_components(list, others);
            let behind = with_components(list, others.push(next));
            match next {
                ComponentView::Normal(_) => behind == before.push(next),
                ComponentView::Current => behind == before,
                ComponentView::Parent => if before.len() > 0 && before.last() is Normal {
                    behind == before.drop_last()
                } else {
                    behind == before
                },
                ComponentView::Root => behind == before.take(1).push(next),
                ComponentView::Prefix(_) => behind == before.push(next),
            }
        }),
    decreases others.len(),
{
    let longer = others.push(next);
    if others.len() == 0 {
        assert(longer.drop_first() =~= Seq::empty());
        assert(with_components(list, longer) == with_components(
            with_component(list, next),
            Seq::empty(),
        ));
    } else {
        law_components_are_added_one_by_one(
            with_component(list, others[0]),
            others.drop_first(),
            next,
        );
        assert(longer.drop_first() =~= others.drop_first().push(next));
        assert(longer[0] == others[0]);
    }
}

} // verus!
