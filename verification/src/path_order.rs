//! Paths in order.

use vstd::prelude::*;

use crate::order::{stable_order, SortKey};
use crate::paths::{
    components, find_marks, is_same_component, is_same_path, mark_components, mark_views, marks,
    same_path, Component, ComponentView, Mark,
};
use crate::platform::Platform;
use crate::prefixes::{
    is_prefix_at_most, lemma_prefix_antisymmetric, lemma_prefix_total, lemma_prefix_transitive,
    prefix_at_most,
};
use crate::sorting::{arrange, is_arranged, is_sorted_copy, lemma_listing_by_keys};
use crate::text::{
    chars_of, is_smaller_at, is_text_at_most, law_first_difference_decides,
    lemma_text_antisymmetric, lemma_text_total, lemma_text_transitive, text_at_most, views,
};

verus! {

/// Where a kind of component stands among the others.
pub open spec fn rank(component: ComponentView) -> int {
    match component {
        ComponentView::Prefix(_) => 0,
        ComponentView::Root => 1,
        ComponentView::Current => 2,
        ComponentView::Parent => 3,
        ComponentView::Normal(_) => 4,
    }
}

/// Whether one component may stand before another: names go by their text.
pub open spec fn component_at_most(left: ComponentView, right: ComponentView) -> bool {
    match (left, right) {
        (ComponentView::Normal(left), ComponentView::Normal(right)) => text_at_most(left, right),
        (ComponentView::Prefix(left), ComponentView::Prefix(right)) => prefix_at_most(left, right),
        _ => rank(left) <= rank(right),
    }
}

/// Whether one list of components may stand before another: by the first in which they differ, a
/// list before its extensions.
pub open spec fn components_at_most(
    left: Seq<ComponentView>,
    right: Seq<ComponentView>,
) -> bool
    decreases left.len(),
{
    if left.len() == 0 {
        true
    } else if right.len() == 0 {
        false
    } else if left[0] != right[0] {
        component_at_most(left[0], right[0])
    } else {
        components_at_most(left.drop_first(), right.drop_first())
    }
}

/// Whether one path may stand before another.
pub open spec fn path_at_most(platform: Platform, left: Seq<char>, right: Seq<char>) -> bool {
    components_at_most(components(platform, left), components(platform, right))
}

/// The order of paths, as a function.
pub open spec fn path_order(platform: Platform) -> spec_fn(Seq<char>, Seq<char>) -> bool {
    |left: Seq<char>, right: Seq<char>| path_at_most(platform, left, right)
}

proof fn lemma_component_total(left: ComponentView, right: ComponentView)
    ensures
        component_at_most(left, right) || component_at_most(right, left),
{
    if let ComponentView::Normal(left_name) = left {
        if let ComponentView::Normal(right_name) = right {
            lemma_text_total(left_name, right_name);
        }
    }
    if let ComponentView::Prefix(left_prefix) = left {
        if let ComponentView::Prefix(right_prefix) = right {
            lemma_prefix_total(left_prefix, right_prefix);
        }
    }
}

proof fn lemma_component_antisymmetric(left: ComponentView, right: ComponentView)
    requires
        component_at_most(left, right),
        component_at_most(right, left),
    ensures
        left == right,
{
    if let ComponentView::Normal(left_name) = left {
        if let ComponentView::Normal(right_name) = right {
            lemma_text_antisymmetric(left_name, right_name);
        }
    }
    if let ComponentView::Prefix(left_prefix) = left {
        if let ComponentView::Prefix(right_prefix) = right {
            lemma_prefix_antisymmetric(left_prefix, right_prefix);
        }
    }
}

proof fn lemma_component_transitive(
    left: ComponentView,
    middle: ComponentView,
    right: ComponentView,
)
    requires
        component_at_most(left, middle),
        component_at_most(middle, right),
    ensures
        component_at_most(left, right),
{
    if let ComponentView::Normal(left_name) = left {
        if let ComponentView::Normal(middle_name) = middle {
            if let ComponentView::Normal(right_name) = right {
                lemma_text_transitive(left_name, middle_name, right_name);
            }
        }
    }
    if let ComponentView::Prefix(left_prefix) = left {
        if let ComponentView::Prefix(middle_prefix) = middle {
            if let ComponentView::Prefix(right_prefix) = right {
                lemma_prefix_transitive(left_prefix, middle_prefix, right_prefix);
            }
        }
    }
}

proof fn lemma_components_total(left: Seq<ComponentView>, right: Seq<ComponentView>)
    ensures
        components_at_most(left, right) || components_at_most(right, left),
    decreases left.len(),
{
    if left.len() > 0 && right.len() > 0 {
        if left[0] == right[0] {
            lemma_components_total(left.drop_first(), right.drop_first());
        } else {
            lemma_component_total(left[0], right[0]);
        }
    }
}

proof fn lemma_components_transitive(
    left: Seq<ComponentView>,
    middle: Seq<ComponentView>,
    right: Seq<ComponentView>,
)
    requires
        components_at_most(left, middle),
        components_at_most(middle, right),
    ensures
        components_at_most(left, right),
    decreases left.len(),
{
    if left.len() > 0 && middle.len() > 0 && right.len() > 0 {
        if left[0] == middle[0] && middle[0] == right[0] {
            lemma_components_transitive(
                left.drop_first(),
                middle.drop_first(),
                right.drop_first(),
            );
        } else if left[0] != middle[0] && middle[0] != right[0] {
            lemma_component_transitive(left[0], middle[0], right[0]);
            if left[0] == right[0] {
                lemma_component_antisymmetric(left[0], middle[0]);
            }
        }
    }
}

/// Paths with different components stand in one order only.
pub proof fn lemma_components_antisymmetric(
    left: Seq<ComponentView>,
    right: Seq<ComponentView>,
)
    requires
        components_at_most(left, right),
        components_at_most(right, left),
    ensures
        left == right,
    decreases left.len(),
{
    if left.len() > 0 && right.len() > 0 {
        if left[0] != right[0] {
            lemma_component_antisymmetric(left[0], right[0]);
        }
        let left_rest = left.drop_first();
        let right_rest = right.drop_first();
        lemma_components_antisymmetric(left_rest, right_rest);
        assert forall|at: int| 0 <= at < left.len() implies left[at] == right[at] by {
            if at > 0 {
                assert(left[at] == left_rest[at - 1]);
                assert(right[at] == right_rest[at - 1]);
            }
        }
        assert(left =~= right);
    } else {
        assert(left =~= right);
    }
}

/// A path as a sort key.
pub struct PathKey {
    pub marks: Vec<Mark>,
}

/// Decides `component_at_most`.
fn is_component_at_most(left: &Component, right: &Component) -> (answer: bool)
    ensures
        answer == component_at_most(left@, right@),
{
    match (left, right) {
        (Component::Normal(left), Component::Normal(right)) => is_text_at_most(left, right),
        (Component::Prefix(left), Component::Prefix(right)) => is_prefix_at_most(left, right),
        (Component::Prefix(_), _) => true,
        (_, Component::Prefix(_)) => false,
        (Component::Root, _) => true,
        (Component::Current, Component::Root) => false,
        (Component::Current, _) => true,
        (Component::Parent, Component::Root) => false,
        (Component::Parent, Component::Current) => false,
        (Component::Parent, _) => true,
        (Component::Normal(_), _) => false,
    }
}

impl SortKey for PathKey {
    open spec fn at_most(self, other: Self) -> bool {
        components_at_most(
            mark_components(mark_views(self.marks@)),
            mark_components(mark_views(other.marks@)),
        )
    }

    proof fn lemma_total(left: Self, right: Self) {
        lemma_components_total(
            mark_components(mark_views(left.marks@)),
            mark_components(mark_views(right.marks@)),
        );
    }

    proof fn lemma_transitive(left: Self, middle: Self, right: Self) {
        lemma_components_transitive(
            mark_components(mark_views(left.marks@)),
            mark_components(mark_views(middle.marks@)),
            mark_components(mark_views(right.marks@)),
        );
    }

    fn is_at_most(&self, other: &Self) -> (answer: bool) {
        let ghost left = mark_components(mark_views(self.marks@));
        let ghost right = mark_components(mark_views(other.marks@));
        let mut at: usize = 0;
        assert(left.skip(0) =~= left);
        assert(right.skip(0) =~= right);
        while at < self.marks.len()
            invariant
                left == mark_components(mark_views(self.marks@)),
                right == mark_components(mark_views(other.marks@)),
                at <= self.marks@.len(),
                at <= other.marks@.len(),
                components_at_most(left, right) == components_at_most(
                    left.skip(at as int),
                    right.skip(at as int),
                ),
            decreases self.marks@.len() - at,
        {
            if at >= other.marks.len() {
                return false;
            }
            assert(left.skip(at as int)[0] == self.marks@[at as int].component@);
            assert(right.skip(at as int)[0] == other.marks@[at as int].component@);
            assert(left.skip(at as int).drop_first() =~= left.skip(at + 1));
            assert(right.skip(at as int).drop_first() =~= right.skip(at + 1));
            if !is_same_component(&self.marks[at].component, &other.marks[at].component) {
                return is_component_at_most(
                    &self.marks[at].component,
                    &other.marks[at].component,
                );
            }
            at += 1;
        }
        true
    }
}

/// Puts paths in order.
pub fn sort_paths(platform: Platform, paths: Vec<String>) -> (sorted: Vec<String>)
    ensures
        is_sorted_copy(views(paths@), views(sorted@), path_order(platform)),
{
    let ghost all = views(paths@);
    let mut keys: Vec<PathKey> = Vec::new();
    let mut at: usize = 0;
    while at < paths.len()
        invariant
            at <= paths@.len(),
            keys@.len() == at,
            forall|done: int|
                0 <= done < at ==> mark_views((#[trigger] keys@[done]).marks@) == marks(
                    platform,
                    paths@[done]@,
                ),
        decreases paths@.len() - at,
    {
        keys.push(PathKey { marks: find_marks(platform, &chars_of(paths[at].as_str())) });
        at += 1;
    }
    let order = stable_order(&keys);
    proof {
        assert forall|left: int, right: int|
            0 <= left < keys@.len() && 0 <= right < keys@.len() implies #[trigger] keys@[left].at_most(
            keys@[right],
        ) == path_order(platform)(all[left], all[right]) by {
            assert(all[left] == paths@[left]@);
            assert(all[right] == paths@[right]@);
            assert(mark_views(keys@[left].marks@) == marks(platform, paths@[left]@));
            assert(mark_views(keys@[right].marks@) == marks(platform, paths@[right]@));
            assert(mark_components(marks(platform, paths@[left]@)) =~= components(
                platform,
                paths@[left]@,
            ));
            assert(mark_components(marks(platform, paths@[right]@)) =~= components(
                platform,
                paths@[right]@,
            ));
        }
        lemma_listing_by_keys(all, keys@, order@, path_order(platform));
    }
    let sorted = arrange(paths, &order);
    assert(is_arranged(all, order@, views(sorted@)));
    sorted
}

/// `paths` without each one that has the same components as the one kept before it.
pub open spec fn without_repeats(platform: Platform, paths: Seq<Seq<char>>) -> Seq<Seq<char>>
    decreases paths.len(),
{
    if paths.len() == 0 {
        paths
    } else {
        let kept = without_repeats(platform, paths.drop_last());
        if kept.len() > 0 && same_path(platform, kept.last(), paths.last()) {
            kept
        } else {
            kept.push(paths.last())
        }
    }
}

/// Drops each path that has the same components as the one kept before it.
pub fn drop_repeats(platform: Platform, paths: Vec<String>) -> (kept: Vec<String>)
    ensures
        views(kept@) == without_repeats(platform, views(paths@)),
{
    let ghost all = views(paths@);
    let mut kept: Vec<String> = Vec::new();
    let mut at: usize = 0;
    assert(all.take(0) =~= Seq::<Seq<char>>::empty());
    assert(views(kept@) =~= Seq::<Seq<char>>::empty());
    while at < paths.len()
        invariant
            all == views(paths@),
            at <= paths@.len(),
            views(kept@) == without_repeats(platform, all.take(at as int)),
        decreases paths@.len() - at,
    {
        let ghost longer = all.take(at + 1);
        assert(longer.drop_last() =~= all.take(at as int));
        assert(longer.last() == paths@[at as int]@);
        let repeats = kept.len() > 0 && is_same_path(
            platform,
            kept[kept.len() - 1].as_str(),
            paths[at].as_str(),
        );
        assert(kept@.len() > 0 ==> views(kept@).last() == kept@[kept@.len() - 1]@);
        if !repeats {
            let path = paths[at].clone();
            let ghost before = kept@;
            kept.push(path);
            assert(views(kept@) =~= views(before).push(path@));
        }
        at += 1;
    }
    assert(all.take(at as int) =~= all);
    kept
}

/// Paths go by the first component in which they differ, and a path goes before all inside it.
pub proof fn law_first_component_decides(left: Seq<ComponentView>, right: Seq<ComponentView>) -> (
    at: int)
    ensures
        0 <= at <= left.len(),
        at <= right.len(),
        forall|before: int| 0 <= before < at ==> #[trigger] left[before] == right[before],
        at == left.len() || at == right.len() || left[at] != right[at],
        components_at_most(left, right) <==> at == left.len() || (at < right.len()
            && component_at_most(left[at], right[at])),
    decreases left.len(),
{
    if left.len() == 0 || right.len() == 0 || left[0] != right[0] {
        0
    } else {
        let less = left.drop_first();
        let more = right.drop_first();
        let at = law_first_component_decides(less, more) + 1;
        assert forall|before: int| 0 <= before < at implies #[trigger] left[before]
            == right[before] by {
            if before > 0 {
                assert(less[before - 1] == more[before - 1]);
            }
        }
        assert(at < left.len() ==> less[at - 1] == left[at]);
        assert(at < right.len() ==> more[at - 1] == right[at]);
        at
    }
}

/// Names go by their first difference; and prefixes go before the root, that before a dot, that
/// before the parent, and all of them before names.
pub proof fn law_order_of_components(left: ComponentView, right: ComponentView)
    ensures
        match (left, right) {
            (ComponentView::Normal(one), ComponentView::Normal(other)) => component_at_most(
                left,
                right,
            ) <==> one == other || exists|at: int| is_smaller_at(one, other, at),
            (ComponentView::Normal(_), _) => !component_at_most(left, right),
            (_, ComponentView::Normal(_)) => component_at_most(left, right),
            (ComponentView::Prefix(_), ComponentView::Prefix(_)) => true,
            (ComponentView::Prefix(_), _) => component_at_most(left, right),
            (_, ComponentView::Prefix(_)) => !component_at_most(left, right),
            (ComponentView::Root, _) => component_at_most(left, right),
            (_, ComponentView::Root) => !component_at_most(left, right),
            (ComponentView::Current, _) => component_at_most(left, right),
            (_, ComponentView::Current) => !component_at_most(left, right),
            (ComponentView::Parent, ComponentView::Parent) => component_at_most(left, right),
        },
{
    if let (ComponentView::Normal(one), ComponentView::Normal(other)) = (left, right) {
        law_first_difference_decides(one, other);
    }
}

/// Dropping repeats keeps the first path of every run of equal ones, and no other.
pub proof fn law_first_of_each_run_is_kept(platform: Platform, paths: Seq<Seq<char>>) -> (places: Seq<
    int,
>)
    ensures
        places.len() == without_repeats(platform, paths).len(),
        forall|left: int, right: int|
            0 <= left < right < places.len() ==> #[trigger] places[left] < #[trigger] places[right],
        forall|at: int|
            0 <= at < places.len() ==> 0 <= #[trigger] places[at] < paths.len() && paths[places[at]]
                == without_repeats(platform, paths)[at],
        forall|place: int|
            0 <= place < paths.len() ==> (#[trigger] places.contains(place) <==> place == 0
                || components(platform, paths[place - 1]) != components(platform, paths[place])),
        paths.len() > 0 ==> places.len() > 0 && components(
            platform,
            without_repeats(platform, paths).last(),
        ) == components(platform, paths.last()),
    decreases paths.len(),
{
    if paths.len() == 0 {
        Seq::empty()
    } else {
        let rest = paths.drop_last();
        let before = law_first_of_each_run_is_kept(platform, rest);
        let last = paths.len() - 1;
        let earlier = without_repeats(platform, rest);
        let all = without_repeats(platform, paths);
        let is_repeat = earlier.len() > 0 && same_path(platform, earlier.last(), paths.last());
        let places = if is_repeat {
            before
        } else {
            before.push(last)
        };
        assert(is_repeat <==> last > 0 && components(platform, paths[last - 1]) == components(
            platform,
            paths[last],
        )) by {
            if last > 0 {
                assert(rest.last() == paths[last - 1]);
            }
        }
        assert forall|at: int| 0 <= at < places.len() implies 0 <= #[trigger] places[at]
            < paths.len() && paths[places[at]] == all[at] by {
            if at < before.len() {
                assert(places[at] == before[at]);
                assert(all[at] == earlier[at]);
                assert(paths[before[at]] == rest[before[at]]);
            }
        }
        assert forall|left: int, right: int| 0 <= left < right < places.len() implies
            #[trigger] places[left] < #[trigger] places[right] by {
            assert(places[left] == before[left]);
            if right < before.len() {
                assert(places[right] == before[right]);
            }
        }
        assert forall|place: int| 0 <= place < paths.len() implies (#[trigger] places.contains(place)
            <==> place == 0 || components(platform, paths[place - 1]) != components(
            platform,
            paths[place],
        )) by {
            if place < last {
                assert(paths[place] == rest[place]);
                if place > 0 {
                    assert(paths[place - 1] == rest[place - 1]);
                }
                assert(before.contains(place) <==> places.contains(place)) by {
                    if before.contains(place) {
                        let at = choose|at: int| 0 <= at < before.len() && before[at] == place;
                        assert(places[at] == place);
                    }
                    if places.contains(place) {
                        let at = choose|at: int| 0 <= at < places.len() && places[at] == place;
                        assert(before[at] == place);
                    }
                }
            } else if is_repeat {
                if places.contains(place) {
                    let at = choose|at: int| 0 <= at < places.len() && places[at] == place;
                    assert(before[at] < rest.len());
                }
            } else {
                assert(places[places.len() - 1] == last);
            }
        }
        places
    }
}

} // verus!
