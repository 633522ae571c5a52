//! Loose matching: the characters of a query in their order, with anything between them.

use vstd::prelude::*;

use crate::ascii::lowered;
use crate::lowercase::{fold_case, folded, is_ascii_text};

verus! {

/// Whether the characters of `needle` stand in `text` at `places`, from left to right.
pub open spec fn stands_at(needle: Seq<char>, text: Seq<char>, places: Seq<int>) -> bool {
    &&& places.len() == needle.len()
    &&& forall|at: int|
        0 <= at < places.len() ==> 0 <= #[trigger] places[at] < text.len() && text[places[at]]
            == needle[at]
    &&& forall|left: int, right: int|
        0 <= left < right < places.len() ==> #[trigger] places[left] < #[trigger] places[right]
}

/// Whether the characters of `needle` stand in `text` in their order.
pub open spec fn is_subsequence(needle: Seq<char>, text: Seq<char>) -> bool {
    exists|places: Seq<int>| stands_at(needle, text, places)
}

/// Of one more character of the text, a longer part of the needle makes use only if it is the next
/// one.
proof fn lemma_one_more(needle: Seq<char>, text: Seq<char>, count: int, found: int, used: int)
    requires
        0 <= count < text.len(),
        0 <= found <= needle.len(),
        forall|part: int|
            0 <= part <= needle.len() && is_subsequence(
                #[trigger] needle.take(part),
                text.take(count),
            ) ==> part <= found,
        0 <= used <= needle.len(),
        is_subsequence(needle.take(used), text.take(count + 1)),
    ensures
        used <= found || (used == found + 1 && needle[found] == text[count]),
{
    let part = needle.take(used);
    let longer = text.take(count + 1);
    let shorter = text.take(count);
    let places = choose|places: Seq<int>| stands_at(part, longer, places);
    if used > 0 {
        let last = places[used - 1];
        if last < count {
            assert forall|at: int| 0 <= at < places.len() implies 0 <= #[trigger] places[at]
                < shorter.len() && shorter[places[at]] == part[at] by {
                if at < used - 1 {
                    assert(places[at] < places[used - 1]);
                }
                assert(longer[places[at]] == shorter[places[at]]);
            }
            assert(stands_at(part, shorter, places));
        } else {
            let front = places.drop_last();
            let less = needle.take(used - 1);
            assert forall|at: int| 0 <= at < front.len() implies 0 <= #[trigger] front[at]
                < shorter.len() && shorter[front[at]] == less[at] by {
                assert(places[at] < places[used - 1]);
                assert(longer[places[at]] == shorter[places[at]]);
                assert(part[at] == less[at]);
            }
            assert(stands_at(less, shorter, front));
            assert(longer[last] == part[used - 1]);
        }
    }
}

/// Decides whether the characters of `needle` stand in `text` in their order.
fn find_subsequence(needle: &Vec<char>, text: &Vec<char>) -> (answer: bool)
    ensures
        answer == is_subsequence(needle@, text@),
{
    let mut found: usize = 0;
    let mut at: usize = 0;
    let ghost mut places: Seq<int> = Seq::empty();
    proof {
        assert(stands_at(needle@.take(0), text@.take(0), places));
        assert forall|part: int|
            0 <= part <= needle@.len() && is_subsequence(
                #[trigger] needle@.take(part),
                text@.take(0),
            ) implies part <= 0 by {
            let spots = choose|spots: Seq<int>| stands_at(needle@.take(part), text@.take(0), spots);
            if part > 0 {
                assert(0 <= spots[0] < text@.take(0).len());
            }
        }
    }
    while at < text.len()
        invariant
            at <= text@.len(),
            found <= needle@.len(),
            stands_at(needle@.take(found as int), text@.take(at as int), places),
            forall|part: int|
                0 <= part <= needle@.len() && is_subsequence(
                    #[trigger] needle@.take(part),
                    text@.take(at as int),
                ) ==> part <= found,
        decreases text@.len() - at,
    {
        let ghost before = places;
        let ghost longer = text@.take(at + 1);
        assert forall|spot: int| 0 <= spot < at implies longer[spot] == text@.take(
            at as int,
        )[spot] by {}
        let ghost old_found = found as int;
        if found < needle.len() && needle[found] == text[at] {
            proof {
                places = places.push(at as int);
                let part = needle@.take(found + 1);
                assert forall|index: int| 0 <= index < places.len() implies 0
                    <= #[trigger] places[index] < longer.len() && longer[places[index]]
                    == part[index] by {
                    if index < found {
                        assert(places[index] == before[index]);
                        assert(needle@.take(found as int)[index] == part[index]);
                    }
                }
                assert forall|left: int, right: int| 0 <= left < right < places.len() implies
                    #[trigger] places[left] < #[trigger] places[right] by {
                    assert(places[left] == before[left]);
                    if right < found {
                        assert(places[right] == before[right]);
                    }
                }
            }
            found += 1;
        } else {
            assert forall|index: int| 0 <= index < places.len() implies 0
                <= #[trigger] places[index] < longer.len() && longer[places[index]]
                == needle@.take(found as int)[index] by {}
        }
        assert forall|part: int|
            0 <= part <= needle@.len() && is_subsequence(
                #[trigger] needle@.take(part),
                longer,
            ) implies part <= found by {
            lemma_one_more(needle@, text@, at as int, old_found, part);
        }
        at += 1;
    }
    proof {
        assert(text@.take(at as int) =~= text@);
        if found == needle@.len() {
            assert(needle@.take(found as int) =~= needle@);
        } else {
            assert(needle@.take(needle@.len() as int) =~= needle@);
        }
    }
    found == needle.len()
}

/// Whether `query` matches `haystack`: every character of the query occurs in it, in order, in
/// either case.
pub fn is_match(haystack: &str, query: &str) -> (answer: bool)
    ensures
        answer == is_subsequence(folded(query@), folded(haystack@)),
        is_ascii_text(query@) && is_ascii_text(haystack@) ==> answer == is_subsequence(
            lowered(query@),
            lowered(haystack@),
        ),
{
    let needle = fold_case(query);
    let text = fold_case(haystack);
    find_subsequence(&needle, &text)
}

/// An empty query matches everything.
pub proof fn law_empty_query_matches(haystack: Seq<char>)
    ensures
        is_subsequence(folded(Seq::empty()), folded(haystack)),
{
    assert(stands_at(Seq::empty(), folded(haystack), Seq::empty()));
}

/// What matches a text matches every text that it stands in loosely.
pub proof fn law_matching_chains(query: Seq<char>, middle: Seq<char>, text: Seq<char>)
    requires
        is_subsequence(query, middle),
        is_subsequence(middle, text),
    ensures
        is_subsequence(query, text),
{
    let inner = choose|places: Seq<int>| stands_at(query, middle, places);
    let outer = choose|places: Seq<int>| stands_at(middle, text, places);
    let places = inner.map_values(|place: int| outer[place]);
    assert forall|at: int| 0 <= at < places.len() implies 0 <= #[trigger] places[at] < text.len()
        && text[places[at]] == query[at] by {
        assert(0 <= inner[at] < middle.len());
        assert(0 <= outer[inner[at]] < text.len());
    }
    assert forall|left: int, right: int| 0 <= left < right < places.len() implies
        #[trigger] places[left] < #[trigger] places[right] by {
        assert(inner[left] < inner[right]);
        assert(0 <= inner[left] && inner[right] < middle.len());
        assert(outer[inner[left]] < outer[inner[right]]);
    }
    assert(stands_at(query, text, places));
}

/// Every text matches itself.
pub proof fn law_text_matches_itself(text: Seq<char>)
    ensures
        is_subsequence(text, text),
{
    assert(stands_at(text, text, Seq::new(text.len(), |at: int| at)));
}

/// Whether a query stands in a text is decided from the end: the last character of the text is the
/// last one of the query, or it is of no use. Nothing but an empty query stands in an empty text.
pub proof fn law_last_character_decides(
    needle: Seq<char>,
    wanted: char,
    text: Seq<char>,
    given: char,
)
    ensures
        is_subsequence(needle.push(wanted), text.push(given)) <==> is_subsequence(
            needle.push(wanted),
            text,
        ) || (wanted == given && is_subsequence(needle, text)),
        is_subsequence(Seq::empty(), text),
        !is_subsequence(needle.push(wanted), Seq::empty()),
{
    let query = needle.push(wanted);
    let longer = text.push(given);
    assert(stands_at(Seq::empty(), text, Seq::empty()));
    if is_subsequence(query, Seq::empty()) {
        let places = choose|places: Seq<int>| stands_at(query, Seq::empty(), places);
        assert(0 <= places[needle.len() as int] < Seq::<char>::empty().len());
    }
    if is_subsequence(query, text) {
        let places = choose|places: Seq<int>| stands_at(query, text, places);
        assert(stands_at(query, longer, places)) by {
            assert forall|at: int| 0 <= at < places.len() implies 0 <= #[trigger] places[at]
                < longer.len() && longer[places[at]] == query[at] by {
                assert(longer[places[at]] == text[places[at]]);
            }
        }
    }
    if wanted == given && is_subsequence(needle, text) {
        let places = choose|places: Seq<int>| stands_at(needle, text, places);
        let more = places.push(text.len() as int);
        assert forall|at: int| 0 <= at < more.len() implies 0 <= #[trigger] more[at] < longer.len()
            && longer[more[at]] == query[at] by {
            if at < places.len() {
                assert(more[at] == places[at]);
                assert(longer[places[at]] == text[places[at]]);
            }
        }
        assert forall|left: int, right: int| 0 <= left < right < more.len() implies
            #[trigger] more[left] < #[trigger] more[right] by {
            assert(more[left] == places[left]);
            if right < places.len() {
                assert(more[right] == places[right]);
            }
        }
        assert(stands_at(query, longer, more));
    }
    if is_subsequence(query, longer) {
        let places = choose|places: Seq<int>| stands_at(query, longer, places);
        let last = places[needle.len() as int];
        assert(longer[last] == query[needle.len() as int]);
        if last < text.len() {
            assert forall|at: int| 0 <= at < places.len() implies 0 <= #[trigger] places[at]
                < text.len() && text[places[at]] == query[at] by {
                if at < needle.len() {
                    assert(places[at] < places[needle.len() as int]);
                }
                assert(longer[places[at]] == text[places[at]]);
            }
            assert(stands_at(query, text, places));
        } else {
            let fewer = places.drop_last();
            assert forall|at: int| 0 <= at < fewer.len() implies 0 <= #[trigger] fewer[at]
                < text.len() && text[fewer[at]] == needle[at] by {
                assert(places[at] < places[needle.len() as int]);
                assert(longer[places[at]] == text[places[at]]);
                assert(query[at] == needle[at]);
            }
            assert(stands_at(needle, text, fewer));
        }
    }
}

} // verus!
