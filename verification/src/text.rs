//! Text as sequences of characters.

use vstd::prelude::*;

use crate::order::SortKey;

verus! {

/// `String::push` of std: appends one character to the end of the text.
pub assume_specification[ String::push ](text: &mut String, character: char)
    ensures
        final(text)@ == old(text)@.push(character),
;

/// The characters of `text`, in order.
pub fn chars_of(text: &str) -> (chars: Vec<char>)
    ensures
        chars@ == text@,
{
    let mut chars: Vec<char> = Vec::new();
    for character in iter: text.chars()
        invariant
            iter.seq() == text@,
            chars@ == iter.seq().take(iter.index() as int),
    {
        chars.push(character);
    }
    chars
}

/// The text made of the characters from `start` up to, but not including, `end`.
pub fn text_between(chars: &Vec<char>, start: usize, end: usize) -> (text: String)
    requires
        start <= end <= chars@.len(),
    ensures
        text@ == chars@.subrange(start as int, end as int),
{
    let mut text = String::new();
    let mut next: usize = start;
    while next < end
        invariant
            start <= next <= end <= chars@.len(),
            text@ == chars@.subrange(start as int, next as int),
        decreases end - next,
    {
        text.push(chars[next]);
        next += 1;
    }
    text
}

/// The whole of `chars` as text.
pub fn text_of(chars: &Vec<char>) -> (text: String)
    ensures
        text@ == chars@,
{
    let text = text_between(chars, 0, chars.len());
    assert(chars@.subrange(0, chars@.len() as int) =~= chars@);
    text
}

/// A copy of `text`.
pub fn owned(text: &str) -> (copy: String)
    ensures
        copy@ == text@,
{
    text.to_owned()
}

/// Whether two lists hold the same characters.
pub fn same_chars(left: &Vec<char>, right: &Vec<char>) -> (answer: bool)
    ensures
        answer == (left@ == right@),
{
    if left.len() != right.len() {
        return false;
    }
    let mut at: usize = 0;
    while at < left.len()
        invariant
            at <= left@.len(),
            left@.len() == right@.len(),
            forall|before: int| 0 <= before < at ==> left@[before] == right@[before],
        decreases left@.len() - at,
    {
        if left[at] != right[at] {
            return false;
        }
        at += 1;
    }
    assert(left@ =~= right@);
    true
}

/// Whether two texts are the same.
pub fn same_text(left: &str, right: &str) -> (answer: bool)
    ensures
        answer == (left@ == right@),
{
    same_chars(&chars_of(left), &chars_of(right))
}

/// Whether `left` may stand before `right` in the order of texts: by the first character in which
/// they differ, a text before its extensions.
pub open spec fn text_at_most(left: Seq<char>, right: Seq<char>) -> bool
    decreases left.len(),
{
    if left.len() == 0 {
        true
    } else if right.len() == 0 {
        false
    } else if left[0] != right[0] {
        left[0] < right[0]
    } else {
        text_at_most(left.drop_first(), right.drop_first())
    }
}

/// Any two texts can be compared.
pub proof fn lemma_text_total(left: Seq<char>, right: Seq<char>)
    ensures
        text_at_most(left, right) || text_at_most(right, left),
    decreases left.len(),
{
    if left.len() > 0 && right.len() > 0 {
        lemma_text_total(left.drop_first(), right.drop_first());
    }
}

/// The order of texts chains.
pub proof fn lemma_text_transitive(left: Seq<char>, middle: Seq<char>, right: Seq<char>)
    requires
        text_at_most(left, middle),
        text_at_most(middle, right),
    ensures
        text_at_most(left, right),
    decreases left.len(),
{
    if left.len() > 0 && middle.len() > 0 && right.len() > 0 && left[0] == middle[0] && middle[0]
        == right[0] {
        lemma_text_transitive(left.drop_first(), middle.drop_first(), right.drop_first());
    }
}

/// Different texts stand in one order only.
pub proof fn lemma_text_antisymmetric(left: Seq<char>, right: Seq<char>)
    requires
        text_at_most(left, right),
        text_at_most(right, left),
    ensures
        left == right,
    decreases left.len(),
{
    if left.len() > 0 && right.len() > 0 {
        let left_rest = left.drop_first();
        let right_rest = right.drop_first();
        lemma_text_antisymmetric(left_rest, right_rest);
        assert(left.len() == right.len());
        assert forall|at: int| 0 <= at < left.len() implies left[at] == right[at] by {
            if at > 0 {
                assert(left[at] == left_rest[at - 1]);
                assert(right[at] == right_rest[at - 1]);
            }
        }
        assert(left =~= right);
    } else {
        assert(left =~= right);
    }
}

/// Decides `text_at_most`.
pub fn is_text_at_most(left: &Vec<char>, right: &Vec<char>) -> (answer: bool)
    ensures
        answer == text_at_most(left@, right@),
{
    let mut at: usize = 0;
    assert(left@.skip(0) =~= left@);
    assert(right@.skip(0) =~= right@);
    while at < left.len()
        invariant
            at <= left@.len(),
            at <= right@.len(),
            text_at_most(left@, right@) == text_at_most(left@.skip(at as int), right@.skip(at as int)),
        decreases left@.len() - at,
    {
        if at >= right.len() {
            return false;
        }
        if left[at] != right[at] {
            return left[at] < right[at];
        }
        assert(left@.skip(at as int).drop_first() =~= left@.skip(at + 1));
        assert(right@.skip(at as int).drop_first() =~= right@.skip(at + 1));
        at += 1;
    }
    true
}

/// Text as a sort key.
pub struct TextKey {
    pub chars: Vec<char>,
}

impl SortKey for TextKey {
    open spec fn at_most(self, other: Self) -> bool {
        text_at_most(self.chars@, other.chars@)
    }

    proof fn lemma_total(left: Self, right: Self) {
        lemma_text_total(left.chars@, right.chars@);
    }

    proof fn lemma_transitive(left: Self, middle: Self, right: Self) {
        lemma_text_transitive(left.chars@, middle.chars@, right.chars@);
    }

    fn is_at_most(&self, other: &Self) -> (answer: bool) {
        is_text_at_most(&self.chars, &other.chars)
    }
}

/// The place of the first `character` in `text`, or the length of `text` where there is none.
pub open spec fn first_place(text: Seq<char>, character: char) -> int
    decreases text.len(),
{
    if text.len() == 0 || text[0] == character {
        0
    } else {
        1 + first_place(text.drop_first(), character)
    }
}

/// The first place is the one that holds the character and has none before it.
pub proof fn lemma_first_place(text: Seq<char>, character: char, place: int)
    requires
        0 <= place <= text.len(),
        forall|before: int| 0 <= before < place ==> text[before] != character,
        place < text.len() ==> text[place] == character,
    ensures
        first_place(text, character) == place,
    decreases text.len(),
{
    if text.len() > 0 && place > 0 {
        let rest = text.drop_first();
        assert forall|before: int| 0 <= before < place - 1 implies rest[before] != character by {
            assert(rest[before] == text[before + 1]);
        }
        assert(text[0] != character);
        lemma_first_place(rest, character, place - 1);
    }
}

/// What is known of a first place.
pub proof fn lemma_first_place_holds(text: Seq<char>, character: char)
    ensures
        0 <= first_place(text, character) <= text.len(),
        forall|before: int|
            0 <= before < first_place(text, character) ==> text[before] != character,
        first_place(text, character) < text.len() ==> text[first_place(text, character)]
            == character,
        first_place(text, character) == text.len() <==> !text.contains(character),
    decreases text.len(),
{
    if text.len() > 0 && text[0] != character {
        let rest = text.drop_first();
        lemma_first_place_holds(rest, character);
        assert forall|before: int| 0 <= before < first_place(text, character) implies text[before]
            != character by {
            if before > 0 {
                assert(rest[before - 1] == text[before]);
            }
        }
        assert(first_place(text, character) < text.len() ==> text.contains(character));
    } else if text.len() > 0 {
        assert(text.contains(text[0]));
    }
}

/// Finds the first place of `character`.
pub fn find_char(chars: &Vec<char>, character: char) -> (place: usize)
    ensures
        place == first_place(chars@, character),
        place <= chars@.len(),
{
    let mut place: usize = 0;
    while place < chars.len() && chars[place] != character
        invariant
            place <= chars@.len(),
            forall|before: int| 0 <= before < place ==> chars@[before] != character,
        decreases chars@.len() - place,
    {
        place += 1;
    }
    proof {
        lemma_first_place(chars@, character, place as int);
    }
    place
}

/// The part of `text` before the first `separator`; the whole of it where there is none.
pub open spec fn head_before(text: Seq<char>, separator: char) -> Seq<char> {
    text.take(first_place(text, separator))
}

/// The part of `text` behind the first `separator`; nothing where there is none.
pub open spec fn tail_after(text: Seq<char>, separator: char) -> Seq<char> {
    if text.contains(separator) {
        text.skip(first_place(text, separator) + 1)
    } else {
        Seq::empty()
    }
}

/// Splits `chars` at the first `separator`.
pub fn split_first(chars: &Vec<char>, separator: char) -> (parts: (String, String))
    ensures
        parts.0@ == head_before(chars@, separator),
        parts.1@ == tail_after(chars@, separator),
{
    let place: usize = find_char(chars, separator);
    proof {
        lemma_first_place_holds(chars@, separator);
    }
    let head = text_between(chars, 0, place);
    assert(chars@.subrange(0, place as int) =~= chars@.take(place as int));
    if place < chars.len() {
        let tail = text_between(chars, place + 1, chars.len());
        assert(chars@.subrange(place + 1, chars@.len() as int) =~= chars@.skip(place + 1));
        (head, tail)
    } else {
        (head, String::new())
    }
}

/// Whether `chars` holds `part` from `start` on.
fn holds_at(chars: &Vec<char>, start: usize, part: &Vec<char>) -> (answer: bool)
    requires
        start + part@.len() <= chars@.len(),
    ensures
        answer == (chars@.subrange(start as int, start + part@.len()) == part@),
{
    let mut at: usize = 0;
    while at < part.len()
        invariant
            start + part@.len() <= chars@.len(),
            at <= part@.len(),
            forall|before: int| 0 <= before < at ==> chars@[start + before] == part@[before],
        decreases part@.len() - at,
    {
        assert(start + at < chars.len());
        if chars[start + at] != part[at] {
            assert(chars@.subrange(start as int, start + part@.len())[at as int] != part@[at as int]);
            return false;
        }
        at += 1;
    }
    assert(chars@.subrange(start as int, start + part@.len()) =~= part@);
    true
}

/// Whether `text` ends with `part`.
pub fn has_suffix(text: &str, part: &str) -> (answer: bool)
    ensures
        answer == part@.is_suffix_of(text@),
{
    let chars = chars_of(text);
    let wanted = chars_of(part);
    wanted.len() <= chars.len() && holds_at(&chars, chars.len() - wanted.len(), &wanted)
}

/// The texts one behind the other, with `separator` between each two.
pub open spec fn joined(texts: Seq<Seq<char>>, separator: Seq<char>) -> Seq<char>
    decreases texts.len(),
{
    if texts.len() == 0 {
        Seq::empty()
    } else if texts.len() == 1 {
        texts[0]
    } else {
        joined(texts.drop_last(), separator) + separator + texts.last()
    }
}

/// Joins texts.
pub fn join(texts: &Vec<String>, separator: &str) -> (text: String)
    ensures
        text@ == joined(views(texts@), separator@),
{
    let mut text = String::new();
    let mut at: usize = 0;
    while at < texts.len()
        invariant
            at <= texts@.len(),
            text@ == joined(views(texts@).take(at as int), separator@),
        decreases texts@.len() - at,
    {
        if at > 0 {
            text.append(separator);
        }
        text.append(texts[at].as_str());
        let ghost longer = views(texts@).take(at + 1);
        assert(longer.drop_last() =~= views(texts@).take(at as int));
        assert(longer.last() == texts@[at as int]@);
        if at == 0 {
            assert(text@ =~= longer[0]);
        }
        at += 1;
    }
    assert(views(texts@).take(at as int) =~= views(texts@));
    text
}

/// The views of a list of texts.
pub open spec fn views(texts: Seq<String>) -> Seq<Seq<char>> {
    texts.map_values(|text: String| text@)
}

/// The views of a list with one more text at its end.
pub proof fn lemma_views_push(texts: Seq<String>, text: String)
    ensures
        views(texts.push(text)) == views(texts).push(text@),
{
    assert(views(texts.push(text)) =~= views(texts).push(text@));
}

/// `left` and `right`, one behind the other.
pub fn concat(left: &str, right: &str) -> (text: String)
    ensures
        text@ == left@ + right@,
{
    let mut text = left.to_owned();
    text.append(right);
    text
}

/// Whether `texts` holds `text`.
pub fn holds_text(texts: &Vec<String>, text: &str) -> (answer: bool)
    ensures
        answer == views(texts@).contains(text@),
{
    let mut at: usize = 0;
    while at < texts.len()
        invariant
            at <= texts@.len(),
            forall|before: int| 0 <= before < at ==> texts@[before]@ != text@,
        decreases texts@.len() - at,
    {
        if same_text(texts[at].as_str(), text) {
            assert(views(texts@)[at as int] == text@);
            return true;
        }
        at += 1;
    }
    assert forall|place: int| 0 <= place < views(texts@).len() implies views(texts@)[place]
        != text@ by {
        assert(views(texts@)[place] == texts@[place]@);
    }
    false
}

/// Whether two texts agree up to `at`, and there the first one ends or has the smaller character.
pub open spec fn is_smaller_at(left: Seq<char>, right: Seq<char>, at: int) -> bool {
    &&& 0 <= at <= left.len()
    &&& at < right.len()
    &&& forall|before: int| 0 <= before < at ==> #[trigger] left[before] == right[before]
    &&& at < left.len() ==> left[at] < right[at]
}

/// Texts go by the first character in which they differ, and a text goes before its extensions.
pub proof fn law_first_difference_decides(left: Seq<char>, right: Seq<char>)
    ensures
        text_at_most(left, right) <==> left == right || exists|at: int|
            is_smaller_at(left, right, at),
    decreases left.len(),
{
    if left.len() == 0 {
        if right.len() > 0 {
            assert(is_smaller_at(left, right, 0));
        } else {
            assert(left =~= right);
        }
    } else if right.len() > 0 && left[0] == right[0] {
        let less = left.drop_first();
        let more = right.drop_first();
        law_first_difference_decides(less, more);
        assert(less == more ==> left =~= right) by {
            if less == more {
                assert forall|at: int| 0 <= at < left.len() implies left[at] == right[at] by {
                    if at > 0 {
                        assert(less[at - 1] == more[at - 1]);
                    }
                }
            }
        }
        if exists|at: int| is_smaller_at(less, more, at) {
            let at = choose|at: int| is_smaller_at(less, more, at);
            assert forall|before: int| 0 <= before < at + 1 implies #[trigger] left[before]
                == right[before] by {
                if before > 0 {
                    assert(less[before - 1] == more[before - 1]);
                }
            }
            assert(is_smaller_at(left, right, at + 1));
        }
        if exists|at: int| is_smaller_at(left, right, at) {
            let at = choose|at: int| is_smaller_at(left, right, at);
            assert forall|before: int| 0 <= before < at - 1 implies #[trigger] less[before]
                == more[before] by {
                assert(left[before + 1] == right[before + 1]);
            }
            assert(is_smaller_at(less, more, at - 1));
        }
    } else if right.len() > 0 {
        if left[0] < right[0] {
            assert(is_smaller_at(left, right, 0));
        }
        if exists|at: int| is_smaller_at(left, right, at) {
            let at = choose|at: int| is_smaller_at(left, right, at);
            if at > 0 {
                assert(left[0] == right[0]);
            }
        }
    }
}

/// A text is cut at its first separator: the part before holds none, and with the separator and the
/// part behind it makes up the text. Without a separator the text is all before it.
pub proof fn law_parts_make_up_the_text(text: Seq<char>, separator: char)
    ensures
        !head_before(text, separator).contains(separator),
        text.contains(separator) ==> text == head_before(text, separator) + seq![separator]
            + tail_after(text, separator),
        !text.contains(separator) ==> head_before(text, separator) == text && tail_after(
            text,
            separator,
        ).len() == 0,
{
    lemma_first_place_holds(text, separator);
    let head = head_before(text, separator);
    assert forall|at: int| 0 <= at < head.len() implies head[at] != separator by {
        assert(head[at] == text[at]);
    }
    if text.contains(separator) {
        assert(text =~= head + seq![separator] + tail_after(text, separator));
    } else {
        assert(head =~= text);
    }
}

/// Texts are joined piece by piece: two lists behind each other give their texts with the separator
/// between them, one text gives itself, and none give nothing.
pub proof fn law_joining_goes_on(one: Seq<Seq<char>>, other: Seq<Seq<char>>, separator: Seq<char>)
    ensures
        one.len() > 0 && other.len() > 0 ==> joined(one + other, separator) == joined(
            one,
            separator,
        ) + separator + joined(other, separator),
        one.len() == 1 ==> joined(one, separator) == one[0],
        one.len() == 0 ==> joined(one, separator).len() == 0,
    decreases other.len(),
{
    if one.len() > 0 && other.len() > 0 {
        let all = one + other;
        assert(all.last() == other.last());
        assert(all.drop_last() =~= one + other.drop_last());
        if other.len() > 1 {
            law_joining_goes_on(one, other.drop_last(), separator);
            assert(joined(all, separator) =~= joined(one, separator) + separator + joined(
                other,
                separator,
            ));
        } else {
            assert(all.drop_last() =~= one);
        }
    }
}

/// Whether a text holds another in one piece.
pub open spec fn holds_part(text: Seq<char>, part: Seq<char>) -> bool {
    exists|at: int|
        0 <= at && at + part.len() <= text.len() && #[trigger] text.subrange(
            at,
            at + part.len() as int,
        ) == part
}

/// A text holds what was put between two others.
pub proof fn lemma_part_is_held(front: Seq<char>, part: Seq<char>, back: Seq<char>)
    ensures
        holds_part(front + part + back, part),
{
    let text = front + part + back;
    let at = front.len() as int;
    assert(text.subrange(at, at + part.len() as int) =~= part);
}

} // verus!
