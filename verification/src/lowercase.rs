//! Text without regard to case, for every alphabet.

use vstd::prelude::*;

use crate::ascii::{lower, lowered};
use crate::text::chars_of;

verus! {

/// The small letters that `char::to_lowercase` gives for a character.
pub uninterp spec fn small_letters(character: char) -> Seq<char>;

/// The text that `str::to_lowercase` makes of a text.
pub uninterp spec fn small_text(text: Seq<char>) -> Seq<char>;

/// Whether a character belongs to ASCII.
pub open spec fn is_ascii_char(character: char) -> bool {
    (character as u32) < 0x80
}

/// Whether all characters belong to ASCII.
pub open spec fn is_ascii_text(text: Seq<char>) -> bool {
    forall|at: int| 0 <= at < text.len() ==> is_ascii_char(#[trigger] text[at])
}

/// Calls `char::to_lowercase`, named `small_letters`: one or more characters. A capital ASCII
/// letter becomes its small one, any other ASCII character stays as it is.
#[verifier::external_body]
fn to_small_letters(character: char) -> (letters: Vec<char>)
    ensures
        letters@ == small_letters(character),
        letters@.len() >= 1,
        is_ascii_char(character) ==> letters@ == seq![lower(character)],
{
    character.to_lowercase().collect()
}

/// Calls `str::to_lowercase`, named `small_text`. In ASCII text every capital letter becomes its
/// small one, and nothing else changes.
#[verifier::external_body]
pub(crate) fn to_small_text(text: &str) -> (small: String)
    ensures
        small@ == small_text(text@),
        is_ascii_text(text@) ==> small@ == lowered(text@),
{
    text.to_lowercase()
}

/// The small letters of all characters, one behind the other.
pub open spec fn folded(text: Seq<char>) -> Seq<char>
    decreases text.len(),
{
    if text.len() == 0 {
        Seq::empty()
    } else {
        folded(text.drop_last()) + small_letters(text.last())
    }
}

/// The small letters of all characters, one behind the other.
pub fn fold_case(text: &str) -> (letters: Vec<char>)
    ensures
        letters@ == folded(text@),
        is_ascii_text(text@) ==> letters@ == lowered(text@),
{
    let chars = chars_of(text);
    let mut letters: Vec<char> = Vec::new();
    let mut at: usize = 0;
    assert(text@.take(0) =~= Seq::<char>::empty());
    assert(letters@ =~= folded(text@.take(0)));
    assert(letters@ =~= lowered(text@.take(0)));
    while at < chars.len()
        invariant
            chars@ == text@,
            at <= text@.len(),
            letters@ == folded(text@.take(at as int)),
            is_ascii_text(text@) ==> letters@ == lowered(text@.take(at as int)),
        decreases text@.len() - at,
    {
        let ghost longer = text@.take(at + 1);
        assert(longer.drop_last() =~= text@.take(at as int));
        assert(longer.last() == text@[at as int]);
        let ghost before = letters@;
        let small = to_small_letters(chars[at]);
        let mut next: usize = 0;
        while next < small.len()
            invariant
                next <= small@.len(),
                letters@ == before + small@.take(next as int),
            decreases small@.len() - next,
        {
            letters.push(small[next]);
            next += 1;
            assert(letters@ =~= before + small@.take(next as int));
        }
        assert(small@.take(next as int) =~= small@);
        proof {
            if is_ascii_text(text@) {
                assert(is_ascii_char(text@[at as int]));
                assert(letters@ =~= lowered(longer));
            }
        }
        at += 1;
    }
    assert(text@.take(at as int) =~= text@);
    letters
}

/// Folding goes character by character: two texts behind each other give their letters behind each
/// other, one character gives its small letters, and nothing gives nothing.
pub proof fn law_folding_goes_on(one: Seq<char>, other: Seq<char>)
    ensures
        folded(one + other) == folded(one) + folded(other),
        one.len() == 1 ==> folded(one) == small_letters(one[0]),
        one.len() == 0 ==> folded(one).len() == 0,
    decreases other.len(),
{
    let all = one + other;
    if other.len() > 0 {
        law_folding_goes_on(one, other.drop_last());
        assert(all.drop_last() =~= one + other.drop_last());
        assert(folded(all) =~= folded(one) + folded(other));
    } else {
        assert(all =~= one);
        assert(folded(one) + folded(other) =~= folded(one));
    }
    if one.len() == 1 {
        assert(one.drop_last() =~= Seq::<char>::empty());
        assert(folded(one.drop_last()) =~= Seq::<char>::empty());
        assert(folded(one) =~= small_letters(one[0]));
    }
}

} // verus!
