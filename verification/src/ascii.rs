//! Letters of the ASCII alphabet, and text compared without regard to their case.

use vstd::prelude::*;

use crate::text::chars_of;

verus! {

/// The small letter for a capital ASCII letter; any other character as it is.
pub open spec fn lower(character: char) -> char {
    if 'A' <= character <= 'Z' {
        (character as u32 + 32) as char
    } else {
        character
    }
}

/// `text` with its capital ASCII letters made small.
pub open spec fn lowered(text: Seq<char>) -> Seq<char> {
    text.map_values(|character: char| lower(character))
}

/// Whether `character` is an ASCII letter or digit.
pub open spec fn is_alphanumeric(character: char) -> bool {
    ||| 'A' <= character <= 'Z'
    ||| 'a' <= character <= 'z'
    ||| '0' <= character <= '9'
}

/// Decides `is_alphanumeric`.
pub fn is_ascii_alphanumeric(character: char) -> (answer: bool)
    ensures
        answer == is_alphanumeric(character),
{
    ('A' <= character && character <= 'Z') || ('a' <= character && character <= 'z') || ('0'
        <= character && character <= '9')
}

/// Makes one capital ASCII letter small.
pub fn lower_char(character: char) -> (small: char)
    ensures
        small == lower(character),
{
    if 'A' <= character && character <= 'Z' {
        let code: u8 = character as u8;
        (code + 32) as char
    } else {
        character
    }
}

/// Makes the capital ASCII letters of `text` small.
pub fn lower_text(text: &str) -> (small: String)
    ensures
        small@ == lowered(text@),
{
    let chars = chars_of(text);
    let mut small = String::new();
    let mut at: usize = 0;
    while at < chars.len()
        invariant
            at <= chars@.len(),
            small@ == lowered(chars@.take(at as int)),
        decreases chars@.len() - at,
    {
        small.push(lower_char(chars[at]));
        at += 1;
        assert(small@ =~= lowered(chars@.take(at as int)));
    }
    assert(chars@.take(at as int) =~= chars@);
    small
}

/// Whether two texts differ in nothing but the case of ASCII letters.
pub open spec fn same_lowered(left: Seq<char>, right: Seq<char>) -> bool {
    lowered(left) == lowered(right)
}

/// Decides `same_lowered`.
pub fn is_same_lowered(left: &str, right: &str) -> (answer: bool)
    ensures
        answer == same_lowered(left@, right@),
{
    let left_chars = chars_of(left);
    let right_chars = chars_of(right);
    if left_chars.len() != right_chars.len() {
        assert(lowered(left@).len() != lowered(right@).len());
        return false;
    }
    let mut at: usize = 0;
    while at < left_chars.len()
        invariant
            left_chars@ == left@,
            right_chars@ == right@,
            at <= left@.len(),
            left@.len() == right@.len(),
            forall|before: int|
                0 <= before < at ==> lower(#[trigger] left@[before]) == lower(right@[before]),
        decreases left@.len() - at,
    {
        if lower_char(left_chars[at]) != lower_char(right_chars[at]) {
            assert(lowered(left@)[at as int] != lowered(right@)[at as int]);
            return false;
        }
        at += 1;
    }
    assert(lowered(left@) =~= lowered(right@));
    true
}

/// Making letters small leaves no capital letter, moves a capital letter by its distance to the
/// small one, and leaves everything else alone.
pub proof fn law_small_letters(text: Seq<char>, at: int)
    requires
        0 <= at < text.len(),
    ensures
        lowered(text).len() == text.len(),
        !('A' <= lowered(text)[at] <= 'Z'),
        'A' <= text[at] <= 'Z' ==> lowered(text)[at] as int - 'a' as int == text[at] as int
            - 'A' as int,
        !('A' <= text[at] <= 'Z') ==> lowered(text)[at] == text[at],
{
}

/// Texts differ in nothing but case exactly where, place by place, their characters are the same or
/// the two forms of one letter.
pub proof fn law_same_in_either_case(left: Seq<char>, right: Seq<char>)
    ensures
        same_lowered(left, right) <==> left.len() == right.len() && forall|at: int|
            0 <= at < left.len() ==> {
                ||| #[trigger] left[at] == right[at]
                ||| 'A' <= left[at] <= 'Z' && right[at] as int == left[at] as int + 32
                ||| 'A' <= right[at] <= 'Z' && left[at] as int == right[at] as int + 32
            },
{
    let small = lowered(left);
    let other = lowered(right);
    assert(small.len() == left.len() && other.len() == right.len());
    assert forall|at: int| 0 <= at < left.len() && at < right.len() implies (small[at] == other[at]
        <==> {
        ||| #[trigger] left[at] == right[at]
        ||| 'A' <= left[at] <= 'Z' && right[at] as int == left[at] as int + 32
        ||| 'A' <= right[at] <= 'Z' && left[at] as int == right[at] as int + 32
    }) by {
        assert(small[at] == lower(left[at]));
        assert(other[at] == lower(right[at]));
        lemma_lower_code(left[at]);
        lemma_lower_code(right[at]);
        if small[at] as int == other[at] as int {
            assert(small[at] == other[at]);
        }
    }
    if left.len() == right.len() && (forall|at: int|
        0 <= at < left.len() ==> {
            ||| #[trigger] left[at] == right[at]
            ||| 'A' <= left[at] <= 'Z' && right[at] as int == left[at] as int + 32
            ||| 'A' <= right[at] <= 'Z' && left[at] as int == right[at] as int + 32
        }) {
        assert forall|at: int| 0 <= at < small.len() implies small[at] == other[at] by {
            assert(left[at] == left[at]);
        }
        assert(small =~= other);
    }
}

/// The code of a letter that was made small.
proof fn lemma_lower_code(character: char)
    ensures
        lower(character) as int == if 'A' <= character <= 'Z' {
            character as int + 32
        } else {
            character as int
        },
{
}

} // verus!
