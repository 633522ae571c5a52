//! White space, and the lines and fields that text is cut into.

use vstd::prelude::*;

use crate::text::{
    chars_of, first_place, lemma_first_place, lemma_first_place_holds, lemma_views_push,
    text_between, views,
};

verus! {

/// Whether `character` has the Unicode property `White_Space`.
pub open spec fn is_space(character: char) -> bool {
    let code = character as u32;
    ||| 0x9 <= code <= 0xd
    ||| code == 0x20
    ||| code == 0x85
    ||| code == 0xa0
    ||| code == 0x1680
    ||| 0x2000 <= code <= 0x200a
    ||| code == 0x2028
    ||| code == 0x2029
    ||| code == 0x202f
    ||| code == 0x205f
    ||| code == 0x3000
}

/// Decides `is_space`.
pub fn is_white_space(character: char) -> (answer: bool)
    ensures
        answer == is_space(character),
{
    let code: u32 = character as u32;
    (0x9 <= code && code <= 0xd) || code == 0x20 || code == 0x85 || code == 0xa0 || code == 0x1680
        || (0x2000 <= code && code <= 0x200a) || code == 0x2028 || code == 0x2029 || code == 0x202f
        || code == 0x205f || code == 0x3000
}

/// `text` without the white space at its two ends.
pub open spec fn trimmed(text: Seq<char>) -> Seq<char>
    decreases text.len(),
{
    if text.len() == 0 {
        text
    } else if is_space(text[0]) {
        trimmed(text.drop_first())
    } else if is_space(text.last()) {
        trimmed(text.drop_last())
    } else {
        text
    }
}

/// Trimming takes the white space off the front, and then off the back.
proof fn lemma_trimmed(text: Seq<char>, start: int, end: int)
    requires
        0 <= start <= end <= text.len(),
        forall|before: int| 0 <= before < start ==> is_space(#[trigger] text[before]),
        forall|behind: int| end <= behind < text.len() ==> is_space(#[trigger] text[behind]),
        start < end ==> !is_space(text[start]) && !is_space(text[end - 1]),
    ensures
        trimmed(text) == text.subrange(start, end),
    decreases text.len(),
{
    if text.len() == 0 {
        assert(text.subrange(start, end) =~= text);
    } else if is_space(text[0]) {
        let rest = text.drop_first();
        if start > 0 {
            assert forall|before: int| 0 <= before < start - 1 implies is_space(
                #[trigger] rest[before],
            ) by {
                assert(rest[before] == text[before + 1]);
            }
            assert forall|behind: int| end - 1 <= behind < rest.len() implies is_space(
                #[trigger] rest[behind],
            ) by {
                assert(rest[behind] == text[behind + 1]);
            }
            lemma_trimmed(rest, start - 1, end - 1);
            assert(rest.subrange(start - 1, end - 1) =~= text.subrange(start, end));
        } else {
            assert(start == end);
            let shift = if end > 0 {
                end - 1
            } else {
                0
            };
            assert forall|behind: int| shift <= behind < rest.len() implies is_space(
                #[trigger] rest[behind],
            ) by {
                assert(rest[behind] == text[behind + 1]);
            }
            lemma_trimmed(rest, shift, shift);
            assert(rest.subrange(shift, shift) =~= text.subrange(start, end));
        }
    } else if is_space(text.last()) {
        let rest = text.drop_last();
        assert(start == 0);
        assert(end < text.len() || start == end) by {
            if start < end && end == text.len() {
                assert(text[end - 1] == text.last());
            }
        }
        assert(start < end) by {
            if end == 0 {
                assert(is_space(text[0]));
            }
        }
        assert forall|behind: int| end <= behind < rest.len() implies is_space(
            #[trigger] rest[behind],
        ) by {
            assert(rest[behind] == text[behind]);
        }
        lemma_trimmed(rest, start, end);
        assert(rest.subrange(start, end) =~= text.subrange(start, end));
    } else {
        assert(start == 0) by {
            if start > 0 {
                assert(is_space(text[0]));
            }
        }
        assert(end == text.len()) by {
            if end < text.len() {
                assert(is_space(text[text.len() - 1]));
            }
        }
        assert(text.subrange(start, end) =~= text);
    }
}

/// Takes the white space off both ends.
pub fn trim(text: &str) -> (rest: String)
    ensures
        rest@ == trimmed(text@),
{
    let chars = chars_of(text);
    let mut start: usize = 0;
    while start < chars.len() && is_white_space(chars[start])
        invariant
            start <= chars@.len(),
            forall|before: int| 0 <= before < start ==> is_space(#[trigger] chars@[before]),
        decreases chars@.len() - start,
    {
        start += 1;
    }
    let mut end: usize = chars.len();
    while end > start && is_white_space(chars[end - 1])
        invariant
            start <= end <= chars@.len(),
            start < chars@.len() ==> !is_space(chars@[start as int]),
            forall|behind: int|
                end <= behind < chars@.len() ==> is_space(#[trigger] chars@[behind]),
        decreases end,
    {
        end -= 1;
    }
    proof {
        lemma_trimmed(chars@, start as int, end as int);
    }
    text_between(&chars, start, end)
}

/// Whether there is nothing but white space in `text`.
pub open spec fn is_blank(text: Seq<char>) -> bool {
    trimmed(text).len() == 0
}

/// Decides `is_blank`.
pub fn is_blank_text(text: &str) -> (answer: bool)
    ensures
        answer == is_blank(text@),
{
    trim(text).as_str().unicode_len() == 0
}

/// `line` without a carriage return at its end.
pub open spec fn without_return(line: Seq<char>) -> Seq<char> {
    if line.len() > 0 && line.last() == '\r' {
        line.drop_last()
    } else {
        line
    }
}

/// The lines of `text`: each ends with a line feed, which may have a carriage return before it;
/// the last one may lack the line feed.
pub open spec fn lines_of(text: Seq<char>) -> Seq<Seq<char>>
    decreases text.len(),
{
    if text.len() == 0 {
        Seq::empty()
    } else if !text.contains('\n') {
        seq![text]
    } else {
        let end = first_place(text, '\n');
        proof {
            lemma_first_place_holds(text, '\n');
        }
        seq![without_return(text.take(end))] + lines_of(text.skip(end + 1))
    }
}

/// Cuts `text` into lines.
pub fn lines(text: &str) -> (found: Vec<String>)
    ensures
        views(found@) == lines_of(text@),
{
    let chars = chars_of(text);
    let mut found: Vec<String> = Vec::new();
    let mut start: usize = 0;
    assert(chars@.skip(0) =~= chars@);
    assert(views(found@) + lines_of(chars@) =~= lines_of(chars@));
    while start < chars.len()
        invariant
            start <= chars@.len(),
            views(found@) + lines_of(chars@.skip(start as int)) == lines_of(chars@),
        decreases chars@.len() - start,
    {
        let ghost rest = chars@.skip(start as int);
        let end = next_place(&chars, start, '\n');
        proof {
            lemma_first_place_holds(rest, '\n');
        }
        let line_end: usize = if end < chars.len() && end > start && chars[end - 1] == '\r' {
            end - 1
        } else {
            end
        };
        let line = text_between(&chars, start, line_end);
        let ghost before = found@;
        proof {
            lemma_views_push(found@, line);
        }
        found.push(line);
        if end < chars.len() {
            let ghost whole = rest.take(end - start);
            assert(whole =~= chars@.subrange(start as int, end as int));
            if end > start {
                assert(whole.last() == chars@[end - 1]);
            }
            assert(line@ =~= without_return(whole));
            assert(rest.skip(end - start + 1) =~= chars@.skip(end + 1));
            assert(rest[end - start] == '\n');
            assert(rest.contains('\n'));
            assert(views(found@) + lines_of(chars@.skip(end + 1)) =~= views(before) + (seq![line@]
                + lines_of(chars@.skip(end + 1))));
            start = end + 1;
        } else {
            assert(line@ =~= rest);
            assert(lines_of(rest) == seq![rest]);
            assert(views(found@) =~= views(before) + seq![rest]);
            start = end;
            assert(chars@.skip(start as int) =~= Seq::<char>::empty());
            assert(views(found@) + Seq::<Seq<char>>::empty() =~= views(found@));
        }
    }
    assert(chars@.skip(start as int) =~= Seq::<char>::empty());
    assert(views(found@) + Seq::<Seq<char>>::empty() =~= views(found@));
    found
}

/// Finds the first `character` at `start` or behind; the end where there is none.
pub fn next_place(chars: &Vec<char>, start: usize, character: char) -> (place: usize)
    requires
        start <= chars@.len(),
    ensures
        start <= place <= chars@.len(),
        place == start + first_place(chars@.skip(start as int), character),
{
    let mut place: usize = start;
    while place < chars.len() && chars[place] != character
        invariant
            start <= place <= chars@.len(),
            forall|before: int| start <= before < place ==> chars@[before] != character,
        decreases chars@.len() - place,
    {
        place += 1;
    }
    proof {
        let rest = chars@.skip(start as int);
        assert forall|before: int| 0 <= before < place - start implies rest[before]
            != character by {
            assert(rest[before] == chars@[start + before]);
        }
        lemma_first_place(rest, character, place - start);
    }
    place
}

/// Trimming takes all white space off both ends and nothing else: only white space stands before
/// and behind what is left, which is nothing or begins and ends with something else.
pub proof fn law_trimming_takes_off_space(text: Seq<char>) -> (bounds: (int, int))
    ensures
        0 <= bounds.0 <= bounds.1 <= text.len(),
        trimmed(text) == text.subrange(bounds.0, bounds.1),
        forall|at: int|
            0 <= at < bounds.0 || bounds.1 <= at < text.len() ==> is_space(#[trigger] text[at]),
        bounds.0 < bounds.1 ==> !is_space(text[bounds.0]) && !is_space(text[bounds.1 - 1]),
    decreases text.len(),
{
    if text.len() == 0 {
        assert(text.subrange(0, 0) =~= text);
        (0, 0)
    } else if is_space(text[0]) {
        let rest = text.drop_first();
        let inner = law_trimming_takes_off_space(rest);
        let bounds = (inner.0 + 1, inner.1 + 1);
        assert(rest.subrange(inner.0, inner.1) =~= text.subrange(bounds.0, bounds.1));
        assert forall|at: int|
            0 <= at < bounds.0 || bounds.1 <= at < text.len() implies is_space(
            #[trigger] text[at],
        ) by {
            if at > 0 {
                assert(rest[at - 1] == text[at]);
            }
        }
        bounds
    } else if is_space(text.last()) {
        let rest = text.drop_last();
        let bounds = law_trimming_takes_off_space(rest);
        assert(rest.subrange(bounds.0, bounds.1) =~= text.subrange(bounds.0, bounds.1));
        assert forall|at: int|
            0 <= at < bounds.0 || bounds.1 <= at < text.len() implies is_space(
            #[trigger] text[at],
        ) by {
            if at < rest.len() {
                assert(rest[at] == text[at]);
            }
        }
        bounds
    } else {
        assert(text.subrange(0, text.len() as int) =~= text);
        (0, text.len() as int)
    }
}

/// A text is blank exactly where it is made of white space alone.
pub proof fn law_blank_text_is_all_space(text: Seq<char>)
    ensures
        is_blank(text) <==> forall|at: int| 0 <= at < text.len() ==> is_space(#[trigger] text[at]),
{
    let bounds = law_trimming_takes_off_space(text);
    if is_blank(text) {
        assert(bounds.0 == bounds.1);
    } else {
        assert(trimmed(text).len() > 0);
        assert(!is_space(text[bounds.0]));
    }
}

/// The lines of a text end at its line feeds: a line with its line feed, with or without a carriage
/// return before that, is one line, and then come the lines of the rest. What has no line feed is
/// one line, and nothing has none.
pub proof fn law_lines_end_at_line_feeds(line: Seq<char>, rest: Seq<char>)
    requires
        !line.contains('\n'),
    ensures
        line.len() == 0 || line.last() != '\r' ==> lines_of(line + seq!['\n'] + rest) == seq![line]
            + lines_of(rest),
        lines_of(line + seq!['\r', '\n'] + rest) == seq![line] + lines_of(rest),
        line.len() > 0 ==> lines_of(line) == seq![line],
        lines_of(Seq::empty()) == Seq::<Seq<char>>::empty(),
{
    let plain = line + seq!['\n'] + rest;
    let end = line.len() as int;
    assert(plain[end] == '\n');
    assert forall|before: int| 0 <= before < end implies plain[before] != '\n' by {
        assert(line.contains(line[before]));
    }
    lemma_first_place(plain, '\n', end);
    assert(plain.take(end) =~= line);
    assert(plain.skip(end + 1) =~= rest);
    assert(plain.contains('\n'));
    let returned = line + seq!['\r', '\n'] + rest;
    assert(returned[end + 1] == '\n');
    assert forall|before: int| 0 <= before < end + 1 implies returned[before] != '\n' by {
        if before < end {
            assert(line.contains(line[before]));
        }
    }
    lemma_first_place(returned, '\n', end + 1);
    assert(returned.take(end + 1) =~= line.push('\r'));
    assert(returned.take(end + 1).drop_last() =~= line);
    assert(returned.skip(end + 2) =~= rest);
    assert(returned.contains('\n'));
}

/// The characters that are space.
pub open spec fn space_codes() -> Seq<u32> {
    seq![
        0x9,
        0xa,
        0xb,
        0xc,
        0xd,
        0x20,
        0x85,
        0xa0,
        0x1680,
        0x2000,
        0x2001,
        0x2002,
        0x2003,
        0x2004,
        0x2005,
        0x2006,
        0x2007,
        0x2008,
        0x2009,
        0x200a,
        0x2028,
        0x2029,
        0x202f,
        0x205f,
        0x3000,
    ]
}

/// Space is white space by the Unicode standard: tab, line feed, vertical tab, form feed, return,
/// the space itself, the next line, and the spaces and separators of other scripts and of
/// typography.
pub proof fn law_space_is_white_space(character: char)
    ensures
        is_space(character) <==> space_codes().contains(character as u32),
{
    let codes = space_codes();
    let code = character as u32;
    if is_space(character) {
        if code <= 0xd {
            assert(codes[code - 0x9] == code);
        } else if 0x2000 <= code <= 0x200a {
            assert(codes[code - 0x2000 + 9] == code);
        } else {
            assert(codes[5] == 0x20 && codes[6] == 0x85 && codes[7] == 0xa0 && codes[8] == 0x1680);
            assert(codes[20] == 0x2028 && codes[21] == 0x2029 && codes[22] == 0x202f);
            assert(codes[23] == 0x205f && codes[24] == 0x3000);
        }
    }
}

} // verus!
