//! What parts the components of a path, and the prefixes that a path on Windows may begin with.

use vstd::prelude::*;

use crate::ascii::{lower, lower_char};
use crate::platform::Platform;
use crate::text::{chars_of, is_text_at_most, same_chars, text_between};
use crate::text::{
    lemma_text_antisymmetric, lemma_text_total, lemma_text_transitive, text_at_most,
};

verus! {

/// What a path on Windows may begin with.
#[derive(Debug)]
pub enum Prefix {
    /// `\\?\name`
    Verbatim(Vec<char>),
    /// `\\?\UNC\server\share`
    VerbatimShare(Vec<char>, Vec<char>),
    /// `\\?\c:`
    VerbatimDrive(char),
    /// `\\.\name`
    Device(Vec<char>),
    /// `\\server\share`
    Share(Vec<char>, Vec<char>),
    /// `c:`
    Drive(char),
}

/// What a prefix is; a drive goes by its small letter.
pub enum PrefixView {
    Verbatim(Seq<char>),
    VerbatimShare(Seq<char>, Seq<char>),
    VerbatimDrive(char),
    Device(Seq<char>),
    Share(Seq<char>, Seq<char>),
    Drive(char),
}

impl View for Prefix {
    type V = PrefixView;

    open spec fn view(&self) -> PrefixView {
        match *self {
            Prefix::Verbatim(name) => PrefixView::Verbatim(name@),
            Prefix::VerbatimShare(server, share) => PrefixView::VerbatimShare(server@, share@),
            Prefix::VerbatimDrive(letter) => PrefixView::VerbatimDrive(letter),
            Prefix::Device(name) => PrefixView::Device(name@),
            Prefix::Share(server, share) => PrefixView::Share(server@, share@),
            Prefix::Drive(letter) => PrefixView::Drive(letter),
        }
    }
}

/// Whether a character parts the components of a path. Behind a verbatim prefix only a backslash
/// does.
pub open spec fn is_separator(platform: Platform, verbatim: bool, character: char) -> bool {
    match platform {
        Platform::Unix => character == '/',
        Platform::Windows => character == '\\' || (character == '/' && !verbatim),
    }
}

/// Decides `is_separator`.
pub fn parts_components(platform: Platform, verbatim: bool, character: char) -> (answer: bool)
    ensures
        answer == is_separator(platform, verbatim, character),
{
    match platform {
        Platform::Unix => character == '/',
        Platform::Windows => character == '\\' || (character == '/' && !verbatim),
    }
}

/// Where the piece of a path that begins at `start` ends: at the next separator, or with the path.
pub open spec fn piece_end(platform: Platform, verbatim: bool, path: Seq<char>, start: int) -> int
    decreases path.len() - start,
{
    if start < 0 || start >= path.len() || is_separator(platform, verbatim, path[start]) {
        start
    } else {
        piece_end(platform, verbatim, path, start + 1)
    }
}

/// A piece holds no separator, and ends at one or with the path.
pub proof fn lemma_piece_end(platform: Platform, verbatim: bool, path: Seq<char>, start: int)
    requires
        0 <= start <= path.len(),
    ensures
        start <= piece_end(platform, verbatim, path, start) <= path.len(),
        forall|at: int|
            start <= at < piece_end(platform, verbatim, path, start) ==> !is_separator(
                platform,
                verbatim,
                #[trigger] path[at],
            ),
        piece_end(platform, verbatim, path, start) < path.len() ==> is_separator(
            platform,
            verbatim,
            path[piece_end(platform, verbatim, path, start)],
        ),
    decreases path.len() - start,
{
    if start < path.len() && !is_separator(platform, verbatim, path[start]) {
        lemma_piece_end(platform, verbatim, path, start + 1);
    }
}

/// A piece ends at the first separator.
pub proof fn lemma_piece_ends_at(
    platform: Platform,
    verbatim: bool,
    path: Seq<char>,
    start: int,
    end: int,
)
    requires
        0 <= start <= end <= path.len(),
        forall|at: int|
            start <= at < end ==> !is_separator(platform, verbatim, #[trigger] path[at]),
        end < path.len() ==> is_separator(platform, verbatim, path[end]),
    ensures
        piece_end(platform, verbatim, path, start) == end,
    decreases end - start,
{
    if start < end {
        assert(!is_separator(platform, verbatim, path[start]));
        lemma_piece_ends_at(platform, verbatim, path, start + 1, end);
    }
}

/// Finds the end of a piece.
pub fn find_piece_end(platform: Platform, verbatim: bool, chars: &Vec<char>, start: usize) -> (end:
    usize)
    requires
        start <= chars@.len(),
    ensures
        start <= end <= chars@.len(),
        end == piece_end(platform, verbatim, chars@, start as int),
{
    let mut end: usize = start;
    while end < chars.len() && !parts_components(platform, verbatim, chars[end])
        invariant
            start <= end <= chars@.len(),
            forall|at: int|
                start <= at < end ==> !is_separator(platform, verbatim, #[trigger] chars@[at]),
        decreases chars@.len() - end,
    {
        end += 1;
    }
    proof {
        lemma_piece_ends_at(platform, verbatim, chars@, start as int, end as int);
    }
    end
}

/// Whether a path begins with two separators.
pub open spec fn begins_with_two(path: Seq<char>) -> bool {
    &&& path.len() >= 2
    &&& is_separator(Platform::Windows, false, path[0])
    &&& is_separator(Platform::Windows, false, path[1])
}

/// Whether a path begins with `\\?\`, in which no slash stands for a backslash.
pub open spec fn begins_verbatim(path: Seq<char>) -> bool {
    path.len() >= 4 && path[0] == '\\' && path[1] == '\\' && path[2] == '?' && path[3] == '\\'
}

/// Whether a letter and a colon stand at `start`.
pub open spec fn is_drive_at(path: Seq<char>, start: int) -> bool {
    path.len() >= start + 2 && 'a' <= lower(path[start]) <= 'z' && path[start + 1] == ':'
}

/// The piece of a path that begins at `start`.
pub open spec fn piece_at(verbatim: bool, path: Seq<char>, start: int) -> Seq<char> {
    if start > path.len() {
        Seq::empty()
    } else {
        path.subrange(start, piece_end(Platform::Windows, verbatim, path, start))
    }
}

/// The two pieces of a path from `start` on.
pub open spec fn two_pieces(verbatim: bool, path: Seq<char>, start: int) -> (Seq<char>, Seq<char>) {
    (
        piece_at(verbatim, path, start),
        piece_at(verbatim, path, piece_end(Platform::Windows, verbatim, path, start) + 1),
    )
}

/// The prefix behind `\\?\`.
pub open spec fn verbatim_prefix(path: Seq<char>) -> PrefixView {
    if path.len() >= 8 && path[4] == 'U' && path[5] == 'N' && path[6] == 'C' && is_separator(
        Platform::Windows,
        false,
        path[7],
    ) {
        let (server, share) = two_pieces(true, path, 8);
        PrefixView::VerbatimShare(server, share)
    } else if is_drive_at(path, 4) && (path.len() == 6 || is_separator(
        Platform::Windows,
        false,
        path[6],
    )) {
        PrefixView::VerbatimDrive(lower(path[4]))
    } else {
        PrefixView::Verbatim(piece_at(true, path, 4))
    }
}

/// The prefix of a path, if it has one. Only Windows has prefixes.
pub open spec fn prefix_of(platform: Platform, path: Seq<char>) -> Option<PrefixView> {
    if platform == Platform::Unix {
        None
    } else if begins_verbatim(path) {
        Some(verbatim_prefix(path))
    } else if begins_with_two(path) && path.len() >= 4 && path[2] == '.' && is_separator(
        platform,
        false,
        path[3],
    ) {
        Some(PrefixView::Device(piece_at(false, path, 4)))
    } else if begins_with_two(path) {
        let (server, share) = two_pieces(false, path, 2);
        if server.len() > 0 && share.len() > 0 {
            Some(PrefixView::Share(server, share))
        } else {
            None
        }
    } else if is_drive_at(path, 0) {
        Some(PrefixView::Drive(lower(path[0])))
    } else {
        None
    }
}

/// How many characters a server and a share take up.
pub open spec fn share_len(server: Seq<char>, share: Seq<char>) -> nat {
    if share.len() > 0 {
        server.len() + 1 + share.len()
    } else {
        server.len()
    }
}

/// How many characters a prefix takes up.
pub open spec fn prefix_len(prefix: PrefixView) -> nat {
    match prefix {
        PrefixView::Verbatim(name) => 4 + name.len(),
        PrefixView::VerbatimShare(server, share) => 8 + share_len(server, share),
        PrefixView::VerbatimDrive(_) => 6,
        PrefixView::Device(name) => 4 + name.len(),
        PrefixView::Share(server, share) => 2 + share_len(server, share),
        PrefixView::Drive(_) => 2,
    }
}

/// Where the prefix of a path ends.
pub open spec fn prefix_end(platform: Platform, path: Seq<char>) -> int {
    match prefix_of(platform, path) {
        Some(prefix) => prefix_len(prefix) as int,
        None => 0,
    }
}

/// Whether a prefix is verbatim.
pub open spec fn is_verbatim_prefix(prefix: PrefixView) -> bool {
    prefix is Verbatim || prefix is VerbatimShare || prefix is VerbatimDrive
}

/// Whether a path has a verbatim prefix.
pub open spec fn is_verbatim(platform: Platform, path: Seq<char>) -> bool {
    prefix_of(platform, path) matches Some(prefix) && is_verbatim_prefix(prefix)
}

/// What is known of two pieces of a path.
pub proof fn lemma_two_pieces(verbatim: bool, path: Seq<char>, start: int)
    requires
        0 <= start <= path.len(),
    ensures
        ({
            let (server, share) = two_pieces(verbatim, path, start);
            let end = start + share_len(server, share);
            &&& 0 <= end <= path.len()
            &&& share.len() > 0 ==> (end < path.len() ==> is_separator(
                Platform::Windows,
                verbatim,
                path[end],
            ))
        }),
{
    lemma_piece_end(Platform::Windows, verbatim, path, start);
    let next = piece_end(Platform::Windows, verbatim, path, start) + 1;
    if next <= path.len() {
        lemma_piece_end(Platform::Windows, verbatim, path, next);
    }
}

/// A prefix lies in its path.
pub proof fn lemma_prefix_end(platform: Platform, path: Seq<char>)
    ensures
        0 <= prefix_end(platform, path) <= path.len(),
        prefix_of(platform, path) is Some ==> prefix_end(platform, path) >= 2,
{
    if platform == Platform::Windows {
        if begins_verbatim(path) {
            lemma_piece_end(platform, true, path, 4);
            if path.len() >= 8 {
                lemma_two_pieces(true, path, 8);
            }
        } else if begins_with_two(path) {
            lemma_two_pieces(false, path, 2);
            if path.len() >= 4 {
                lemma_piece_end(platform, false, path, 4);
            }
        }
    }
}

/// The characters of a path from `start` to `end`.
fn part(chars: &Vec<char>, start: usize, end: usize) -> (piece: Vec<char>)
    requires
        start <= end <= chars@.len(),
    ensures
        piece@ == chars@.subrange(start as int, end as int),
{
    chars_of(text_between(chars, start, end).as_str())
}

/// Finds two pieces of a path.
fn find_two_pieces(verbatim: bool, chars: &Vec<char>, start: usize) -> (pieces: (
    Vec<char>,
    Vec<char>,
))
    requires
        start <= chars@.len(),
    ensures
        (pieces.0@, pieces.1@) == two_pieces(verbatim, chars@, start as int),
{
    let end: usize = find_piece_end(Platform::Windows, verbatim, chars, start);
    let first = part(chars, start, end);
    if end < chars.len() {
        let last: usize = find_piece_end(Platform::Windows, verbatim, chars, end + 1);
        (first, part(chars, end + 1, last))
    } else {
        let none: Vec<char> = Vec::new();
        assert(none@ =~= Seq::<char>::empty());
        (first, none)
    }
}

/// Decides `is_drive_at`.
fn has_drive_at(chars: &Vec<char>, start: usize) -> (answer: bool)
    requires
        start <= 4,
    ensures
        answer == is_drive_at(chars@, start as int),
{
    if chars.len() < start + 2 {
        return false;
    }
    let letter = lower_char(chars[start]);
    'a' <= letter && letter <= 'z' && chars[start + 1] == ':'
}

/// Finds the prefix behind `\\?\`.
fn find_verbatim_prefix(chars: &Vec<char>) -> (prefix: Prefix)
    requires
        begins_verbatim(chars@),
    ensures
        prefix@ == verbatim_prefix(chars@),
{
    let windows = Platform::Windows;
    if chars.len() >= 8 && chars[4] == 'U' && chars[5] == 'N' && chars[6] == 'C'
        && parts_components(windows, false, chars[7]) {
        let (server, share) = find_two_pieces(true, chars, 8);
        Prefix::VerbatimShare(server, share)
    } else if has_drive_at(chars, 4) && (chars.len() == 6 || parts_components(
        windows,
        false,
        chars[6],
    )) {
        Prefix::VerbatimDrive(lower_char(chars[4]))
    } else {
        let end: usize = find_piece_end(windows, true, chars, 4);
        Prefix::Verbatim(part(chars, 4, end))
    }
}

/// Finds the prefix of a path.
pub fn find_prefix(platform: Platform, chars: &Vec<char>) -> (prefix: Option<Prefix>)
    ensures
        match prefix {
            Some(prefix) => prefix_of(platform, chars@) == Some(prefix@),
            None => prefix_of(platform, chars@) is None,
        },
{
    if platform == Platform::Unix {
        return None;
    }
    let begins_with_two = chars.len() >= 2 && parts_components(platform, false, chars[0])
        && parts_components(platform, false, chars[1]);
    if chars.len() >= 4 && chars[0] == '\\' && chars[1] == '\\' && chars[2] == '?' && chars[3]
        == '\\' {
        Some(find_verbatim_prefix(chars))
    } else if begins_with_two && chars.len() >= 4 && chars[2] == '.' && parts_components(
        platform,
        false,
        chars[3],
    ) {
        let end: usize = find_piece_end(platform, false, chars, 4);
        Some(Prefix::Device(part(chars, 4, end)))
    } else if begins_with_two {
        let (server, share) = find_two_pieces(false, chars, 2);
        if server.len() > 0 && share.len() > 0 {
            Some(Prefix::Share(server, share))
        } else {
            None
        }
    } else if has_drive_at(chars, 0) {
        Some(Prefix::Drive(lower_char(chars[0])))
    } else {
        None
    }
}

/// Counts the characters that a server and a share take up.
fn count_share(server: &Vec<char>, share: &Vec<char>, room: usize) -> (count: usize)
    requires
        share_len(server@, share@) <= room,
    ensures
        count == share_len(server@, share@),
{
    if share.len() > 0 {
        server.len() + 1 + share.len()
    } else {
        server.len()
    }
}

/// Finds where the prefix of a path ends.
pub fn find_prefix_end(platform: Platform, chars: &Vec<char>) -> (end: usize)
    ensures
        end == prefix_end(platform, chars@),
{
    proof {
        lemma_prefix_end(platform, chars@);
    }
    let room: usize = chars.len();
    match find_prefix(platform, chars) {
        None => 0,
        Some(prefix) => match prefix {
            Prefix::Verbatim(name) => 4 + name.len(),
            Prefix::VerbatimShare(server, share) => 8 + count_share(&server, &share, room),
            Prefix::VerbatimDrive(_) => 6,
            Prefix::Device(name) => 4 + name.len(),
            Prefix::Share(server, share) => 2 + count_share(&server, &share, room),
            Prefix::Drive(_) => 2,
        },
    }
}

/// Decides `is_verbatim`.
pub fn has_verbatim_prefix(platform: Platform, chars: &Vec<char>) -> (answer: bool)
    ensures
        answer == is_verbatim(platform, chars@),
{
    match find_prefix(platform, chars) {
        Some(Prefix::Verbatim(_)) => true,
        Some(Prefix::VerbatimShare(_, _)) => true,
        Some(Prefix::VerbatimDrive(_)) => true,
        _ => false,
    }
}

/// Decides whether two prefixes are the same.
pub fn is_same_prefix(left: &Prefix, right: &Prefix) -> (answer: bool)
    ensures
        answer == (left@ == right@),
{
    match (left, right) {
        (Prefix::Verbatim(left), Prefix::Verbatim(right)) => same_chars(left, right),
        (Prefix::VerbatimShare(server, share), Prefix::VerbatimShare(other, second)) => same_chars(
            server,
            other,
        ) && same_chars(share, second),
        (Prefix::VerbatimDrive(left), Prefix::VerbatimDrive(right)) => *left == *right,
        (Prefix::Device(left), Prefix::Device(right)) => same_chars(left, right),
        (Prefix::Share(server, share), Prefix::Share(other, second)) => same_chars(server, other)
            && same_chars(share, second),
        (Prefix::Drive(left), Prefix::Drive(right)) => *left == *right,
        _ => false,
    }
}

/// Where a kind of prefix stands among the others.
pub open spec fn prefix_rank(prefix: PrefixView) -> int {
    match prefix {
        PrefixView::Verbatim(_) => 0,
        PrefixView::VerbatimShare(_, _) => 1,
        PrefixView::VerbatimDrive(_) => 2,
        PrefixView::Device(_) => 3,
        PrefixView::Share(_, _) => 4,
        PrefixView::Drive(_) => 5,
    }
}

/// What prefixes of one kind are ordered by: first the one text, then the other.
pub open spec fn prefix_texts(prefix: PrefixView) -> (Seq<char>, Seq<char>) {
    match prefix {
        PrefixView::Verbatim(name) => (name, Seq::empty()),
        PrefixView::VerbatimShare(server, share) => (server, share),
        PrefixView::VerbatimDrive(letter) => (seq![letter], Seq::empty()),
        PrefixView::Device(name) => (name, Seq::empty()),
        PrefixView::Share(server, share) => (server, share),
        PrefixView::Drive(letter) => (seq![letter], Seq::empty()),
    }
}

/// Whether one prefix may stand before another: by its kind, and then by its texts.
pub open spec fn prefix_at_most(left: PrefixView, right: PrefixView) -> bool {
    if prefix_rank(left) != prefix_rank(right) {
        prefix_rank(left) < prefix_rank(right)
    } else if prefix_texts(left).0 != prefix_texts(right).0 {
        text_at_most(prefix_texts(left).0, prefix_texts(right).0)
    } else {
        text_at_most(prefix_texts(left).1, prefix_texts(right).1)
    }
}

/// Any two prefixes can be compared.
pub proof fn lemma_prefix_total(left: PrefixView, right: PrefixView)
    ensures
        prefix_at_most(left, right) || prefix_at_most(right, left),
{
    lemma_text_total(prefix_texts(left).0, prefix_texts(right).0);
    lemma_text_total(prefix_texts(left).1, prefix_texts(right).1);
}

/// Different prefixes stand in one order only.
pub proof fn lemma_prefix_antisymmetric(left: PrefixView, right: PrefixView)
    requires
        prefix_at_most(left, right),
        prefix_at_most(right, left),
    ensures
        left == right,
{
    let (first, second) = prefix_texts(left);
    let (other_first, other_second) = prefix_texts(right);
    if first != other_first {
        lemma_text_antisymmetric(first, other_first);
    }
    lemma_text_antisymmetric(second, other_second);
    assert(first.len() > 0 ==> first[0] == other_first[0]);
}

/// The order of prefixes chains.
pub proof fn lemma_prefix_transitive(left: PrefixView, middle: PrefixView, right: PrefixView)
    requires
        prefix_at_most(left, middle),
        prefix_at_most(middle, right),
    ensures
        prefix_at_most(left, right),
{
    let (first, second) = prefix_texts(left);
    let (middle_first, middle_second) = prefix_texts(middle);
    let (last_first, last_second) = prefix_texts(right);
    if prefix_rank(left) == prefix_rank(middle) && prefix_rank(middle) == prefix_rank(right) {
        if first == middle_first && middle_first == last_first {
            lemma_text_transitive(second, middle_second, last_second);
        } else if first != middle_first && middle_first != last_first {
            lemma_text_transitive(first, middle_first, last_first);
            if first == last_first {
                lemma_text_antisymmetric(first, middle_first);
            }
        }
    }
}

/// The texts that a prefix is ordered by.
fn texts_of(prefix: &Prefix) -> (texts: (Vec<char>, Vec<char>))
    ensures
        (texts.0@, texts.1@) == prefix_texts(prefix@),
{
    let none: Vec<char> = Vec::new();
    assert(none@ =~= Seq::<char>::empty());
    match prefix {
        Prefix::Verbatim(name) => (part(name, 0, name.len()), none),
        Prefix::VerbatimShare(server, share) => (
            part(server, 0, server.len()),
            part(share, 0, share.len()),
        ),
        Prefix::Device(name) => (part(name, 0, name.len()), none),
        Prefix::Share(server, share) => (part(server, 0, server.len()), part(share, 0, share.len())),
        Prefix::VerbatimDrive(letter) => {
            let text: Vec<char> = vec![*letter];
            assert(text@ =~= seq![*letter]);
            (text, none)
        },
        Prefix::Drive(letter) => {
            let text: Vec<char> = vec![*letter];
            assert(text@ =~= seq![*letter]);
            (text, none)
        },
    }
}

/// The rank of a prefix.
fn rank_of(prefix: &Prefix) -> (rank: u8)
    ensures
        rank == prefix_rank(prefix@),
{
    match prefix {
        Prefix::Verbatim(_) => 0,
        Prefix::VerbatimShare(_, _) => 1,
        Prefix::VerbatimDrive(_) => 2,
        Prefix::Device(_) => 3,
        Prefix::Share(_, _) => 4,
        Prefix::Drive(_) => 5,
    }
}

/// Decides `prefix_at_most`.
pub fn is_prefix_at_most(left: &Prefix, right: &Prefix) -> (answer: bool)
    ensures
        answer == prefix_at_most(left@, right@),
{
    let left_rank: u8 = rank_of(left);
    let right_rank: u8 = rank_of(right);
    if left_rank != right_rank {
        return left_rank < right_rank;
    }
    let (first, second) = texts_of(left);
    let (other_first, other_second) = texts_of(right);
    if !same_chars(&first, &other_first) {
        is_text_at_most(&first, &other_first)
    } else {
        is_text_at_most(&second, &other_second)
    }
}

/// On Unix no path has a prefix. On Windows one that does not begin with two separators has one
/// exactly where it begins with a letter and a colon: the drive of that letter.
pub proof fn law_drives_are_prefixes(path: Seq<char>)
    ensures
        prefix_of(Platform::Unix, path) is None,
        ({
            let is_two = path.len() >= 2 && (path[0] == '/' || path[0] == '\\') && (path[1] == '/'
                || path[1] == '\\');
            let is_drive = path.len() >= 2 && ('a' <= path[0] <= 'z' || 'A' <= path[0] <= 'Z')
                && path[1] == ':';
            &&& !is_two && !is_drive ==> prefix_of(Platform::Windows, path) is None
            &&& is_drive ==> prefix_of(Platform::Windows, path) == Some(
                PrefixView::Drive(
                    if 'A' <= path[0] <= 'Z' {
                        ((path[0] as u32) + 32) as char
                    } else {
                        path[0]
                    },
                ),
            )
        }),
{
}

/// Two separators, a server, a separator and a share are a prefix, with whatever stands behind one
/// more separator.
pub proof fn law_shares_are_prefixes(server: Seq<char>, share: Seq<char>, rest: Seq<char>)
    requires
        server.len() > 0,
        share.len() > 0,
        server != seq!['?'],
        server != seq!['.'],
        forall|at: int|
            0 <= at < server.len() ==> #[trigger] server[at] != '/' && server[at] != '\\',
        forall|at: int| 0 <= at < share.len() ==> #[trigger] share[at] != '/' && share[at] != '\\',
        rest.len() > 0 ==> rest[0] == '/' || rest[0] == '\\',
    ensures
        prefix_of(
            Platform::Windows,
            seq!['\\', '\\'] + server + seq!['\\'] + share + rest,
        ) == Some(PrefixView::Share(server, share)),
{
    let windows = Platform::Windows;
    let path = seq!['\\', '\\'] + server + seq!['\\'] + share + rest;
    let end = 2 + server.len() as int;
    let last = end + 1 + share.len();
    assert forall|at: int| 2 <= at < end implies !is_separator(
        windows,
        false,
        #[trigger] path[at],
    ) by {
        assert(path[at] == server[at - 2]);
    }
    assert(path[end] == '\\');
    lemma_piece_ends_at(windows, false, path, 2, end);
    assert forall|at: int| end + 1 <= at < last implies !is_separator(
        windows,
        false,
        #[trigger] path[at],
    ) by {
        assert(path[at] == share[at - end - 1]);
    }
    if rest.len() > 0 {
        assert(path[last] == rest[0]);
    }
    lemma_piece_ends_at(windows, false, path, end + 1, last);
    assert(path.subrange(2, end) =~= server);
    assert(path.subrange(end + 1, last) =~= share);
    if server.len() == 1 {
        assert(path[2] == server[0]);
        assert(server[0] != '?') by {
            if server[0] == '?' {
                assert(server =~= seq!['?']);
            }
        }
        assert(server[0] != '.') by {
            if server[0] == '.' {
                assert(server =~= seq!['.']);
            }
        }
    } else {
        assert(path[3] == server[1]);
    }
}

/// Behind `\\?\`, a letter and a colon are a verbatim drive, where nothing or a separator
/// follows.
pub proof fn law_verbatim_drives_are_prefixes(letter: char, rest: Seq<char>)
    requires
        'a' <= letter <= 'z' || 'A' <= letter <= 'Z',
        rest.len() > 0 ==> rest[0] == '/' || rest[0] == '\\',
    ensures
        prefix_of(
            Platform::Windows,
            seq!['\\', '\\', '?', '\\', letter, ':'] + rest,
        ) == Some(
            PrefixView::VerbatimDrive(
                if 'A' <= letter <= 'Z' {
                    ((letter as u32) + 32) as char
                } else {
                    letter
                },
            ),
        ),
{
    let path = seq!['\\', '\\', '?', '\\', letter, ':'] + rest;
    assert(path[0] == '\\' && path[1] == '\\' && path[2] == '?' && path[3] == '\\');
    assert(path[4] == letter && path[5] == ':');
    if rest.len() > 0 {
        assert(path[6] == rest[0]);
    }
}

/// Behind `\\.\`, everything up to the next separator names a device.
pub proof fn law_devices_are_prefixes(name: Seq<char>, rest: Seq<char>)
    requires
        forall|at: int| 0 <= at < name.len() ==> #[trigger] name[at] != '/' && name[at] != '\\',
        rest.len() > 0 ==> rest[0] == '/' || rest[0] == '\\',
    ensures
        prefix_of(Platform::Windows, seq!['\\', '\\', '.', '\\'] + name + rest) == Some(
            PrefixView::Device(name),
        ),
{
    let windows = Platform::Windows;
    let path = seq!['\\', '\\', '.', '\\'] + name + rest;
    let end = 4 + name.len() as int;
    assert(path[0] == '\\' && path[1] == '\\' && path[2] == '.' && path[3] == '\\');
    assert forall|at: int| 4 <= at < end implies !is_separator(
        windows,
        false,
        #[trigger] path[at],
    ) by {
        assert(path[at] == name[at - 4]);
    }
    if rest.len() > 0 {
        assert(path[end] == rest[0]);
    }
    lemma_piece_ends_at(windows, false, path, 4, end);
    assert(path.subrange(4, end) =~= name);
}

/// A prefix ends where what it is made of ends.
pub proof fn law_prefixes_end_with_their_parts(path: Seq<char>)
    ensures
        match prefix_of(Platform::Windows, path) {
            None => prefix_end(Platform::Windows, path) == 0,
            Some(PrefixView::Drive(_)) => prefix_end(Platform::Windows, path) == 2,
            Some(PrefixView::VerbatimDrive(_)) => prefix_end(Platform::Windows, path) == 6,
            Some(PrefixView::Device(name)) => prefix_end(Platform::Windows, path) == 4 + name.len(),
            Some(PrefixView::Share(server, share)) => prefix_end(Platform::Windows, path) == 3
                + server.len() + share.len(),
            Some(PrefixView::Verbatim(name)) => prefix_end(Platform::Windows, path) == 4
                + name.len(),
            Some(PrefixView::VerbatimShare(server, share)) => prefix_end(Platform::Windows, path)
                == 8 + server.len() + if share.len() > 0 {
                1 + share.len()
            } else {
                0
            },
        },
        prefix_end(Platform::Windows, path) <= path.len(),
        prefix_end(Platform::Unix, path) == 0,
{
    lemma_prefix_end(Platform::Windows, path);
}

} // verus!
