//! Package versions, and how they are rewritten before an upload.

use vstd::prelude::*;

use crate::dates::{is_date_text_of, is_in_calendar, utc_date};
use crate::digits::{
    law_padded_numeral_is_read_back, lemma_padded_numeral_length, number_in, numeral, numeral_of,
    pad_left, padded_left,
};
use crate::text::{chars_of, concat, first_place, head_before, lemma_first_place_holds, split_first};

verus! {

/// How wide the token at the end of a generated suffix is.
pub const DEFAULT_SUFFIX_TOKEN_WIDTH: usize = 8;

/// How the version of every package is to be rewritten.
#[derive(Debug, PartialEq, Eq)]
pub enum VersionRewrite {
    /// Every package gets this version.
    Exact(String),
    /// Every package gets this suffix, behind the given prefix or behind its own.
    Suffix { prefix_version: Option<String>, suffix: String },
}

impl Clone for VersionRewrite {
    fn clone(&self) -> (copy: Self)
        ensures
            copy == *self,
    {
        match self {
            VersionRewrite::Exact(version) => VersionRewrite::Exact(version.clone()),
            VersionRewrite::Suffix { prefix_version, suffix } => VersionRewrite::Suffix {
                prefix_version: copy_of(prefix_version),
                suffix: suffix.clone(),
            },
        }
    }
}

/// A copy of a text that may be missing.
pub fn copy_of(text: &Option<String>) -> (copy: Option<String>)
    ensures
        copy == *text,
{
    match text {
        Some(text) => Some(text.clone()),
        None => None,
    }
}

/// A version up to its pre-release and build parts: what comes before the first `+`, and of that
/// what comes before the first `-`.
pub open spec fn prefix_of(version: Seq<char>) -> Seq<char> {
    head_before(head_before(version, '+'), '-')
}

/// The version that a package with the version `current` gets.
pub open spec fn rewritten_version(current: Seq<char>, rewrite: VersionRewrite) -> Seq<char> {
    match rewrite {
        VersionRewrite::Exact(version) => version@,
        VersionRewrite::Suffix { prefix_version: Some(prefix), suffix } => prefix@ + "-"@
            + suffix@,
        VersionRewrite::Suffix { prefix_version: None, suffix } => prefix_of(current) + "-"@
            + suffix@,
    }
}

/// A version without its pre-release and build parts.
pub fn version_prefix(version: &str) -> (prefix: String)
    ensures
        prefix@ == prefix_of(version@),
{
    let without_build = split_first(&chars_of(version), '+').0;
    split_first(&chars_of(without_build.as_str()), '-').0
}

/// The version that a package gets in place of its own.
pub fn resolve_package_version(current_version: &str, version_rewrite: &VersionRewrite) -> (version:
    String)
    ensures
        version@ == rewritten_version(current_version@, *version_rewrite),
{
    match version_rewrite {
        VersionRewrite::Exact(version) => version.clone(),
        VersionRewrite::Suffix { prefix_version, suffix } => {
            let mut version = match prefix_version {
                Some(prefix) => prefix.clone(),
                None => version_prefix(current_version),
            };
            version.append("-");
            version.append(suffix.as_str());
            version
        },
    }
}

/// The lowest 32 bits of a time stamp, mixed with a process id.
pub open spec fn token_value(unix_timestamp_nanos: int, process_id: u32) -> u32 {
    ((unix_timestamp_nanos % 0x1_0000_0000) as u32) ^ process_id
}

/// The token for a time stamp and a process id: eight hexadecimal digits.
pub open spec fn suffix_token(unix_timestamp_nanos: int, process_id: u32) -> Seq<char> {
    padded_left(
        numeral(token_value(unix_timestamp_nanos, process_id) as nat, 16),
        DEFAULT_SUFFIX_TOKEN_WIDTH as nat,
        '0',
    )
}

/// The lowest 32 bits of a number in two's complement.
fn low_bits(value: i128) -> (bits: u32)
    ensures
        bits == value as int % 0x1_0000_0000,
{
    if value >= 0 {
        (value % 0x1_0000_0000) as u32
    } else {
        let mirrored: i128 = -(value + 1);
        let rest: i128 = mirrored % 0x1_0000_0000;
        (0xffff_ffff - rest) as u32
    }
}

/// A token that tells uploads apart: eight hexadecimal digits made of a time stamp and a process
/// id.
pub fn default_suffix_token(unix_timestamp_nanos: i128, process_id: u32) -> (token: String)
    ensures
        token@ == suffix_token(unix_timestamp_nanos as int, process_id),
        token@.len() == DEFAULT_SUFFIX_TOKEN_WIDTH,
{
    let mixed: u32 = low_bits(unix_timestamp_nanos) ^ process_id;
    proof {
        reveal_with_fuel(vstd::arithmetic::power::pow, 9);
        lemma_padded_numeral_length(mixed as nat, 16, 8);
    }
    pad_left(numeral_of(mixed as u64, 16).as_str(), DEFAULT_SUFFIX_TOKEN_WIDTH, '0')
}

/// Whether `suffix` is the generated suffix for a moment and a process: `pre`, the date in UTC and
/// the token, with dots between them.
pub open spec fn is_default_suffix(
    suffix: Seq<char>,
    unix_timestamp_nanos: int,
    process_id: u32,
) -> bool {
    exists|date: Seq<char>| #[trigger]
        is_date_text_of(date, unix_timestamp_nanos) && suffix == "pre."@ + date + "."@
            + suffix_token(unix_timestamp_nanos, process_id)
}

/// The suffix that is generated where none is given. There is one for every moment of the years
/// from -9999 to 9999.
pub fn default_version_suffix(unix_timestamp_nanos: i128, process_id: u32) -> (suffix: Option<
    String,
>)
    ensures
        match suffix {
            Some(suffix) => is_in_calendar(unix_timestamp_nanos as int) && is_default_suffix(
                suffix@,
                unix_timestamp_nanos as int,
                process_id,
            ),
            None => !is_in_calendar(unix_timestamp_nanos as int),
        },
{
    match utc_date(unix_timestamp_nanos) {
        Some(date) => {
            let mut suffix = concat("pre.", date.as_str());
            suffix.append(".");
            suffix.append(default_suffix_token(unix_timestamp_nanos, process_id).as_str());
            Some(suffix)
        },
        None => None,
    }
}

/// A prefix holds neither of the two signs that end it.
pub proof fn law_prefix_has_no_suffix(version: Seq<char>)
    ensures
        !prefix_of(version).contains('+'),
        !prefix_of(version).contains('-'),
        prefix_of(prefix_of(version)) == prefix_of(version),
        prefix_of(version).is_prefix_of(version),
{
    let head = head_before(version, '+');
    let prefix = prefix_of(version);
    lemma_first_place_holds(version, '+');
    lemma_first_place_holds(head, '-');
    assert forall|at: int| 0 <= at < prefix.len() implies prefix[at] != '+' && prefix[at]
        != '-' by {
        assert(prefix[at] == head[at] && head[at] == version[at]);
    }
    lemma_first_place_holds(prefix, '+');
    assert(head_before(prefix, '+') =~= prefix);
    lemma_first_place_holds(prefix, '-');
    assert(head_before(prefix, '-') =~= prefix);
    assert(version.subrange(0, prefix.len() as int) =~= prefix);
}

/// A prefix of a version is kept under any suffix that is put behind it.
pub proof fn law_prefix_survives_a_suffix(version: Seq<char>, suffix: Seq<char>)
    ensures
        prefix_of(prefix_of(version) + "-"@ + suffix) == prefix_of(version),
{
    let prefix = prefix_of(version);
    let longer = prefix + "-"@ + suffix;
    law_prefix_has_no_suffix(version);
    reveal_strlit("-");
    assert(longer[prefix.len() as int] == '-');
    let head = head_before(longer, '+');
    lemma_first_place_holds(longer, '+');
    assert(first_place(longer, '+') > prefix.len()) by {
        if first_place(longer, '+') <= prefix.len() {
            let place = first_place(longer, '+');
            if place < prefix.len() {
                assert(longer[place] == prefix[place]);
                assert(prefix.contains(prefix[place]));
            }
        }
    }
    assert forall|at: int| 0 <= at < prefix.len() implies head[at] != '-' by {
        assert(head[at] == prefix[at]);
        assert(prefix.contains(prefix[at]));
    }
    assert(head[prefix.len() as int] == '-');
    crate::text::lemma_first_place(head, '-', prefix.len() as int);
    assert(head_before(head, '-') =~= prefix);
}

/// Rewriting a version a second time changes nothing.
pub proof fn law_rewriting_again_changes_nothing(current: Seq<char>, rewrite: VersionRewrite)
    ensures
        rewritten_version(rewritten_version(current, rewrite), rewrite) == rewritten_version(
            current,
            rewrite,
        ),
{
    if let VersionRewrite::Suffix { prefix_version: None, suffix } = rewrite {
        law_prefix_survives_a_suffix(current, suffix@);
    }
}

/// The prefix of a version is its longest part without a sign: it is the whole version, or one of
/// the two signs comes right behind it.
pub proof fn law_prefix_ends_at_the_first_sign(version: Seq<char>)
    ensures
        prefix_of(version) == version.take(prefix_of(version).len() as int),
        prefix_of(version).len() <= version.len(),
        forall|at: int|
            0 <= at < prefix_of(version).len() ==> #[trigger] version[at] != '+' && version[at]
                != '-',
        prefix_of(version).len() < version.len() ==> version[prefix_of(version).len() as int] == '+'
            || version[prefix_of(version).len() as int] == '-',
{
    let head = head_before(version, '+');
    let prefix = prefix_of(version);
    law_prefix_has_no_suffix(version);
    lemma_first_place_holds(version, '+');
    lemma_first_place_holds(head, '-');
    assert(prefix =~= version.take(prefix.len() as int));
    assert forall|at: int| 0 <= at < prefix.len() implies #[trigger] version[at] != '+'
        && version[at] != '-' by {
        assert(prefix[at] == version[at]);
        assert(prefix.contains(prefix[at]));
    }
    if prefix.len() < head.len() {
        assert(head[prefix.len() as int] == version[prefix.len() as int]);
    }
}

/// A rewritten version is the one that was given, or a prefix, a hyphen and the suffix. The prefix
/// is the one that was given, or all of the package's own version up to its first sign.
pub proof fn law_rewritten_version_is_made_up(current: Seq<char>, rewrite: VersionRewrite)
    ensures
        match rewrite {
            VersionRewrite::Exact(version) => rewritten_version(current, rewrite) == version@,
            VersionRewrite::Suffix { prefix_version: Some(prefix), suffix } => rewritten_version(
                current,
                rewrite,
            ) == prefix@ + seq!['-'] + suffix@,
            VersionRewrite::Suffix { prefix_version: None, suffix } => exists|end: int| {
                &&& 0 <= end <= current.len()
                &&& rewritten_version(current, rewrite) == #[trigger] current.take(end) + seq!['-']
                    + suffix@
                &&& !current.take(end).contains('+') && !current.take(end).contains('-')
                &&& end < current.len() ==> current[end] == '+' || current[end] == '-'
            },
        },
{
    reveal_strlit("-");
    assert("-"@ =~= seq!['-']);
    if let VersionRewrite::Suffix { prefix_version: None, suffix } = rewrite {
        law_prefix_ends_at_the_first_sign(current);
        law_prefix_has_no_suffix(current);
        let end = prefix_of(current).len() as int;
        assert(rewritten_version(current, rewrite) == current.take(end) + seq!['-'] + suffix@);
    }
}

/// A generated suffix is `pre`, the date and a token with dots between them. The token is eight
/// digits in base sixteen: the lowest 32 bits of the time stamp, mixed with the process id.
pub proof fn law_generated_suffix_is_made_up(
    suffix: Seq<char>,
    unix_timestamp_nanos: int,
    process_id: u32,
)
    requires
        is_default_suffix(suffix, unix_timestamp_nanos, process_id),
    ensures
        suffix.len() >= 13,
        suffix.take(4) == seq!['p', 'r', 'e', '.'],
        suffix[suffix.len() - 9] == '.',
        is_date_text_of(suffix.subrange(4, suffix.len() - 9), unix_timestamp_nanos),
        number_in(suffix.skip(suffix.len() - 8), 16) == ((unix_timestamp_nanos
            % 0x1_0000_0000) as u32) ^ process_id,
{
    let date = choose|date: Seq<char>| #[trigger]
        is_date_text_of(date, unix_timestamp_nanos) && suffix == "pre."@ + date + "."@
            + suffix_token(unix_timestamp_nanos, process_id);
    let token = suffix_token(unix_timestamp_nanos, process_id);
    let value = token_value(unix_timestamp_nanos, process_id);
    reveal_strlit("pre.");
    reveal_strlit(".");
    reveal_with_fuel(vstd::arithmetic::power::pow, 9);
    lemma_padded_numeral_length(value as nat, 16, 8);
    law_padded_numeral_is_read_back(value as nat, 16, 8);
    assert(suffix.take(4) =~= seq!['p', 'r', 'e', '.']);
    assert(suffix.subrange(4, suffix.len() - 9) =~= date);
    assert(suffix.skip(suffix.len() - 8) =~= token);
}

} // verus!
