//! The names of executables.

use vstd::prelude::*;

use crate::paths::{file_name, file_name_of};
use crate::platform::Platform;
use crate::text::{chars_of, concat, has_suffix, owned, text_between};

verus! {

/// A path whose last component is no name.
#[derive(Debug, PartialEq, Eq)]
pub struct NoFileName {
    pub path: String,
}

impl NoFileName {
    /// What the error says.
    pub open spec fn text(self) -> Seq<char> {
        self.path@ + " does not have a file name"@
    }

    /// Says which path has no name.
    pub fn message(&self) -> (message: String)
        ensures
            message@ == self.text(),
    {
        concat(self.path.as_str(), " does not have a file name")
    }
}

/// The file name of an executable: on Windows it ends in `.exe`.
pub open spec fn exe_name(platform: Platform, name: Seq<char>) -> Seq<char> {
    if platform == Platform::Windows && !".exe"@.is_suffix_of(name) {
        name + ".exe"@
    } else {
        name
    }
}

/// Gives a binary name the suffix of the platform, if it has not got it yet.
pub fn with_exe_suffix(platform: Platform, binary_name: &str) -> (name: String)
    ensures
        name@ == exe_name(platform, binary_name@),
{
    if platform == Platform::Windows && !has_suffix(binary_name, ".exe") {
        concat(binary_name, ".exe")
    } else {
        owned(binary_name)
    }
}

/// A name without the suffixes of executables at its end.
pub open spec fn bare_name(name: Seq<char>) -> Seq<char>
    decreases name.len(),
{
    if name.len() >= 4 && ".exe"@.is_suffix_of(name) {
        bare_name(name.take(name.len() - 4))
    } else {
        name
    }
}

/// The name under which an executable is shown: without suffix on Windows.
pub open spec fn shown_name(platform: Platform, name: Seq<char>) -> Seq<char> {
    match platform {
        Platform::Windows => bare_name(name),
        Platform::Unix => name,
    }
}

/// Takes the suffixes of executables off the end of a name.
fn without_exe(name: &str) -> (bare: String)
    ensures
        bare@ == bare_name(name@),
{
    let mut rest = owned(name);
    while has_suffix(rest.as_str(), ".exe")
        invariant
            bare_name(rest@) == bare_name(name@),
        decreases rest@.len(),
    {
        proof {
            reveal_strlit(".exe");
        }
        let chars = chars_of(rest.as_str());
        assert(chars@.subrange(0, chars@.len() - 4) =~= rest@.take(rest@.len() - 4));
        rest = text_between(&chars, 0, chars.len() - 4);
    }
    rest
}

/// The name under which the executable at a path is shown.
pub fn display_name(platform: Platform, binary_path: &str) -> (result: Result<String, NoFileName>)
    ensures
        match result {
            Ok(name) => file_name_of(platform, binary_path@) is Some && name@ == shown_name(
                platform,
                file_name_of(platform, binary_path@)->Some_0,
            ),
            Err(error) => file_name_of(platform, binary_path@) is None && error.path@ == binary_path@,
        },
{
    match file_name(platform, binary_path) {
        None => Err(NoFileName { path: owned(binary_path) }),
        Some(name) => match platform {
            Platform::Windows => Ok(without_exe(name.as_str())),
            Platform::Unix => Ok(name),
        },
    }
}

/// The name under which a binary is installed if no other is given: the one it is shown under.
pub fn default_name(platform: Platform, source: &str) -> (result: Result<String, NoFileName>)
    ensures
        match result {
            Ok(name) => file_name_of(platform, source@) is Some && name@ == shown_name(
                platform,
                file_name_of(platform, source@)->Some_0,
            ),
            Err(error) => file_name_of(platform, source@) is None && error.path@ == source@,
        },
{
    display_name(platform, source)
}

/// Giving a name its suffix again changes nothing.
pub proof fn law_suffix_is_given_once(platform: Platform, name: Seq<char>)
    ensures
        exe_name(platform, exe_name(platform, name)) == exe_name(platform, name),
{
    let longer = name + ".exe"@;
    assert(longer.subrange(longer.len() - ".exe"@.len(), longer.len() as int) =~= ".exe"@);
}

/// A suffix that was given does not show.
pub proof fn law_suffix_does_not_show(platform: Platform, name: Seq<char>)
    ensures
        shown_name(platform, exe_name(platform, name)) == shown_name(platform, name),
{
    reveal_strlit(".exe");
    let longer = name + ".exe"@;
    assert(longer.subrange(longer.len() - 4, longer.len() as int) =~= ".exe"@);
    assert(longer.take(longer.len() - 4) =~= name);
}

/// Whether a name ends in `.exe`.
pub open spec fn has_exe_suffix(name: Seq<char>) -> bool {
    name.len() >= 4 && name.skip(name.len() - 4) == seq!['.', 'e', 'x', 'e']
}

proof fn lemma_exe_suffix(name: Seq<char>)
    ensures
        has_exe_suffix(name) <==> ".exe"@.is_suffix_of(name),
{
    reveal_strlit(".exe");
    assert(".exe"@ =~= seq!['.', 'e', 'x', 'e']);
    if name.len() >= 4 {
        assert(name.skip(name.len() - 4) =~= name.subrange(name.len() - 4, name.len() as int));
    }
}

/// On Windows a binary ends in `.exe`, which is added where it is missing; elsewhere it has its
/// name.
pub proof fn law_binaries_have_their_suffix(platform: Platform, name: Seq<char>)
    ensures
        platform == Platform::Unix ==> exe_name(platform, name) == name,
        platform == Platform::Windows ==> has_exe_suffix(exe_name(platform, name)),
        has_exe_suffix(name) ==> exe_name(platform, name) == name,
        platform == Platform::Windows && !has_exe_suffix(name) ==> exe_name(platform, name) == name
            + seq!['.', 'e', 'x', 'e'],
{
    reveal_strlit(".exe");
    assert(".exe"@ =~= seq!['.', 'e', 'x', 'e']);
    lemma_exe_suffix(name);
    let longer = name + ".exe"@;
    lemma_exe_suffix(longer);
    assert(longer.subrange(longer.len() - 4, longer.len() as int) =~= ".exe"@);
}

/// On Windows a binary is shown without `.exe`, however often it ends in that; nothing else is
/// taken off. Elsewhere it is shown by its name.
pub proof fn law_shown_names_have_no_suffix(platform: Platform, name: Seq<char>)
    ensures
        platform == Platform::Unix ==> shown_name(platform, name) == name,
        platform == Platform::Windows ==> !has_exe_suffix(shown_name(platform, name)),
        !has_exe_suffix(name) ==> shown_name(platform, name) == name,
        platform == Platform::Windows ==> shown_name(platform, name + seq!['.', 'e', 'x', 'e'])
            == shown_name(platform, name),
        shown_name(platform, name).is_prefix_of(name),
{
    reveal_strlit(".exe");
    assert(".exe"@ =~= seq!['.', 'e', 'x', 'e']);
    lemma_exe_suffix(name);
    lemma_bare_name(name);
    let longer = name + ".exe"@;
    assert(longer.subrange(longer.len() - 4, longer.len() as int) =~= ".exe"@);
    assert(longer.take(longer.len() - 4) =~= name);
    assert(name =~= name.subrange(0, name.len() as int));
}

proof fn lemma_bare_name(name: Seq<char>)
    ensures
        !has_exe_suffix(bare_name(name)),
        bare_name(name).is_prefix_of(name),
    decreases name.len(),
{
    reveal_strlit(".exe");
    lemma_exe_suffix(name);
    if name.len() >= 4 && ".exe"@.is_suffix_of(name) {
        let shorter = name.take(name.len() - 4);
        lemma_bare_name(shorter);
        let bare = bare_name(shorter);
        assert(bare == shorter.subrange(0, bare.len() as int));
        assert(bare =~= name.subrange(0, bare.len() as int));
    } else {
        assert(name =~= name.subrange(0, name.len() as int));
    }
}

} // verus!
