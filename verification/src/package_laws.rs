//! What every repacked package promises.

use vstd::prelude::*;
use vstd::utf8::encode_utf8;

use crate::archive::{
    all_present, can_be_closed, is_directory_name, is_plain_size, zip_entries, Compression,
    EntryView, LONGEST_DEFLATED, LONGEST_NAME,
};
use crate::manifest::{
    identity_of, is_identity_result, is_rewrite_result, rewritten_root, NuspecError,
    PackageIdentity, RewrittenNuspec,
};
use crate::manifest_laws::{
    are_plain_versions, is_simple_document, law_rewritten_manifest_names_the_new_version,
    law_simple_manifest_reads_back, lemma_settling_keeps_identity,
};
use crate::package::{
    all_copied, are_copied, copied, first_manifest, is_copied, is_entry_fault, is_identity_fault,
    is_identity_in, is_manifest, is_manifest_name, is_read_back, is_repack_result, is_repackable,
    last_manifest, package_identity, PackageError, RepackedPackage,
};
use crate::spaces::trimmed;
use crate::version::{rewritten_version, VersionRewrite};
use crate::xml_document::{is_plain_text, reads_back, xml_document, xml_text, LONGEST_DOCUMENT};

verus! {

/// The id and the version in the first manifest of a package, where they can be read.
pub open spec fn stored_identity(package_bytes: Seq<u8>) -> Option<(Seq<char>, Seq<char>)> {
    match zip_entries(package_bytes) {
        None => None,
        Some(entries) => {
            let place = first_manifest(entries);
            if place >= entries.len() || entries[place] is None
                || entries[place]->Some_0.contents is None {
                None
            } else {
                match xml_document(entries[place]->Some_0.contents->Some_0) {
                    None => None,
                    Some(root) => match identity_of(root) {
                        Ok(identity) => Some(identity),
                        Err(_) => None,
                    },
                }
            }
        },
    }
}

/// What is known of the place of the first manifest where all entries can be opened.
proof fn lemma_first_manifest(entries: Seq<Option<EntryView>>)
    requires
        forall|at: int| 0 <= at < entries.len() ==> #[trigger] entries[at] is Some,
    ensures
        0 <= first_manifest(entries) <= entries.len(),
        first_manifest(entries) < entries.len() ==> is_manifest(
            entries[first_manifest(entries)]->Some_0,
        ),
        forall|before: int|
            0 <= before < first_manifest(entries) ==> !is_manifest(
                (#[trigger] entries[before])->Some_0,
            ),
    decreases entries.len(),
{
    if entries.len() > 0 && !is_manifest(entries[0]->Some_0) {
        let rest = entries.drop_first();
        assert forall|at: int| 0 <= at < rest.len() implies #[trigger] rest[at] is Some by {
            assert(rest[at] == entries[at + 1]);
        }
        lemma_first_manifest(rest);
        let place = first_manifest(rest);
        assert forall|before: int| 0 <= before < place + 1 implies !is_manifest(
            (#[trigger] entries[before])->Some_0,
        ) by {
            if before > 0 {
                assert(rest[before - 1] == entries[before]);
            }
        }
        if place < rest.len() {
            assert(rest[place] == entries[place + 1]);
        }
    }
}

/// The first manifest is the one that has none before it.
proof fn lemma_first_manifest_is(entries: Seq<Option<EntryView>>, place: int)
    requires
        0 <= place < entries.len(),
        forall|at: int| 0 <= at < entries.len() ==> #[trigger] entries[at] is Some,
        is_manifest(entries[place]->Some_0),
        forall|before: int|
            0 <= before < place ==> !is_manifest((#[trigger] entries[before])->Some_0),
    ensures
        first_manifest(entries) == place,
{
    lemma_first_manifest(entries);
    let found = first_manifest(entries);
    if found < place {
        assert(!is_manifest(entries[found]->Some_0));
    } else if found > place {
        assert(!is_manifest(entries[place]->Some_0));
    }
}

/// What is known of the place of the last manifest.
proof fn lemma_last_manifest(entries: Seq<Option<EntryView>>, count: int)
    requires
        0 <= count <= entries.len(),
    ensures
        -1 <= last_manifest(entries, count) < count,
        last_manifest(entries, count) >= 0 ==> (entries[last_manifest(entries, count)] matches Some(
            entry,
        ) && is_manifest(entry)),
    decreases count,
{
    if count > 0 {
        lemma_last_manifest(entries, count - 1);
    }
}

/// Every manifest of a package, if it is plain and not too long once it is rewritten, is at its
/// place in the copy, with its id and the new version.
pub proof fn law_every_manifest_gets_the_new_version(
    package_bytes: Seq<u8>,
    version_rewrite: VersionRewrite,
    versions: Option<Map<Seq<char>, Seq<char>>>,
    package: RepackedPackage,
    place: int,
)
    requires
        is_repack_result(
            package_bytes,
            version_rewrite,
            versions,
            Ok::<RepackedPackage, PackageError>(package),
        ),
        ({
            let entries = zip_entries(package_bytes)->Some_0;
            let document = rewritten_root(
                entries[place]->Some_0.contents->Some_0,
                version_rewrite,
                versions,
            )->Some_0;
            &&& 0 <= place < entries.len()
            &&& is_manifest(entries[place]->Some_0)
            &&& is_plain_size(
                package.contents@,
                all_copied(entries, version_rewrite, versions),
            )
            &&& reads_back(document)
            &&& xml_text(document)->Some_0.len() < LONGEST_DOCUMENT
        }),
    ensures
        ({
            let before = zip_entries(package_bytes)->Some_0[place]->Some_0;
            let behind = zip_entries(package.contents@)->Some_0[place]->Some_0;
            let (id, version) = identity_of(xml_document(before.contents->Some_0)->Some_0)->Ok_0;
            &&& behind.name == before.name
            &&& behind.contents is Some
            &&& xml_document(behind.contents->Some_0) matches Some(root)
            &&& identity_of(root) == Ok::<(Seq<char>, Seq<char>), NuspecError>(
                (id, trimmed(rewritten_version(version, version_rewrite))),
            )
        }),
{
    let entries = zip_entries(package_bytes)->Some_0;
    let bytes = entries[place]->Some_0.contents->Some_0;
    assert(is_copied(entries, place, version_rewrite, versions));
    assert(is_read_back(entries[place], version_rewrite, versions));
    let root = xml_document(bytes)->Some_0;
    let version = identity_of(root)->Ok_0.1;
    law_rewritten_manifest_names_the_new_version(
        root,
        rewritten_version(version, version_rewrite),
        versions,
    );
    lemma_settling_keeps_identity(rewritten_root(bytes, version_rewrite, versions)->Some_0);
    let copies = all_present(all_copied(entries, version_rewrite, versions));
    assert(zip_entries(package.contents@) == Some(copies));
    assert(copies[place] == Some(copied(entries[place]->Some_0, version_rewrite, versions)));
}

/// A repacked package with one manifest says of itself what repacking said of it: the id is kept,
/// and the version is the new one, without white space around it. That is read from the copy as
/// long as it is plain whether it is a large archive, and its manifest is plain and not too long.
pub proof fn law_repacked_package_has_the_new_identity(
    package_bytes: Seq<u8>,
    version_rewrite: VersionRewrite,
    versions: Option<Map<Seq<char>, Seq<char>>>,
    package: RepackedPackage,
)
    requires
        is_repack_result(
            package_bytes,
            version_rewrite,
            versions,
            Ok::<RepackedPackage, PackageError>(package),
        ),
        ({
            let entries = zip_entries(package_bytes)->Some_0;
            let place = first_manifest(entries);
            let document = rewritten_root(
                entries[place]->Some_0.contents->Some_0,
                version_rewrite,
                versions,
            )->Some_0;
            &&& place == last_manifest(entries, entries.len() as int)
            &&& is_plain_size(
                package.contents@,
                all_copied(entries, version_rewrite, versions),
            )
            &&& reads_back(document)
            &&& xml_text(document)->Some_0.len() < LONGEST_DOCUMENT
        }),
    ensures
        stored_identity(package.contents@) == Some(
            (package.identity.package_id@, trimmed(package.identity.version@)),
        ),
{
    let entries = zip_entries(package_bytes)->Some_0;
    let count = entries.len() as int;
    let place = first_manifest(entries);
    lemma_last_manifest(entries, count);
    assert(is_identity_in(package.identity, entries[place], version_rewrite));
    law_every_manifest_gets_the_new_version(
        package_bytes,
        version_rewrite,
        versions,
        package,
        place,
    );
    let copies = all_present(all_copied(entries, version_rewrite, versions));
    assert(zip_entries(package.contents@) == Some(copies));
    assert forall|at: int| 0 <= at < count implies #[trigger] entries[at] is Some by {
        assert(is_copied(entries, at, version_rewrite, versions));
    }
    lemma_first_manifest(entries);
    assert forall|at: int| 0 <= at < copies.len() implies #[trigger] copies[at] == Some(
        copied(entries[at]->Some_0, version_rewrite, versions),
    ) by {}
    assert forall|before: int| 0 <= before < place implies !is_manifest(
        (#[trigger] copies[before])->Some_0,
    ) by {
        assert(!is_manifest(entries[before]->Some_0));
    }
    lemma_first_manifest_is(copies, place);
}

/// A repacked package with one manifest says of itself what repacking said of it, if that manifest
/// is made of plain names, values and characters in one scope, the versions that are written into
/// it are plain, and neither it nor the archive is too long.
pub proof fn law_simple_package_has_the_new_identity(
    package_bytes: Seq<u8>,
    version_rewrite: VersionRewrite,
    versions: Option<Map<Seq<char>, Seq<char>>>,
    package: RepackedPackage,
)
    requires
        is_repack_result(
            package_bytes,
            version_rewrite,
            versions,
            Ok::<RepackedPackage, PackageError>(package),
        ),
        ({
            let entries = zip_entries(package_bytes)->Some_0;
            let place = first_manifest(entries);
            let bytes = entries[place]->Some_0.contents->Some_0;
            let document = rewritten_root(bytes, version_rewrite, versions)->Some_0;
            &&& place == last_manifest(entries, entries.len() as int)
            &&& is_plain_size(
                package.contents@,
                all_copied(entries, version_rewrite, versions),
            )
            &&& is_simple_document(xml_document(bytes)->Some_0)
            &&& is_plain_text(package.identity.version@)
            &&& versions is Some ==> are_plain_versions(versions->Some_0)
            &&& xml_text(document)->Some_0.len() < LONGEST_DOCUMENT
        }),
    ensures
        stored_identity(package.contents@) == Some(
            (package.identity.package_id@, trimmed(package.identity.version@)),
        ),
{
    let entries = zip_entries(package_bytes)->Some_0;
    let place = first_manifest(entries);
    lemma_last_manifest(entries, entries.len() as int);
    assert(is_identity_in(package.identity, entries[place], version_rewrite));
    assert(is_read_back(entries[place], version_rewrite, versions));
    let root = xml_document(entries[place]->Some_0.contents->Some_0)->Some_0;
    law_simple_manifest_reads_back(root, package.identity.version@, versions);
    law_repacked_package_has_the_new_identity(package_bytes, version_rewrite, versions, package);
}

/// Nothing but manifests changes when a package is repacked: every other entry is at its place in
/// the copy, with its name and contents.
pub proof fn law_repacking_keeps_the_other_entries(
    package_bytes: Seq<u8>,
    version_rewrite: VersionRewrite,
    versions: Option<Map<Seq<char>, Seq<char>>>,
    package: RepackedPackage,
    at: int,
)
    requires
        is_repack_result(
            package_bytes,
            version_rewrite,
            versions,
            Ok::<RepackedPackage, PackageError>(package),
        ),
        is_plain_size(
            package.contents@,
            all_copied(zip_entries(package_bytes)->Some_0, version_rewrite, versions),
        ),
        0 <= at < zip_entries(package_bytes)->Some_0.len(),
    ensures
        ({
            let before = zip_entries(package_bytes)->Some_0;
            let behind = zip_entries(package.contents@)->Some_0;
            &&& zip_entries(package.contents@) is Some
            &&& behind.len() == before.len()
            &&& before[at] is Some && behind[at] is Some
            &&& behind[at]->Some_0.name == before[at]->Some_0.name
            &&& !is_manifest(before[at]->Some_0) && !is_directory_name(before[at]->Some_0.name)
                ==> behind[at]->Some_0.contents == before[at]->Some_0.contents
        }),
{
    let entries = zip_entries(package_bytes)->Some_0;
    assert(is_copied(entries, at, version_rewrite, versions));
    let copies = all_present(all_copied(entries, version_rewrite, versions));
    assert(copies[at] == Some(copied(entries[at]->Some_0, version_rewrite, versions)));
}

/// Whether an entry of an archive is a manifest: not a directory, and named `.nuspec` at the end.
pub open spec fn has_manifest_name(name: Seq<char>) -> bool {
    name.len() >= 7 && name.skip(name.len() - 7) == seq!['.', 'n', 'u', 's', 'p', 'e', 'c']
}

/// Whether an entry that can be read stands at a place and is a manifest.
pub open spec fn is_manifest_at(entries: Seq<Option<EntryView>>, place: int) -> bool {
    0 <= place < entries.len() && (entries[place] matches Some(entry) && has_manifest_name(
        entry.name,
    ))
}

proof fn lemma_manifest_name(name: Seq<char>)
    ensures
        is_manifest_name(name) <==> has_manifest_name(name),
        has_manifest_name(name) ==> !is_directory_name(name),
{
    reveal_strlit(".nuspec");
    let suffix = seq!['.', 'n', 'u', 's', 'p', 'e', 'c'];
    assert(".nuspec"@ =~= suffix);
    if name.len() >= 7 {
        assert(name.skip(name.len() - 7) =~= name.subrange(name.len() - 7, name.len() as int));
        if has_manifest_name(name) {
            assert(name.skip(name.len() - 7)[6] == 'c');
            assert(name.last() == 'c');
        }
    }
}

/// Repacking copies every entry of an archive to the same place and name: directories without
/// contents, manifests rewritten, all else byte by byte. What was stored stays stored, all other
/// files are deflated.
pub proof fn law_every_entry_is_copied(
    package_bytes: Seq<u8>,
    version_rewrite: VersionRewrite,
    versions: Option<Map<Seq<char>, Seq<char>>>,
    package: RepackedPackage,
    at: int,
)
    requires
        is_repack_result(
            package_bytes,
            version_rewrite,
            versions,
            Ok::<RepackedPackage, PackageError>(package),
        ),
        zip_entries(package_bytes)->Some_0.len() < 0xffff,
        package.contents@.len() < 0xffff_ffff,
        0 <= at < zip_entries(package_bytes)->Some_0.len(),
    ensures
        zip_entries(package_bytes) is Some,
        zip_entries(package.contents@) is Some,
        ({
            let all = zip_entries(package_bytes)->Some_0;
            let copies = zip_entries(package.contents@)->Some_0;
            let before = all[at]->Some_0;
            let behind = copies[at]->Some_0;
            let is_directory = before.name.len() > 0 && (before.name.last() == '/'
                || before.name.last() == '\\');
            &&& copies.len() == all.len()
            &&& all[at] is Some
            &&& copies[at] is Some
            &&& behind.name == before.name
            &&& is_directory ==> behind.contents == Some(Seq::<u8>::empty()) && behind.compression
                == Compression::Stored
            &&& !is_directory ==> before.contents is Some && behind.contents is Some && (
            behind.compression == if before.compression == Compression::Stored {
                Compression::Stored
            } else {
                Compression::Deflated
            })
            &&& !is_directory && !has_manifest_name(before.name) ==> behind.contents
                == before.contents
            &&& has_manifest_name(before.name) ==> {
                let document = rewritten_root(before.contents->Some_0, version_rewrite, versions);
                document is Some && behind.contents == xml_text(document->Some_0)
            }
        }),
{
    let entries = zip_entries(package_bytes)->Some_0;
    let copies = all_copied(entries, version_rewrite, versions);
    let before = entries[at]->Some_0;
    lemma_manifest_name(before.name);
    assert(is_copied(entries, at, version_rewrite, versions));
    assert(is_plain_size(package.contents@, copies));
    assert(all_present(copies)[at] == Some(copies[at]));
    assert(copies[at] == copied(before, version_rewrite, versions));
}

/// The identity of a repacked package is that in its last manifest, with the new version.
pub proof fn law_last_manifest_gives_the_identity(
    package_bytes: Seq<u8>,
    version_rewrite: VersionRewrite,
    versions: Option<Map<Seq<char>, Seq<char>>>,
    package: RepackedPackage,
) -> (place: int)
    requires
        is_repack_result(
            package_bytes,
            version_rewrite,
            versions,
            Ok::<RepackedPackage, PackageError>(package),
        ),
    ensures
        zip_entries(package_bytes) is Some,
        ({
            let entries = zip_entries(package_bytes)->Some_0;
            let root = xml_document(entries[place]->Some_0.contents->Some_0)->Some_0;
            &&& is_manifest_at(entries, place)
            &&& forall|later: int| place < later ==> !#[trigger] is_manifest_at(entries, later)
            &&& xml_document(entries[place]->Some_0.contents->Some_0) is Some
            &&& identity_of(root) matches Ok((id, version))
            &&& package.identity.package_id@ == id
            &&& package.identity.version@ == rewritten_version(version, version_rewrite)
        }),
{
    let entries = zip_entries(package_bytes)->Some_0;
    let count = entries.len() as int;
    lemma_last_manifest_is_last(entries, count);
    last_manifest(entries, count)
}

proof fn lemma_last_manifest_is_last(entries: Seq<Option<EntryView>>, count: int)
    requires
        0 <= count <= entries.len(),
    ensures
        last_manifest(entries, count) < count,
        last_manifest(entries, count) >= 0 ==> is_manifest_at(
            entries,
            last_manifest(entries, count),
        ),
        forall|later: int|
            last_manifest(entries, count) < later < count ==> !#[trigger] is_manifest_at(
                entries,
                later,
            ),
    decreases count,
{
    if count > 0 {
        lemma_last_manifest_is_last(entries, count - 1);
        if let Some(entry) = entries[count - 1] {
            lemma_manifest_name(entry.name);
        }
    }
}

proof fn lemma_first_manifest_is_first(entries: Seq<Option<EntryView>>)
    ensures
        0 <= first_manifest(entries) <= entries.len(),
        forall|before: int|
            0 <= before < first_manifest(entries) ==> !#[trigger] is_manifest_at(entries, before),
        forall|before: int|
            0 <= before < first_manifest(entries) ==> #[trigger] entries[before] is Some,
        first_manifest(entries) < entries.len() ==> entries[first_manifest(entries)] is None
            || is_manifest_at(entries, first_manifest(entries)),
    decreases entries.len(),
{
    if entries.len() > 0 && entries[0] is Some {
        let entry = entries[0]->Some_0;
        lemma_manifest_name(entry.name);
        if !is_manifest(entry) {
            let rest = entries.drop_first();
            lemma_first_manifest_is_first(rest);
            assert forall|before: int| 0 <= before < first_manifest(entries) implies
                !#[trigger] is_manifest_at(entries, before) by {
                if before > 0 {
                    assert(entries[before] == rest[before - 1]);
                    assert(!is_manifest_at(rest, before - 1));
                }
            }
            assert forall|before: int| 0 <= before < first_manifest(entries) implies
                #[trigger] entries[before] is Some by {
                if before > 0 {
                    assert(entries[before] == rest[before - 1]);
                }
            }
            if first_manifest(entries) < entries.len() {
                assert(entries[first_manifest(entries)] == rest[first_manifest(rest)]);
            }
        }
    }
}

/// The identity of a package is read from its first manifest, with the new version, where all
/// entries up to it can be read; and only from there.
pub proof fn law_first_manifest_gives_the_identity(
    package_bytes: Seq<u8>,
    version_rewrite: VersionRewrite,
    place: int,
)
    requires
        zip_entries(package_bytes) is Some,
        is_manifest_at(zip_entries(package_bytes)->Some_0, place),
        forall|before: int|
            0 <= before < place ==> !#[trigger] is_manifest_at(
                zip_entries(package_bytes)->Some_0,
                before,
            ) && zip_entries(package_bytes)->Some_0[before] is Some,
    ensures
        ({
            let contents = zip_entries(package_bytes)->Some_0[place]->Some_0.contents;
            match package_identity(package_bytes, version_rewrite) {
                Some((id, version)) => {
                    &&& contents matches Some(bytes)
                    &&& xml_document(bytes) matches Some(root)
                    &&& identity_of(root) matches Ok((name, old))
                    &&& id == name
                    &&& version == rewritten_version(old, version_rewrite)
                },
                None => !(contents matches Some(bytes) && (xml_document(bytes) matches Some(root)
                    && identity_of(root) is Ok)),
            }
        }),
{
    let entries = zip_entries(package_bytes)->Some_0;
    lemma_first_manifest_is_first(entries);
    let first = first_manifest(entries);
    if first < place {
        assert(!is_manifest_at(entries, first));
    }
    if place < first {
        assert(!is_manifest_at(entries, place));
    }
}

/// A package without a manifest, or with an entry before its first manifest that cannot be read,
/// has no identity.
pub proof fn law_identity_takes_a_manifest(package_bytes: Seq<u8>, version_rewrite: VersionRewrite) -> (
    place: int)
    requires
        package_identity(package_bytes, version_rewrite) is Some,
    ensures
        zip_entries(package_bytes) is Some,
        is_manifest_at(zip_entries(package_bytes)->Some_0, place),
        forall|before: int|
            0 <= before < place ==> !#[trigger] is_manifest_at(
                zip_entries(package_bytes)->Some_0,
                before,
            ) && zip_entries(package_bytes)->Some_0[before] is Some,
{
    let entries = zip_entries(package_bytes)->Some_0;
    lemma_first_manifest_is_first(entries);
    first_manifest(entries)
}

/// Why no identity is read: the archive or an entry of it is at fault, there is no manifest, or the
/// manifest is at fault.
pub proof fn law_identity_faults(
    package_bytes: Seq<u8>,
    version_rewrite: VersionRewrite,
    error: PackageError,
)
    requires
        is_identity_fault(package_bytes, version_rewrite, error),
    ensures
        match error {
            PackageError::NotAnArchive(_) => zip_entries(package_bytes) is None,
            PackageError::MissingNuspec => zip_entries(package_bytes) matches Some(entries) && (
            forall|place: int| !#[trigger] is_manifest_at(entries, place)) && (forall|place: int|
                0 <= place < entries.len() ==> #[trigger] entries[place] is Some),
            PackageError::UnreadableEntry(index, _) => zip_entries(package_bytes) matches Some(
                entries,
            ) && index < entries.len() && entries[index as int] is None && (forall|place: int|
                0 <= place < index ==> !#[trigger] is_manifest_at(entries, place)),
            PackageError::UnreadableContents(name, _) => zip_entries(package_bytes) matches Some(
                entries,
            ) && exists|place: int| #[trigger]
                is_manifest_at(entries, place) && entries[place]->Some_0.name == name@
                    && entries[place]->Some_0.contents is None,
            PackageError::Nuspec(cause) => zip_entries(package_bytes) matches Some(entries)
                && exists|place: int| #[trigger]
                is_manifest_at(entries, place) && (entries[place]->Some_0.contents matches Some(
                    bytes,
                ) && is_identity_result(
                    bytes,
                    version_rewrite,
                    Err::<PackageIdentity, NuspecError>(cause),
                )) && forall|before: int|
                    0 <= before < place ==> !#[trigger] is_manifest_at(entries, before),
            _ => false,
        },
{
    if zip_entries(package_bytes) is Some {
        lemma_first_manifest_is_first(zip_entries(package_bytes)->Some_0);
    }
}

/// An ordinary package is repacked: one whose entries can be read, have names of their own and are
/// not too large, with a manifest, and whose manifests can be rewritten.
pub proof fn law_ordinary_package_is_repackable(
    package_bytes: Seq<u8>,
    version_rewrite: VersionRewrite,
    versions: Option<Map<Seq<char>, Seq<char>>>,
    place: int,
)
    requires
        zip_entries(package_bytes) is Some,
        is_manifest_at(zip_entries(package_bytes)->Some_0, place),
        ({
            let entries = zip_entries(package_bytes)->Some_0;
            &&& forall|at: int|
                0 <= at < entries.len() ==> ((#[trigger] entries[at]) matches Some(entry)
                    && encode_utf8(entry.name).len() <= LONGEST_NAME && (
                entry.contents matches Some(bytes) && bytes.len() <= LONGEST_DEFLATED))
            &&& forall|at: int, other: int|
                0 <= at < other < entries.len() ==> (#[trigger] entries[at])->Some_0.name != (
                #[trigger] entries[other])->Some_0.name
            &&& forall|at: int| #[trigger]
                is_manifest_at(entries, at) ==> (rewritten_root(
                    entries[at]->Some_0.contents->Some_0,
                    version_rewrite,
                    versions,
                ) matches Some(document) && (xml_text(document) matches Some(text) && text.len()
                    <= LONGEST_DEFLATED))
        }),
    ensures
        is_repackable(package_bytes, version_rewrite, versions),
{
    let entries = zip_entries(package_bytes)->Some_0;
    let count = entries.len() as int;
    lemma_last_manifest_is_last(entries, count);
    assert(last_manifest(entries, count) >= 0) by {
        if last_manifest(entries, count) < 0 {
            assert(!is_manifest_at(entries, place));
        }
    }
    assert forall|at: int| 0 <= at < count implies #[trigger] is_copied(
        entries,
        at,
        version_rewrite,
        versions,
    ) && copied(entries[at]->Some_0, version_rewrite, versions).contents->Some_0.len()
        <= LONGEST_DEFLATED && copied(entries[at]->Some_0, version_rewrite, versions).contents
        is Some by {
        let entry = entries[at]->Some_0;
        assert(entries[at] is Some);
        lemma_manifest_name(entry.name);
        assert(is_manifest_at(entries, at) <==> has_manifest_name(entry.name));
        let front = entries.take(at);
        let before = all_copied(front, version_rewrite, versions);
        assert forall|other: int| 0 <= other < before.len() implies (
        #[trigger] before[other]).name != entry.name by {
            assert(front[other] == entries[other]);
            assert(before[other] == copied(entries[other]->Some_0, version_rewrite, versions));
            assert(entries[other]->Some_0.name != entries[at]->Some_0.name);
        }
    }
    assert forall|at: int| 0 <= at <= count implies can_be_closed(
        all_copied(#[trigger] entries.take(at), version_rewrite, versions),
    ) by {
        let front = entries.take(at);
        let before = all_copied(front, version_rewrite, versions);
        if at > 0 {
            assert(front[at - 1] == entries[at - 1]);
            assert(before.last() == copied(entries[at - 1]->Some_0, version_rewrite, versions));
            assert(is_copied(entries, at - 1, version_rewrite, versions));
        }
    }
}

/// Repacking fails for want of a manifest only where there is none, because of a manifest only
/// where one cannot be rewritten, and for want of an archive only where there is none.
pub proof fn law_repacking_fails_for_a_reason(
    package_bytes: Seq<u8>,
    version_rewrite: VersionRewrite,
    versions: Option<Map<Seq<char>, Seq<char>>>,
    error: PackageError,
)
    requires
        is_repack_result(
            package_bytes,
            version_rewrite,
            versions,
            Err::<RepackedPackage, PackageError>(error),
        ),
    ensures
        error is NotAnArchive <==> zip_entries(package_bytes) is None,
        zip_entries(package_bytes) matches Some(entries) ==> match error {
            PackageError::NotAnArchive(_) => false,
            PackageError::MissingNuspec => forall|place: int|
                !#[trigger] is_manifest_at(entries, place),
            PackageError::UnreadableEntry(index, _) => index < entries.len()
                && entries[index as int] is None,
            PackageError::UnreadableContents(name, _) => exists|at: int|
                0 <= at < entries.len() && ((#[trigger] entries[at]) matches Some(entry)
                    && entry.name == name@ && entry.contents is None),
            PackageError::Nuspec(cause) => exists|place: int| #[trigger]
                is_manifest_at(entries, place) && (rewritten_root(
                    entries[place]->Some_0.contents->Some_0,
                    version_rewrite,
                    versions,
                ) matches Some(document) ==> xml_text(document) is None) && is_rewrite_result(
                    entries[place]->Some_0.contents->Some_0,
                    version_rewrite,
                    versions,
                    Err::<RewrittenNuspec, NuspecError>(cause),
                ),
            PackageError::UncopiableFile(name, _) => exists|at: int|
                0 <= at < entries.len() && ((#[trigger] entries[at]) matches Some(entry)
                    && entry.name == name@ && !has_manifest_name(entry.name)),
            PackageError::UnaddableFile(name, _) => exists|at: int|
                0 <= at < entries.len() && ((#[trigger] entries[at]) matches Some(entry)
                    && entry.name == name@),
            PackageError::UnaddableDirectory(name, _) => exists|at: int|
                0 <= at < entries.len() && ((#[trigger] entries[at]) matches Some(entry)
                    && entry.name == name@ && name@.len() > 0),
            _ => true,
        },
{
    if let Some(entries) = zip_entries(package_bytes) {
        let count = entries.len() as int;
        lemma_last_manifest_is_last(entries, count);
        if exists|at: int|
            0 <= at < count && are_copied(entries, at, version_rewrite, versions) && #[trigger]
                is_entry_fault(error, entries, at, version_rewrite, versions) {
            let at = choose|at: int|
                0 <= at < count && are_copied(entries, at, version_rewrite, versions) && #[trigger]
                    is_entry_fault(error, entries, at, version_rewrite, versions);
            if let Some(entry) = entries[at] {
                lemma_manifest_name(entry.name);
                assert(is_manifest_at(entries, at) <==> has_manifest_name(entry.name));
            }
        }
    }
}

} // verus!
