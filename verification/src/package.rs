//! Packages: `.nupkg` archives, and their copies with a rewritten version.

use vstd::prelude::*;

use crate::archive::{
    add_directory, all_present, can_be_closed, entry_contents, entry_count, entry_header,
    finish_archive, io_error_text, is_directory_name, is_free_name, is_plain_size, new_archive,
    open_archive, opened_entries, start_file, write_bytes, written_entries, zip_entries,
    zip_error_text, ArchiveWriter, Compression, EntryView, OpenArchive, LONGEST_CONTENTS,
};
use crate::manifest::{
    identity_of, is_identity_result, is_rewrite_result, rewrite_nuspec_version,
    rewritten_package_identity, rewritten_root, versions_view, NuspecError, PackageIdentity,
    RewrittenNuspec,
};
use crate::text::has_suffix;
use crate::text_map::TextMap;
use crate::version::{rewritten_version, VersionRewrite};
use crate::xml_document::{
    is_read_element, reads_back, settled, xml_document, xml_text, LONGEST_DOCUMENT,
};

verus! {

/// A package with a rewritten version.
#[derive(Debug)]
pub struct RepackedPackage {
    pub identity: PackageIdentity,
    pub contents: Vec<u8>,
}

/// Why a package could not be read or repacked. The last text is what the cause says of itself.
#[derive(Debug, PartialEq, Eq)]
pub enum PackageError {
    NotAnArchive(String),
    UnreadableEntry(usize, String),
    UnreadableContents(String, String),
    UnaddableDirectory(String, String),
    UnaddableFile(String, String),
    UnwritableManifest(String),
    UncopiableFile(String, String),
    Unfinished(String),
    Nuspec(NuspecError),
    MissingNuspec,
}

/// How an entry is packed in a copy: as before where that is common, deflated otherwise.
pub open spec fn normalized(method: Compression) -> Compression {
    if method == Compression::Stored {
        method
    } else {
        Compression::Deflated
    }
}

/// How an entry is packed in a copy.
pub fn normalize_compression(method: Compression) -> (packed: Compression)
    ensures
        packed == normalized(method),
{
    match method {
        Compression::Stored => method,
        Compression::Deflated => method,
        Compression::Other => Compression::Deflated,
    }
}

/// Whether an entry of this name is a manifest.
pub open spec fn is_manifest_name(name: Seq<char>) -> bool {
    ".nuspec"@.is_suffix_of(name)
}

/// Whether an entry is a manifest that can be read.
pub open spec fn is_manifest(entry: EntryView) -> bool {
    !is_directory_name(entry.name) && is_manifest_name(entry.name)
}

/// The bytes that rewriting makes of a manifest, where it makes any.
pub open spec fn rewritten_contents(
    nuspec_bytes: Seq<u8>,
    version_rewrite: VersionRewrite,
    versions: Option<Map<Seq<char>, Seq<char>>>,
) -> Option<Seq<u8>> {
    match rewritten_root(nuspec_bytes, version_rewrite, versions) {
        Some(document) => xml_text(document),
        None => None,
    }
}

/// Whether an entry can be copied: a directory, a file that can be read, or a manifest that can be
/// rewritten.
pub open spec fn is_sound(
    entry: Option<EntryView>,
    version_rewrite: VersionRewrite,
    versions: Option<Map<Seq<char>, Seq<char>>>,
) -> bool {
    entry matches Some(entry) && (is_directory_name(entry.name) || (entry.contents matches Some(
        bytes,
    ) && (is_manifest_name(entry.name) ==> rewritten_contents(bytes, version_rewrite, versions)
        is Some)))
}

/// The copy of an entry: a manifest is rewritten, anything else keeps its name and contents.
pub open spec fn copied(
    entry: EntryView,
    version_rewrite: VersionRewrite,
    versions: Option<Map<Seq<char>, Seq<char>>>,
) -> EntryView {
    if is_directory_name(entry.name) {
        EntryView {
            name: entry.name,
            compression: Compression::Stored,
            contents: Some(Seq::empty()),
        }
    } else if is_manifest_name(entry.name) {
        EntryView {
            name: entry.name,
            compression: normalized(entry.compression),
            contents: rewritten_contents(entry.contents->Some_0, version_rewrite, versions),
        }
    } else {
        EntryView { compression: normalized(entry.compression), ..entry }
    }
}

/// The copies of all entries.
pub open spec fn all_copied(
    entries: Seq<Option<EntryView>>,
    version_rewrite: VersionRewrite,
    versions: Option<Map<Seq<char>, Seq<char>>>,
) -> Seq<EntryView> {
    entries.map_values(
        |entry: Option<EntryView>| copied(entry->Some_0, version_rewrite, versions),
    )
}

/// Whether the entry at `at` is sound and its copy fits behind those of the entries before it.
pub open spec fn is_copied(
    entries: Seq<Option<EntryView>>,
    at: int,
    version_rewrite: VersionRewrite,
    versions: Option<Map<Seq<char>, Seq<char>>>,
) -> bool {
    let before = all_copied(entries.take(at), version_rewrite, versions);
    let copy = copied(entries[at]->Some_0, version_rewrite, versions);
    &&& is_sound(entries[at], version_rewrite, versions)
    &&& is_free_name(before, copy.name)
    &&& copy.contents->Some_0.len() <= LONGEST_CONTENTS
}

/// Whether that holds of the first `count` entries.
pub open spec fn are_copied(
    entries: Seq<Option<EntryView>>,
    count: int,
    version_rewrite: VersionRewrite,
    versions: Option<Map<Seq<char>, Seq<char>>>,
) -> bool {
    forall|at: int|
        0 <= at < count ==> #[trigger] is_copied(entries, at, version_rewrite, versions)
}

/// Whether none of the copies of the first `count` entries is so long that it may not fit once it
/// is packed.
pub open spec fn are_closed(
    entries: Seq<Option<EntryView>>,
    count: int,
    version_rewrite: VersionRewrite,
    versions: Option<Map<Seq<char>, Seq<char>>>,
) -> bool {
    forall|at: int|
        0 <= at <= count ==> can_be_closed(
            all_copied(#[trigger] entries.take(at), version_rewrite, versions),
        )
}

/// The place of the last manifest among the first `count` entries, or -1.
pub open spec fn last_manifest(entries: Seq<Option<EntryView>>, count: int) -> int
    decreases count,
{
    if count <= 0 {
        -1
    } else if entries[count - 1] matches Some(entry) && is_manifest(entry) {
        count - 1
    } else {
        last_manifest(entries, count - 1)
    }
}

/// Whether `identity` is what the manifest `entry` gives its package once it is rewritten.
pub open spec fn is_identity_in(
    identity: PackageIdentity,
    entry: Option<EntryView>,
    version_rewrite: VersionRewrite,
) -> bool {
    &&& entry matches Some(entry)
    &&& entry.contents matches Some(bytes)
    &&& xml_document(bytes) matches Some(root)
    &&& identity_of(root) matches Ok((id, version))
    &&& identity.package_id@ == id
    &&& identity.version@ == rewritten_version(version, version_rewrite)
}

/// Whether `error` says why the entry at `at` cannot be copied behind those before it. It must be
/// readable; then its name must be free; then a manifest must be fit to be rewritten; then the
/// contents must not be too long.
pub open spec fn is_entry_fault(
    error: PackageError,
    entries: Seq<Option<EntryView>>,
    at: int,
    version_rewrite: VersionRewrite,
    versions: Option<Map<Seq<char>, Seq<char>>>,
) -> bool {
    let before = all_copied(entries.take(at), version_rewrite, versions);
    match entries[at] {
        None => error matches PackageError::UnreadableEntry(index, _) && index == at,
        Some(entry) => {
            let cannot_be_added = !is_free_name(before, entry.name) || !can_be_closed(before);
            if is_directory_name(entry.name) {
                cannot_be_added && (error matches PackageError::UnaddableDirectory(name, _)
                    && name@ == entry.name)
            } else if entry.contents is None {
                error matches PackageError::UnreadableContents(name, _) && name@ == entry.name
            } else if error is UnaddableFile {
                cannot_be_added && error->UnaddableFile_0@ == entry.name
            } else {
                is_free_name(before, entry.name) && is_contents_fault(
                    error,
                    entry.name,
                    entry.contents->Some_0,
                    version_rewrite,
                    versions,
                )
            }
        },
    }
}

/// Whether `error` says why a file that was added cannot be filled with its copied contents.
pub open spec fn is_contents_fault(
    error: PackageError,
    name: Seq<char>,
    bytes: Seq<u8>,
    version_rewrite: VersionRewrite,
    versions: Option<Map<Seq<char>, Seq<char>>>,
) -> bool {
    if is_manifest_name(name) {
        match rewritten_contents(bytes, version_rewrite, versions) {
            None => error matches PackageError::Nuspec(cause) && is_rewrite_result(
                bytes,
                version_rewrite,
                versions,
                Err::<RewrittenNuspec, NuspecError>(cause),
            ),
            Some(contents) => error is UnwritableManifest && contents.len() > LONGEST_CONTENTS,
        }
    } else {
        bytes.len() > LONGEST_CONTENTS && (error matches PackageError::UncopiableFile(file, _)
            && file@ == name)
    }
}

/// Whether what is known of documents that are read holds of the manifest `entry`, and the one that
/// is written for it, if it is plain and not too long, is read as the document that was written,
/// with white space around its comments.
pub open spec fn is_read_back(
    entry: Option<EntryView>,
    version_rewrite: VersionRewrite,
    versions: Option<Map<Seq<char>, Seq<char>>>,
) -> bool {
    match entry {
        Some(entry) => is_manifest(entry) && entry.contents is Some ==> {
            &&& xml_document(entry.contents->Some_0) matches Some(root) ==> is_read_element(root)
            &&& match rewritten_root(entry.contents->Some_0, version_rewrite, versions) {
                Some(document) => match xml_text(document) {
                    Some(text) => reads_back(document) && text.len() < LONGEST_DOCUMENT
                        ==> xml_document(text) == Some(settled(document)),
                    None => true,
                },
                None => true,
            }
        },
        None => true,
    }
}

/// Whether that holds of the first `count` entries.
pub open spec fn are_read_back(
    entries: Seq<Option<EntryView>>,
    count: int,
    version_rewrite: VersionRewrite,
    versions: Option<Map<Seq<char>, Seq<char>>>,
) -> bool {
    forall|at: int|
        0 <= at < count ==> is_read_back(#[trigger] entries[at], version_rewrite, versions)
}

/// Whether `bytes` are read as an archive of `entries`, if it is plain whether they make a large
/// one.
pub open spec fn reads_as(bytes: Seq<u8>, entries: Seq<EntryView>) -> bool {
    is_plain_size(bytes, entries) ==> zip_entries(bytes) == Some(all_present(entries))
}

/// Whether `error` is why an archive with these entries has no copy: what is wrong with the first
/// entry that cannot be copied, that the last one does not fit, or that there is no manifest.
pub open spec fn is_copy_fault(
    error: PackageError,
    entries: Seq<Option<EntryView>>,
    version_rewrite: VersionRewrite,
    versions: Option<Map<Seq<char>, Seq<char>>>,
) -> bool {
    let count = entries.len() as int;
    ||| exists|at: int|
        0 <= at < count && are_copied(entries, at, version_rewrite, versions) && #[trigger]
            is_entry_fault(error, entries, at, version_rewrite, versions)
    ||| error is Unfinished && are_copied(entries, count, version_rewrite, versions)
        && !can_be_closed(all_copied(entries, version_rewrite, versions))
    ||| error is MissingNuspec && are_copied(entries, count, version_rewrite, versions)
        && last_manifest(entries, count) < 0
}

/// Whether a package is sure to be repacked: it is an archive with a manifest, and the copies of
/// all its entries fit.
pub open spec fn is_repackable(
    package_bytes: Seq<u8>,
    version_rewrite: VersionRewrite,
    versions: Option<Map<Seq<char>, Seq<char>>>,
) -> bool {
    &&& zip_entries(package_bytes) matches Some(entries)
    &&& are_copied(entries, entries.len() as int, version_rewrite, versions)
    &&& are_closed(entries, entries.len() as int, version_rewrite, versions)
    &&& last_manifest(entries, entries.len() as int) >= 0
}

/// Copies the entry at `index` to the end of another archive; of a manifest it also returns the
/// identity.
fn copy_entry(
    archive: &mut OpenArchive,
    index: usize,
    writer: ArchiveWriter,
    version_rewrite: &VersionRewrite,
    workspace_dependency_versions: Option<&TextMap>,
) -> (result: Result<(ArchiveWriter, Option<PackageIdentity>), PackageError>)
    requires
        index < opened_entries(*old(archive)).len(),
        written_entries(writer) == all_copied(
            opened_entries(*old(archive)).take(index as int),
            *version_rewrite,
            versions_view(workspace_dependency_versions),
        ),
    ensures
        opened_entries(*final(archive)) == opened_entries(*old(archive)),
        ({
            let entry = opened_entries(*old(archive))[index as int];
            let versions = versions_view(workspace_dependency_versions);
            match result {
                Ok((longer, identity)) => is_copied(
                    opened_entries(*old(archive)),
                    index as int,
                    *version_rewrite,
                    versions,
                ) && is_read_back(entry, *version_rewrite, versions) && written_entries(longer)
                    == written_entries(writer).push(
                    copied(entry->Some_0, *version_rewrite, versions),
                ) && match identity {
                    Some(identity) => is_manifest(entry->Some_0) && is_identity_in(
                        identity,
                        entry,
                        *version_rewrite,
                    ),
                    None => !is_manifest(entry->Some_0),
                },
                Err(error) => is_entry_fault(
                    error,
                    opened_entries(*old(archive)),
                    index as int,
                    *version_rewrite,
                    versions,
                ),
            }
        }),
{
    let header = match entry_header(archive, index) {
        Ok(header) => header,
        Err(error) => {
            return Err(PackageError::UnreadableEntry(index, zip_error_text(error)));
        },
    };
    if header.is_directory {
        return match add_directory(writer, header.name.as_str()) {
            Ok(longer) => Ok((longer, None)),
            Err(error) => Err(PackageError::UnaddableDirectory(header.name, zip_error_text(error))),
        };
    }
    let bytes = match entry_contents(archive, index) {
        Ok(bytes) => bytes,
        Err(error) => {
            return Err(PackageError::UnreadableContents(header.name, io_error_text(error)));
        },
    };
    let compression = normalize_compression(header.compression);
    let started = match start_file(writer, header.name.as_str(), compression) {
        Ok(started) => started,
        Err(error) => {
            return Err(PackageError::UnaddableFile(header.name, zip_error_text(error)));
        },
    };
    assert(written_entries(started).drop_last() =~= written_entries(writer));
    if has_suffix(header.name.as_str(), ".nuspec") {
        let rewritten = match rewrite_nuspec_version(
            bytes.as_slice(),
            version_rewrite,
            workspace_dependency_versions,
        ) {
            Ok(rewritten) => rewritten,
            Err(cause) => {
                return Err(PackageError::Nuspec(cause));
            },
        };
        assert(Seq::<u8>::empty() + rewritten.contents@ =~= rewritten.contents@);
        match write_bytes(started, rewritten.contents.as_slice()) {
            Ok(longer) => Ok((longer, Some(rewritten.identity))),
            Err(error) => Err(PackageError::UnwritableManifest(io_error_text(error))),
        }
    } else {
        assert(Seq::<u8>::empty() + bytes@ =~= bytes@);
        match write_bytes(started, bytes.as_slice()) {
            Ok(longer) => Ok((longer, None)),
            Err(error) => Err(PackageError::UncopiableFile(header.name, io_error_text(error))),
        }
    }
}

/// Whether repacking the bytes of a package has this result.
pub open spec fn is_repack_result(
    package_bytes: Seq<u8>,
    version_rewrite: VersionRewrite,
    versions: Option<Map<Seq<char>, Seq<char>>>,
    result: Result<RepackedPackage, PackageError>,
) -> bool {
    match zip_entries(package_bytes) {
        None => result matches Err(PackageError::NotAnArchive(_)),
        Some(entries) => match result {
            Ok(package) => {
                let last = last_manifest(entries, entries.len() as int);
                &&& are_copied(entries, entries.len() as int, version_rewrite, versions)
                &&& are_read_back(entries, entries.len() as int, version_rewrite, versions)
                &&& last >= 0
                &&& is_identity_in(package.identity, entries[last], version_rewrite)
                &&& reads_as(package.contents@, all_copied(entries, version_rewrite, versions))
            },
            Err(error) => is_copy_fault(error, entries, version_rewrite, versions),
        },
    }
}

/// Copies a package, rewriting the version in its manifest, and with
/// `workspace_dependency_versions` the versions of the dependencies on the packages named there.
/// The copy is read as the same entries in the same order, all but the manifest with the same
/// contents. Its identity is that of the last manifest in it. Only where an entry has contents so
/// long that they may not fit once they are packed is it left open whether there is a copy.
pub fn repack_package_with_version(
    package_bytes: Vec<u8>,
    version_rewrite: &VersionRewrite,
    workspace_dependency_versions: Option<&TextMap>,
) -> (result: Result<RepackedPackage, PackageError>)
    ensures
        is_repack_result(
            package_bytes@,
            *version_rewrite,
            versions_view(workspace_dependency_versions),
            result,
        ),
        is_repackable(
            package_bytes@,
            *version_rewrite,
            versions_view(workspace_dependency_versions),
        ) ==> result is Ok,
{
    let mut archive = match open_archive(package_bytes) {
        Ok(archive) => archive,
        Err(error) => {
            return Err(PackageError::NotAnArchive(zip_error_text(error)));
        },
    };
    let ghost entries = opened_entries(archive);
    let ghost versions = versions_view(workspace_dependency_versions);
    let mut writer = new_archive();
    let mut identity: Option<PackageIdentity> = None;
    let count: usize = entry_count(&archive);
    let mut index: usize = 0;
    while index < count
        invariant
            index <= count,
            count == entries.len(),
            opened_entries(archive) == entries,
            versions == versions_view(workspace_dependency_versions),
            zip_entries(package_bytes@) == Some(entries),
            are_copied(entries, index as int, *version_rewrite, versions),
            are_read_back(entries, index as int, *version_rewrite, versions),
            written_entries(writer) == all_copied(
                entries.take(index as int),
                *version_rewrite,
                versions,
            ),
            match identity {
                Some(identity) => 0 <= last_manifest(entries, index as int) < index
                    && is_identity_in(
                    identity,
                    entries[last_manifest(entries, index as int)],
                    *version_rewrite,
                ),
                None => last_manifest(entries, index as int) < 0,
            },
        decreases count - index,
    {
        let ghost entry = entries[index as int];
        match copy_entry(
            &mut archive,
            index,
            writer,
            version_rewrite,
            workspace_dependency_versions,
        ) {
            Ok((longer, found)) => {
                assert(all_copied(entries.take(index + 1), *version_rewrite, versions)
                    =~= all_copied(entries.take(index as int), *version_rewrite, versions).push(
                    copied(entry->Some_0, *version_rewrite, versions),
                ));
                writer = longer;
                if found.is_some() {
                    identity = found;
                }
                index += 1;
            },
            Err(error) => {
                assert(is_entry_fault(error, entries, index as int, *version_rewrite, versions));
                proof {
                    if is_repackable(package_bytes@, *version_rewrite, versions) {
                        assert(is_copied(entries, index as int, *version_rewrite, versions));
                    }
                }
                return Err(error);
            },
        }
    }
    assert(entries.take(index as int) =~= entries);
    match finish_archive(writer) {
        Err(error) => Err(PackageError::Unfinished(zip_error_text(error))),
        Ok(contents) => match identity {
            Some(identity) => Ok(RepackedPackage { identity, contents }),
            None => Err(PackageError::MissingNuspec),
        },
    }
}

/// The place of the first entry that cannot be opened or is a manifest; the number of entries
/// where there is none.
pub open spec fn first_manifest(entries: Seq<Option<EntryView>>) -> int
    decreases entries.len(),
{
    if entries.len() == 0 || entries[0] is None || is_manifest(entries[0]->Some_0) {
        0
    } else {
        1 + first_manifest(entries.drop_first())
    }
}

/// Whether reading the rewritten identity from an archive with these entries has this result: it
/// is read from the first manifest.
pub open spec fn is_identity_read(
    entries: Seq<Option<EntryView>>,
    version_rewrite: VersionRewrite,
    result: Result<PackageIdentity, PackageError>,
) -> bool {
    let place = first_manifest(entries);
    if place >= entries.len() {
        result == Err::<PackageIdentity, PackageError>(PackageError::MissingNuspec)
    } else {
        match entries[place] {
            None => result matches Err(PackageError::UnreadableEntry(at, _)) && at == place,
            Some(entry) => match entry.contents {
                None => result matches Err(PackageError::UnreadableContents(name, _)) && name@
                    == entry.name,
                Some(bytes) => match result {
                    Ok(identity) => is_identity_result(
                        bytes,
                        version_rewrite,
                        Ok::<PackageIdentity, NuspecError>(identity),
                    ),
                    Err(error) => error matches PackageError::Nuspec(cause) && is_identity_result(
                        bytes,
                        version_rewrite,
                        Err::<PackageIdentity, NuspecError>(cause),
                    ),
                },
            },
        }
    }
}

/// The id and the version that a package has once its version is rewritten, where they can be
/// read.
pub open spec fn package_identity(
    package_bytes: Seq<u8>,
    version_rewrite: VersionRewrite,
) -> Option<(Seq<char>, Seq<char>)> {
    match zip_entries(package_bytes) {
        None => None,
        Some(entries) => {
            let place = first_manifest(entries);
            if place >= entries.len() || entries[place] is None
                || entries[place]->Some_0.contents is None {
                None
            } else {
                match xml_document(entries[place]->Some_0.contents->Some_0) {
                    None => None,
                    Some(root) => match identity_of(root) {
                        Ok((id, version)) => Some(
                            (id, rewritten_version(version, version_rewrite)),
                        ),
                        Err(_) => None,
                    },
                }
            }
        },
    }
}

/// Whether `error` says why the identity of a package cannot be read.
pub open spec fn is_identity_fault(
    package_bytes: Seq<u8>,
    version_rewrite: VersionRewrite,
    error: PackageError,
) -> bool {
    match zip_entries(package_bytes) {
        None => error is NotAnArchive,
        Some(entries) => is_identity_read(
            entries,
            version_rewrite,
            Err::<PackageIdentity, PackageError>(error),
        ),
    }
}

/// Reads from a package the identity that it has once its version is rewritten.
pub fn read_package_identity_with_rewritten_version(
    package_bytes: Vec<u8>,
    version_rewrite: &VersionRewrite,
) -> (result: Result<PackageIdentity, PackageError>)
    ensures
        match result {
            Ok(identity) => package_identity(package_bytes@, *version_rewrite) == Some(
                (identity.package_id@, identity.version@),
            ),
            Err(error) => package_identity(package_bytes@, *version_rewrite) is None
                && is_identity_fault(package_bytes@, *version_rewrite, error),
        },
{
    let mut archive = match open_archive(package_bytes) {
        Ok(archive) => archive,
        Err(error) => {
            return Err(PackageError::NotAnArchive(zip_error_text(error)));
        },
    };
    let ghost entries = opened_entries(archive);
    let count: usize = entry_count(&archive);
    let mut index: usize = 0;
    assert(entries.skip(0) =~= entries);
    while index < count
        invariant
            index <= count,
            count == entries.len(),
            opened_entries(archive) == entries,
            zip_entries(package_bytes@) == Some(entries),
            first_manifest(entries) == index + first_manifest(entries.skip(index as int)),
        decreases count - index,
    {
        let ghost rest = entries.skip(index as int);
        assert(rest[0] == entries[index as int]);
        assert(rest.drop_first() =~= entries.skip(index + 1));
        let header = match entry_header(&mut archive, index) {
            Ok(header) => header,
            Err(error) => {
                return Err(PackageError::UnreadableEntry(index, zip_error_text(error)));
            },
        };
        if !header.is_directory && has_suffix(header.name.as_str(), ".nuspec") {
            return match entry_contents(&mut archive, index) {
                Err(error) => Err(
                    PackageError::UnreadableContents(header.name, io_error_text(error)),
                ),
                Ok(bytes) => match rewritten_package_identity(bytes.as_slice(), version_rewrite) {
                    Ok(identity) => Ok(identity),
                    Err(cause) => Err(PackageError::Nuspec(cause)),
                },
            };
        }
        index += 1;
    }
    assert(entries.skip(index as int) =~= Seq::<Option<EntryView>>::empty());
    Err(PackageError::MissingNuspec)
}

} // verus!
