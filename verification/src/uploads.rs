//! Finding packages, preparing them and pushing them to a feed.

use vstd::prelude::*;

use crate::digits::{decimal, decimal_of};
use crate::manifest::{versions_view, PackageIdentity};
use crate::package::{
    is_identity_fault, is_repack_result, is_repackable, package_identity,
    read_package_identity_with_rewritten_version, repack_package_with_version, PackageError,
    RepackedPackage,
};
use crate::path_order::{drop_repeats, path_order, sort_paths, without_repeats};
use crate::paths::{
    file_name, file_name_of, file_stem, is_same_path, join_path, joined_path, same_path, stem_of,
};
use crate::platform::Platform;
use crate::sorting::is_sorted_copy;
use crate::text::{
    concat, has_suffix, holds_part, join, joined, lemma_part_is_held, lemma_views_push, owned,
    views,
};
use crate::text_map::TextMap;
use crate::version::VersionRewrite;
use crate::xml::maybe_view;

verus! {

/// A package to upload: where it comes from and which file is pushed. A rewritten package has an
/// id and a version.
#[derive(Debug, PartialEq, Eq)]
pub struct PackageUpload {
    pub source_path: String,
    pub upload_path: String,
    pub package_id: Option<String>,
    pub package_version: Option<String>,
}

/// A package file: its path, and its bytes or why they could not be read.
#[derive(Debug)]
pub struct PackageFile {
    pub path: String,
    pub contents: Result<Vec<u8>, String>,
}

/// A file to be written: under a temporary name first, and then moved to another if that differs.
#[derive(Debug)]
pub struct PreparedFile {
    pub temporary_path: String,
    pub is_moved: bool,
    pub contents: Vec<u8>,
}

/// An upload, with the file that has to be written for it.
#[derive(Debug)]
pub struct PreparedUpload {
    pub upload: PackageUpload,
    pub file: Option<PreparedFile>,
}

/// Why packages could not be uploaded.
#[derive(Debug, PartialEq, Eq)]
pub enum UploadError {
    /// No package stands under these directories.
    NoPackages(String),
    MissingApiKey,
    InvalidFileName(String),
    /// The package could not be read, and why.
    UnopenablePackage(String, String),
    /// The package could not be repacked, or its identity not be read. The second path is that of
    /// the copy.
    Package(String, String, PackageError),
}

impl PackageError {
    /// What the error says of a package and its copy.
    pub open spec fn text(self, package_path: Seq<char>, output_path: Seq<char>) -> Seq<char> {
        match self {
            PackageError::NotAnArchive(detail) => "failed to read "@ + package_path
                + " as a nupkg archive: "@ + detail@,
            PackageError::UnreadableEntry(index, detail) => "failed to read zip entry "@ + decimal(
                index as nat,
            ) + " from "@ + package_path + ": "@ + detail@,
            PackageError::UnreadableContents(name, detail) => "failed to read "@ + name@
                + " from "@ + package_path + ": "@ + detail@,
            PackageError::UnaddableDirectory(name, detail) => "failed to add directory "@ + name@
                + " to repacked package: "@ + detail@,
            PackageError::UnaddableFile(name, detail) => "failed to add "@ + name@
                + " to repacked package: "@ + detail@,
            PackageError::UnwritableManifest(detail) => "failed to write updated nuspec for "@
                + package_path + ": "@ + detail@,
            PackageError::UncopiableFile(name, detail) => "failed to copy "@ + name@
                + " into repacked package: "@ + detail@,
            PackageError::Unfinished(detail) => "failed to finalize repacked package "@
                + output_path + ": "@ + detail@,
            PackageError::Nuspec(cause) => cause.text(),
            PackageError::MissingNuspec => "package "@ + package_path
                + " does not contain a .nuspec file"@,
        }
    }

    /// Says what is wrong with a package or its copy.
    pub fn message(&self, package_path: &str, output_path: &str) -> (message: String)
        ensures
            message@ == self.text(package_path@, output_path@),
    {
        match self {
            PackageError::NotAnArchive(detail) => {
                let mut message = concat("failed to read ", package_path);
                message.append(" as a nupkg archive: ");
                message.append(detail.as_str());
                message
            },
            PackageError::UnreadableEntry(index, detail) => {
                let mut message = concat(
                    "failed to read zip entry ",
                    decimal_of(*index as u64).as_str(),
                );
                message.append(" from ");
                message.append(package_path);
                message.append(": ");
                message.append(detail.as_str());
                message
            },
            PackageError::UnreadableContents(name, detail) => {
                let mut message = concat("failed to read ", name.as_str());
                message.append(" from ");
                message.append(package_path);
                message.append(": ");
                message.append(detail.as_str());
                message
            },
            PackageError::UnaddableDirectory(name, detail) => {
                let mut message = concat("failed to add directory ", name.as_str());
                message.append(" to repacked package: ");
                message.append(detail.as_str());
                message
            },
            PackageError::UnaddableFile(name, detail) => {
                let mut message = concat("failed to add ", name.as_str());
                message.append(" to repacked package: ");
                message.append(detail.as_str());
                message
            },
            PackageError::UnwritableManifest(detail) => {
                let mut message = concat("failed to write updated nuspec for ", package_path);
                message.append(": ");
                message.append(detail.as_str());
                message
            },
            PackageError::UncopiableFile(name, detail) => {
                let mut message = concat("failed to copy ", name.as_str());
                message.append(" into repacked package: ");
                message.append(detail.as_str());
                message
            },
            PackageError::Unfinished(detail) => {
                let mut message = concat("failed to finalize repacked package ", output_path);
                message.append(": ");
                message.append(detail.as_str());
                message
            },
            PackageError::Nuspec(cause) => cause.message(),
            PackageError::MissingNuspec => {
                let mut message = concat("package ", package_path);
                message.append(" does not contain a .nuspec file");
                message
            },
        }
    }
}

impl UploadError {
    /// What the error says.
    pub open spec fn text(self) -> Seq<char> {
        match self {
            UploadError::NoPackages(directories) => "no .nupkg files were found under "@
                + directories@,
            UploadError::MissingApiKey =>
                "missing API key; pass --api-key or set the packagingFeedKey environment variable"@,
            UploadError::InvalidFileName(path) => path@ + " does not have a valid file name"@,
            UploadError::UnopenablePackage(path, detail) => "failed to open "@ + path@ + ": "@
                + detail@,
            UploadError::Package(path, output_path, cause) => cause.text(path@, output_path@),
        }
    }

    /// Says what went wrong.
    pub fn message(&self) -> (message: String)
        ensures
            message@ == self.text(),
    {
        match self {
            UploadError::NoPackages(directories) => concat(
                "no .nupkg files were found under ",
                directories.as_str(),
            ),
            UploadError::MissingApiKey => owned(
                "missing API key; pass --api-key or set the packagingFeedKey environment variable",
            ),
            UploadError::InvalidFileName(path) => concat(
                path.as_str(),
                " does not have a valid file name",
            ),
            UploadError::UnopenablePackage(path, detail) => {
                let mut message = concat("failed to open ", path.as_str());
                message.append(": ");
                message.append(detail.as_str());
                message
            },
            UploadError::Package(path, output_path, cause) => cause.message(
                path.as_str(),
                output_path.as_str(),
            ),
        }
    }
}

/// Whether a file is a package to upload: a `.nupkg`, but no `.symbols.nupkg`.
pub open spec fn is_uploadable(platform: Platform, path: Seq<char>) -> bool {
    file_name_of(platform, path) matches Some(name) && ".nupkg"@.is_suffix_of(name)
        && !".symbols.nupkg"@.is_suffix_of(name)
}

/// Whether a file is a package to upload.
pub fn is_uploadable_package(platform: Platform, path: &str) -> (answer: bool)
    ensures
        answer == is_uploadable(platform, path@),
{
    match file_name(platform, path) {
        Some(name) => has_suffix(name.as_str(), ".nupkg") && !has_suffix(
            name.as_str(),
            ".symbols.nupkg",
        ),
        None => false,
    }
}

/// The packages among `files`.
pub open spec fn packages_among(platform: Platform, files: Seq<Seq<char>>) -> Seq<Seq<char>> {
    files.filter(|path: Seq<char>| is_uploadable(platform, path))
}

/// Whether `found` is what discovering packages among `files` gives: the packages in order, each
/// path once.
pub open spec fn is_discovery(
    platform: Platform,
    files: Seq<Seq<char>>,
    found: Seq<Seq<char>>,
) -> bool {
    exists|sorted: Seq<Seq<char>>| #[trigger]
        is_sorted_copy(packages_among(platform, files), sorted, path_order(platform)) && found
            == without_repeats(platform, sorted)
}

/// Finds the packages to upload among the files below the directories that are scanned.
pub fn discover_package_paths(platform: Platform, files: &Vec<String>) -> (found: Vec<String>)
    ensures
        is_discovery(platform, views(files@), views(found@)),
{
    let ghost all = views(files@);
    let ghost is_package = |path: Seq<char>| is_uploadable(platform, path);
    let mut packages: Vec<String> = Vec::new();
    let mut at: usize = 0;
    assert(all.take(0).filter(is_package) =~= Seq::<Seq<char>>::empty()) by {
        reveal(Seq::filter);
    }
    assert(views(packages@) =~= Seq::<Seq<char>>::empty());
    while at < files.len()
        invariant
            all == views(files@),
            is_package == (|path: Seq<char>| is_uploadable(platform, path)),
            at <= files@.len(),
            views(packages@) == all.take(at as int).filter(is_package),
        decreases files@.len() - at,
    {
        let ghost longer = all.take(at + 1);
        assert(longer.drop_last() =~= all.take(at as int));
        assert(longer.last() == files@[at as int]@);
        proof {
            reveal(Seq::filter);
        }
        if is_uploadable_package(platform, files[at].as_str()) {
            let path = files[at].clone();
            proof {
                lemma_views_push(packages@, path);
            }
            packages.push(path);
        }
        at += 1;
    }
    assert(all.take(at as int) =~= all);
    assert(views(packages@) == packages_among(platform, all));
    let sorted = sort_paths(platform, packages);
    assert(is_sorted_copy(packages_among(platform, all), views(sorted@), path_order(platform)));
    drop_repeats(platform, sorted)
}

/// Paths in one line.
pub fn display_paths(paths: &Vec<String>) -> (text: String)
    ensures
        text@ == joined(views(paths@), ", "@),
{
    join(paths, ", ")
}

/// Refuses to go on without packages.
pub fn require_packages(package_paths: &Vec<String>, directories: &Vec<String>) -> (result: Result<
    (),
    UploadError,
>)
    ensures
        match result {
            Ok(_) => package_paths@.len() > 0,
            Err(error) => package_paths@.len() == 0 && (error matches UploadError::NoPackages(text)
                && text@ == joined(views(directories@), ", "@)),
        },
{
    if package_paths.len() == 0 {
        Err(UploadError::NoPackages(display_paths(directories)))
    } else {
        Ok(())
    }
}

/// Refuses to push without an API key.
pub fn require_api_key(api_key: &Option<String>) -> (result: Result<String, UploadError>)
    ensures
        match *api_key {
            Some(key) => result matches Ok(given) && given@ == key@,
            None => result == Err::<String, UploadError>(UploadError::MissingApiKey),
        },
{
    match api_key {
        Some(key) => Ok(key.clone()),
        None => Err(UploadError::MissingApiKey),
    }
}

/// The name of the copy of a package while it is written.
pub fn temp_package_name(platform: Platform, package_path: &str) -> (result: Result<
    String,
    UploadError,
>)
    ensures
        match file_name_of(platform, package_path@) {
            Some(name) => result matches Ok(text) && text@ == stem_of(name) + ".tmp.nupkg"@,
            None => result matches Err(UploadError::InvalidFileName(path)) && path@ == package_path@,
        },
{
    match file_stem(platform, package_path) {
        Some(stem) => Ok(concat(stem.as_str(), ".tmp.nupkg")),
        None => Err(UploadError::InvalidFileName(owned(package_path))),
    }
}

/// The file name of a package: its id and its version.
pub open spec fn file_name_for(id: Seq<char>, version: Seq<char>) -> Seq<char> {
    id + "."@ + version + ".nupkg"@
}

/// The file name of a package.
pub fn package_file_name(identity: &PackageIdentity) -> (name: String)
    ensures
        name@ == file_name_for(identity.package_id@, identity.version@),
{
    let mut name = concat(identity.package_id.as_str(), ".");
    name.append(identity.version.as_str());
    name.append(".nupkg");
    name
}

/// The path of the copy of a package while it is written.
pub open spec fn temporary_path_of(
    platform: Platform,
    package_path: Seq<char>,
    output_directory: Seq<char>,
) -> Seq<char> {
    joined_path(
        platform,
        output_directory,
        stem_of(file_name_of(platform, package_path)->Some_0) + ".tmp.nupkg"@,
    )
}

/// Whether `result` is the upload of a package that was repacked with this outcome. A package
/// without a file name is refused, unless it was no archive in the first place.
pub open spec fn is_upload_of(
    platform: Platform,
    package_path: Seq<char>,
    output_directory: Seq<char>,
    repacked: Result<RepackedPackage, PackageError>,
    result: Result<PreparedUpload, UploadError>,
) -> bool {
    let temporary = temporary_path_of(platform, package_path, output_directory);
    if repacked matches Err(cause) && (cause is NotAnArchive || file_name_of(platform, package_path)
        is Some) {
        result matches Err(UploadError::Package(path, output_path, cause)) && path@ == package_path
            && cause == repacked->Err_0 && (file_name_of(platform, package_path) is Some ==> output_path@
            == temporary)
    } else if file_name_of(platform, package_path) is None {
        result matches Err(UploadError::InvalidFileName(path)) && path@ == package_path
    } else {
        let package = repacked->Ok_0;
        let id = package.identity.package_id@;
        let version = package.identity.version@;
        let target = joined_path(platform, output_directory, file_name_for(id, version));
        &&& result matches Ok(prepared)
        &&& prepared.upload.source_path@ == package_path
        &&& prepared.upload.upload_path@ == target
        &&& maybe_view(prepared.upload.package_id) == Some(id)
        &&& maybe_view(prepared.upload.package_version) == Some(version)
        &&& prepared.file matches Some(file)
        &&& file.temporary_path@ == temporary
        &&& file.is_moved == !same_path(platform, target, temporary)
        &&& file.contents@ == package.contents@
    }
}

/// Turns the outcome of repacking a package into its upload.
pub fn finish_upload(
    platform: Platform,
    package_path: &str,
    output_directory: &str,
    repacked: Result<RepackedPackage, PackageError>,
) -> (result: Result<PreparedUpload, UploadError>)
    ensures
        is_upload_of(platform, package_path@, output_directory@, repacked, result),
{
    let temporary_path = match temp_package_name(platform, package_path) {
        Ok(name) => join_path(platform, output_directory, name.as_str()),
        Err(error) => {
            return match repacked {
                Err(PackageError::NotAnArchive(detail)) => Err(
                    UploadError::Package(
                        owned(package_path),
                        String::new(),
                        PackageError::NotAnArchive(detail),
                    ),
                ),
                _ => Err(error),
            };
        },
    };
    match repacked {
        Err(cause) => Err(UploadError::Package(owned(package_path), temporary_path, cause)),
        Ok(package) => {
            let upload_path = join_path(
                platform,
                output_directory,
                package_file_name(&package.identity).as_str(),
            );
            let is_moved = !is_same_path(platform, upload_path.as_str(), temporary_path.as_str());
            let upload = PackageUpload {
                source_path: owned(package_path),
                upload_path,
                package_id: Some(package.identity.package_id),
                package_version: Some(package.identity.version),
            };
            let file = PreparedFile { temporary_path, is_moved, contents: package.contents };
            Ok(PreparedUpload { upload, file: Some(file) })
        },
    }
}

/// A copy of bytes.
fn copy_bytes(bytes: &Vec<u8>) -> (copy: Vec<u8>)
    ensures
        copy@ == bytes@,
{
    let mut copy: Vec<u8> = Vec::new();
    let mut at: usize = 0;
    while at < bytes.len()
        invariant
            at <= bytes@.len(),
            copy@ == bytes@.take(at as int),
        decreases bytes@.len() - at,
    {
        copy.push(bytes[at]);
        at += 1;
        assert(copy@ =~= bytes@.take(at as int));
    }
    assert(bytes@.take(at as int) =~= bytes@);
    copy
}

/// The identity that a package file has once its version is rewritten, where it can be read.
pub open spec fn file_identity(file: PackageFile, version_rewrite: VersionRewrite) -> Option<
    (Seq<char>, Seq<char>),
> {
    match file.contents {
        Ok(bytes) => package_identity(bytes@, version_rewrite),
        Err(_) => None,
    }
}

/// Whether `error` says why the identity of a package file cannot be read.
pub open spec fn is_file_identity_fault(
    file: PackageFile,
    version_rewrite: VersionRewrite,
    error: UploadError,
) -> bool {
    match file.contents {
        Ok(bytes) => error matches UploadError::Package(path, _, cause) && path@ == file.path@
            && is_identity_fault(bytes@, version_rewrite, cause),
        Err(detail) => error matches UploadError::UnopenablePackage(path, why) && path@
            == file.path@ && why@ == detail@,
    }
}

/// The versions of the first `count` packages, by their ids; a later package counts over an
/// earlier one with its id.
pub open spec fn collected_versions(
    files: Seq<PackageFile>,
    version_rewrite: VersionRewrite,
    count: int,
) -> Map<Seq<char>, Seq<char>>
    decreases count,
{
    if count <= 0 {
        Map::empty()
    } else {
        let identity = file_identity(files[count - 1], version_rewrite)->Some_0;
        collected_versions(files, version_rewrite, count - 1).insert(identity.0, identity.1)
    }
}

/// Whether collecting the versions of all packages has this result: their versions, or what is
/// wrong with the first whose identity cannot be read.
pub open spec fn is_collection(
    files: Seq<PackageFile>,
    version_rewrite: VersionRewrite,
    result: Result<TextMap, UploadError>,
) -> bool {
    match result {
        Ok(versions) => versions@ == collected_versions(
            files,
            version_rewrite,
            files.len() as int,
        ) && have_identities(files, version_rewrite, files.len() as int),
        Err(error) => exists|at: int|
            0 <= at < files.len() && have_identities(files, version_rewrite, at)
                && is_file_identity_fault(#[trigger] files[at], version_rewrite, error),
    }
}

/// Whether the identities of the first `count` packages can be read.
pub open spec fn have_identities(
    files: Seq<PackageFile>,
    version_rewrite: VersionRewrite,
    count: int,
) -> bool {
    forall|at: int|
        0 <= at < count ==> file_identity(#[trigger] files[at], version_rewrite) is Some
}

/// Collects the rewritten versions of all packages, by their ids.
pub fn collect_workspace_dependency_versions(
    package_files: &Vec<PackageFile>,
    version_rewrite: &VersionRewrite,
) -> (result: Result<TextMap, UploadError>)
    ensures
        is_collection(package_files@, *version_rewrite, result),
{
    let mut versions = TextMap::new();
    let mut at: usize = 0;
    while at < package_files.len()
        invariant
            at <= package_files@.len(),
            have_identities(package_files@, *version_rewrite, at as int),
            versions@ == collected_versions(package_files@, *version_rewrite, at as int),
        decreases package_files@.len() - at,
    {
        match &package_files[at].contents {
            Err(detail) => {
                let error = UploadError::UnopenablePackage(
                    package_files[at].path.clone(),
                    detail.clone(),
                );
                assert(is_file_identity_fault(package_files@[at as int], *version_rewrite, error));
                return Err(error);
            },
            Ok(bytes) => match read_package_identity_with_rewritten_version(
                copy_bytes(bytes),
                version_rewrite,
            ) {
                Err(cause) => {
                    let error = UploadError::Package(
                        package_files[at].path.clone(),
                        String::new(),
                        cause,
                    );
                    assert(is_file_identity_fault(
                        package_files@[at as int],
                        *version_rewrite,
                        error,
                    ));
                    return Err(error);
                },
                Ok(identity) => {
                    versions.insert(identity.package_id, identity.version);
                    at += 1;
                },
            },
        }
    }
    Ok(versions)
}

/// Whether `result` is the upload of a package file whose version is rewritten.
pub open spec fn is_file_upload(
    platform: Platform,
    file: PackageFile,
    version_rewrite: VersionRewrite,
    versions: Option<Map<Seq<char>, Seq<char>>>,
    output_directory: Seq<char>,
    result: Result<PreparedUpload, UploadError>,
) -> bool {
    match file.contents {
        Err(detail) => result matches Err(UploadError::UnopenablePackage(path, why)) && path@
            == file.path@ && why@ == detail@,
        Ok(bytes) => exists|repacked: Result<RepackedPackage, PackageError>| #[trigger]
            is_repack_result(bytes@, version_rewrite, versions, repacked) && is_upload_of(
                platform,
                file.path@,
                output_directory,
                repacked,
                result,
            ),
    }
}

/// Whether the upload of a package file can be prepared.
pub open spec fn can_be_prepared(
    platform: Platform,
    file: PackageFile,
    version_rewrite: VersionRewrite,
    versions: Option<Map<Seq<char>, Seq<char>>>,
    output_directory: Seq<char>,
) -> bool {
    exists|prepared: PreparedUpload| #[trigger]
        is_file_upload(
            platform,
            file,
            version_rewrite,
            versions,
            output_directory,
            Ok::<PreparedUpload, UploadError>(prepared),
        )
}

/// Whether the upload of a package file is sure to be prepared: it could be read, it has a file
/// name, and it can be repacked.
pub open spec fn is_ready(
    platform: Platform,
    file: PackageFile,
    version_rewrite: VersionRewrite,
    versions: Option<Map<Seq<char>, Seq<char>>>,
) -> bool {
    &&& file.contents matches Ok(bytes)
    &&& file_name_of(platform, file.path@) is Some
    &&& is_repackable(bytes@, version_rewrite, versions)
}

/// Prepares the upload of one package file whose version is rewritten.
fn prepare_rewritten_upload(
    platform: Platform,
    file: &PackageFile,
    version_rewrite: &VersionRewrite,
    workspace_dependency_versions: Option<&TextMap>,
    output_directory: &str,
) -> (result: Result<PreparedUpload, UploadError>)
    ensures
        is_file_upload(
            platform,
            *file,
            *version_rewrite,
            versions_view(workspace_dependency_versions),
            output_directory@,
            result,
        ),
        is_ready(platform, *file, *version_rewrite, versions_view(workspace_dependency_versions))
            ==> result is Ok,
{
    match &file.contents {
        Err(detail) => Err(
            UploadError::UnopenablePackage(file.path.clone(), detail.clone()),
        ),
        Ok(bytes) => {
            let repacked = repack_package_with_version(
                copy_bytes(bytes),
                version_rewrite,
                workspace_dependency_versions,
            );
            finish_upload(platform, file.path.as_str(), output_directory, repacked)
        },
    }
}

/// The upload of a package as it is.
pub open spec fn is_plain_upload(path: Seq<char>, prepared: PreparedUpload) -> bool {
    &&& prepared.upload.source_path@ == path
    &&& prepared.upload.upload_path@ == path
    &&& prepared.upload.package_id is None
    &&& prepared.upload.package_version is None
    &&& prepared.file is None
}

/// Prepares the uploads of packages that are pushed as they are.
pub fn prepare_plain_uploads(package_paths: &Vec<String>) -> (uploads: Vec<PreparedUpload>)
    ensures
        uploads@.len() == package_paths@.len(),
        forall|at: int|
            0 <= at < uploads@.len() ==> is_plain_upload(
                package_paths@[at]@,
                #[trigger] uploads@[at],
            ),
{
    let mut uploads: Vec<PreparedUpload> = Vec::new();
    let mut at: usize = 0;
    while at < package_paths.len()
        invariant
            at <= package_paths@.len(),
            uploads@.len() == at,
            forall|done: int|
                0 <= done < at ==> is_plain_upload(
                    package_paths@[done]@,
                    #[trigger] uploads@[done],
                ),
        decreases package_paths@.len() - at,
    {
        let upload = PackageUpload {
            source_path: package_paths[at].clone(),
            upload_path: package_paths[at].clone(),
            package_id: None,
            package_version: None,
        };
        uploads.push(PreparedUpload { upload, file: None });
        at += 1;
    }
    uploads
}

/// Whether preparing the uploads with these versions has this result: all of them, or what is wrong
/// with the first that cannot be prepared.
pub open spec fn are_file_uploads(
    platform: Platform,
    files: Seq<PackageFile>,
    version_rewrite: VersionRewrite,
    versions: Option<Map<Seq<char>, Seq<char>>>,
    output_directory: Seq<char>,
    result: Result<Vec<PreparedUpload>, UploadError>,
) -> bool {
    match result {
        Ok(uploads) => uploads@.len() == files.len() && forall|at: int|
            0 <= at < files.len() ==> is_file_upload(
                platform,
                files[at],
                version_rewrite,
                versions,
                output_directory,
                Ok::<PreparedUpload, UploadError>(#[trigger] uploads@[at]),
            ),
        Err(error) => exists|at: int|
            0 <= at < files.len() && is_file_upload(
                platform,
                #[trigger] files[at],
                version_rewrite,
                versions,
                output_directory,
                Err::<PreparedUpload, UploadError>(error),
            ) && forall|before: int|
                0 <= before < at ==> can_be_prepared(
                    platform,
                    #[trigger] files[before],
                    version_rewrite,
                    versions,
                    output_directory,
                ),
    }
}

/// The versions that dependencies follow: those of all packages, if they follow at all.
pub open spec fn followed_versions(
    files: Seq<PackageFile>,
    version_rewrite: VersionRewrite,
    rewrite_workspace_dependency_versions: bool,
) -> Option<Map<Seq<char>, Seq<char>>> {
    if rewrite_workspace_dependency_versions {
        Some(collected_versions(files, version_rewrite, files.len() as int))
    } else {
        None
    }
}

/// Prepares the uploads of packages whose version is rewritten. With
/// `rewrite_workspace_dependency_versions` the versions of all packages are collected first, and
/// the dependencies among them follow.
pub fn prepare_uploads(
    platform: Platform,
    package_files: &Vec<PackageFile>,
    version_rewrite: &VersionRewrite,
    rewrite_workspace_dependency_versions: bool,
    output_directory: &str,
) -> (result: Result<Vec<PreparedUpload>, UploadError>)
    ensures
        ({
            let versions = followed_versions(
                package_files@,
                *version_rewrite,
                rewrite_workspace_dependency_versions,
            );
            let count = package_files@.len() as int;
            let are_known = rewrite_workspace_dependency_versions ==> have_identities(
                package_files@,
                *version_rewrite,
                count,
            );
            &&& are_known ==> are_file_uploads(
                platform,
                package_files@,
                *version_rewrite,
                versions,
                output_directory@,
                result,
            )
            &&& !are_known ==> (result matches Err(error) && is_collection(
                package_files@,
                *version_rewrite,
                Err::<TextMap, UploadError>(error),
            ))
            &&& are_known && (forall|at: int|
                0 <= at < count ==> is_ready(
                    platform,
                    #[trigger] package_files@[at],
                    *version_rewrite,
                    versions,
                )) ==> result is Ok
        }),
{
    let versions = if rewrite_workspace_dependency_versions {
        match collect_workspace_dependency_versions(package_files, version_rewrite) {
            Ok(versions) => Some(versions),
            Err(error) => {
                return Err(error);
            },
        }
    } else {
        None
    };
    let followed = match &versions {
        Some(versions) => Some(versions),
        None => None,
    };
    let mut uploads: Vec<PreparedUpload> = Vec::new();
    let mut at: usize = 0;
    while at < package_files.len()
        invariant
            at <= package_files@.len(),
            uploads@.len() == at,
            rewrite_workspace_dependency_versions ==> have_identities(
                package_files@,
                *version_rewrite,
                package_files@.len() as int,
            ),
            versions_view(followed) == followed_versions(
                package_files@,
                *version_rewrite,
                rewrite_workspace_dependency_versions,
            ),
            forall|done: int|
                0 <= done < at ==> is_file_upload(
                    platform,
                    package_files@[done],
                    *version_rewrite,
                    versions_view(followed),
                    output_directory@,
                    Ok::<PreparedUpload, UploadError>(#[trigger] uploads@[done]),
                ),
        decreases package_files@.len() - at,
    {
        match prepare_rewritten_upload(
            platform,
            &package_files[at],
            version_rewrite,
            followed,
            output_directory,
        ) {
            Ok(upload) => {
                uploads.push(upload);
                at += 1;
            },
            Err(error) => {
                assert(is_file_upload(
                    platform,
                    package_files@[at as int],
                    *version_rewrite,
                    versions_view(followed),
                    output_directory@,
                    Err::<PreparedUpload, UploadError>(error),
                ));
                assert forall|before: int| 0 <= before < at implies can_be_prepared(
                    platform,
                    #[trigger] package_files@[before],
                    *version_rewrite,
                    versions_view(followed),
                    output_directory@,
                ) by {
                    assert(is_file_upload(
                        platform,
                        package_files@[before],
                        *version_rewrite,
                        versions_view(followed),
                        output_directory@,
                        Ok::<PreparedUpload, UploadError>(uploads@[before]),
                    ));
                }
                return Err(error);
            },
        }
    }
    Ok(uploads)
}

/// The arguments with which `dotnet` pushes a package.
pub open spec fn push_words(
    upload: PackageUpload,
    source: Seq<char>,
    api_key: Seq<char>,
    skip_duplicate: bool,
) -> Seq<Seq<char>> {
    let words = seq![
        "nuget"@,
        "push"@,
        upload.upload_path@,
        "--source"@,
        source,
        "--api-key"@,
        api_key,
    ];
    if skip_duplicate {
        words.push("--skip-duplicate"@)
    } else {
        words
    }
}

/// The arguments with which `dotnet` pushes a package.
pub fn push_arguments(
    upload: &PackageUpload,
    source: &str,
    api_key: &str,
    skip_duplicate: bool,
) -> (arguments: Vec<String>)
    ensures
        views(arguments@) == push_words(*upload, source@, api_key@, skip_duplicate),
{
    let mut arguments: Vec<String> = Vec::new();
    arguments.push(owned("nuget"));
    arguments.push(owned("push"));
    arguments.push(upload.upload_path.clone());
    arguments.push(owned("--source"));
    arguments.push(owned(source));
    arguments.push(owned("--api-key"));
    arguments.push(owned(api_key));
    if skip_duplicate {
        arguments.push(owned("--skip-duplicate"));
    }
    assert(views(arguments@) =~= push_words(*upload, source@, api_key@, skip_duplicate));
    arguments
}

/// The line of an upload in the plan.
pub open spec fn upload_line(upload: PackageUpload) -> Seq<char> {
    match (upload.package_id, upload.package_version) {
        (Some(id), Some(version)) => "upload "@ + upload.source_path@ + " as "@ + id@ + " "@
            + version@ + "\n"@,
        _ => "upload "@ + upload.upload_path@ + "\n"@,
    }
}

/// The lines of the first `count` uploads.
pub open spec fn upload_lines(uploads: Seq<PreparedUpload>, count: int) -> Seq<char>
    decreases count,
{
    if count <= 0 {
        Seq::empty()
    } else {
        upload_lines(uploads, count - 1) + upload_line(uploads[count - 1].upload)
    }
}

/// The text that announces what will be uploaded.
pub fn upload_plan_text(uploads: &Vec<PreparedUpload>, source: &str) -> (text: String)
    ensures
        text@ == "source: "@ + source@ + "\n"@ + upload_lines(uploads@, uploads@.len() as int),
{
    let mut text = concat("source: ", source);
    text.append("\n");
    let ghost head = text@;
    let mut at: usize = 0;
    assert(head + upload_lines(uploads@, 0) =~= head);
    while at < uploads.len()
        invariant
            at <= uploads@.len(),
            text@ == head + upload_lines(uploads@, at as int),
        decreases uploads@.len() - at,
    {
        let ghost before = upload_lines(uploads@, at as int);
        let mut line = owned("upload ");
        match (&uploads[at].upload.package_id, &uploads[at].upload.package_version) {
            (Some(id), Some(version)) => {
                line.append(uploads[at].upload.source_path.as_str());
                line.append(" as ");
                line.append(id.as_str());
                line.append(" ");
                line.append(version.as_str());
            },
            _ => {
                line.append(uploads[at].upload.upload_path.as_str());
            },
        }
        line.append("\n");
        text.append(line.as_str());
        assert(head + before + line@ =~= head + (before + line@));
        at += 1;
    }
    text
}

/// An error names the package or the entry that it is about, and what was wrong.
pub proof fn law_package_errors_name_their_subject(
    error: PackageError,
    package_path: Seq<char>,
    output_path: Seq<char>,
)
    ensures
        ({
            let text = error.text(package_path, output_path);
            match error {
                PackageError::NotAnArchive(detail) => {
                    &&& holds_part(text, package_path)
                    &&& holds_part(text, detail@)
                },
                PackageError::UnreadableEntry(index, detail) => {
                    &&& holds_part(text, decimal(index as nat))
                    &&& holds_part(text, package_path)
                    &&& holds_part(text, detail@)
                },
                PackageError::UnreadableContents(name, detail) => {
                    &&& holds_part(text, name@)
                    &&& holds_part(text, package_path)
                    &&& holds_part(text, detail@)
                },
                PackageError::UnaddableDirectory(name, detail) => {
                    &&& holds_part(text, name@)
                    &&& holds_part(text, detail@)
                },
                PackageError::UnaddableFile(name, detail) => {
                    &&& holds_part(text, name@)
                    &&& holds_part(text, detail@)
                },
                PackageError::UnwritableManifest(detail) => {
                    &&& holds_part(text, package_path)
                    &&& holds_part(text, detail@)
                },
                PackageError::UncopiableFile(name, detail) => {
                    &&& holds_part(text, name@)
                    &&& holds_part(text, detail@)
                },
                PackageError::Unfinished(detail) => {
                    &&& holds_part(text, output_path)
                    &&& holds_part(text, detail@)
                },
                PackageError::MissingNuspec => holds_part(text, package_path),
                _ => true,
            }
        }),
{
    let text = error.text(package_path, output_path);
    match error {
        PackageError::NotAnArchive(detail) => {
            let front = "failed to read "@;
            let back = " as a nupkg archive: "@ + detail@;
            assert(text =~= front + package_path + back);
            lemma_part_is_held(front, package_path, back);
            let front = "failed to read "@ + package_path + " as a nupkg archive: "@;
            let back = Seq::<char>::empty();
            assert(text =~= front + detail@ + back);
            lemma_part_is_held(front, detail@, back);
        },
        PackageError::UnreadableEntry(index, detail) => {
            let front = "failed to read zip entry "@;
            let back = " from "@ + package_path + ": "@ + detail@;
            assert(text =~= front + decimal(index as nat) + back);
            lemma_part_is_held(front, decimal(index as nat), back);
            let front = "failed to read zip entry "@ + decimal(index as nat) + " from "@;
            let back = ": "@ + detail@;
            assert(text =~= front + package_path + back);
            lemma_part_is_held(front, package_path, back);
            let front = "failed to read zip entry "@ + decimal(index as nat) + " from "@
                + package_path + ": "@;
            let back = Seq::<char>::empty();
            assert(text =~= front + detail@ + back);
            lemma_part_is_held(front, detail@, back);
        },
        PackageError::UnreadableContents(name, detail) => {
            let front = "failed to read "@;
            let back = " from "@ + package_path + ": "@ + detail@;
            assert(text =~= front + name@ + back);
            lemma_part_is_held(front, name@, back);
            let front = "failed to read "@ + name@ + " from "@;
            let back = ": "@ + detail@;
            assert(text =~= front + package_path + back);
            lemma_part_is_held(front, package_path, back);
            let front = "failed to read "@ + name@ + " from "@ + package_path + ": "@;
            let back = Seq::<char>::empty();
            assert(text =~= front + detail@ + back);
            lemma_part_is_held(front, detail@, back);
        },
        PackageError::UnaddableDirectory(name, detail) => {
            let front = "failed to add directory "@;
            let back = " to repacked package: "@ + detail@;
            assert(text =~= front + name@ + back);
            lemma_part_is_held(front, name@, back);
            let front = "failed to add directory "@ + name@ + " to repacked package: "@;
            let back = Seq::<char>::empty();
            assert(text =~= front + detail@ + back);
            lemma_part_is_held(front, detail@, back);
        },
        PackageError::UnaddableFile(name, detail) => {
            let front = "failed to add "@;
            let back = " to repacked package: "@ + detail@;
            assert(text =~= front + name@ + back);
            lemma_part_is_held(front, name@, back);
            let front = "failed to add "@ + name@ + " to repacked package: "@;
            let back = Seq::<char>::empty();
            assert(text =~= front + detail@ + back);
            lemma_part_is_held(front, detail@, back);
        },
        PackageError::UnwritableManifest(detail) => {
            let front = "failed to write updated nuspec for "@;
            let back = ": "@ + detail@;
            assert(text =~= front + package_path + back);
            lemma_part_is_held(front, package_path, back);
            let front = "failed to write updated nuspec for "@ + package_path + ": "@;
            let back = Seq::<char>::empty();
            assert(text =~= front + detail@ + back);
            lemma_part_is_held(front, detail@, back);
        },
        PackageError::UncopiableFile(name, detail) => {
            let front = "failed to copy "@;
            let back = " into repacked package: "@ + detail@;
            assert(text =~= front + name@ + back);
            lemma_part_is_held(front, name@, back);
            let front = "failed to copy "@ + name@ + " into repacked package: "@;
            let back = Seq::<char>::empty();
            assert(text =~= front + detail@ + back);
            lemma_part_is_held(front, detail@, back);
        },
        PackageError::Unfinished(detail) => {
            let front = "failed to finalize repacked package "@;
            let back = ": "@ + detail@;
            assert(text =~= front + output_path + back);
            lemma_part_is_held(front, output_path, back);
            let front = "failed to finalize repacked package "@ + output_path + ": "@;
            let back = Seq::<char>::empty();
            assert(text =~= front + detail@ + back);
            lemma_part_is_held(front, detail@, back);
        },
        PackageError::MissingNuspec => {
            let front = "package "@;
            let back = " does not contain a .nuspec file"@;
            assert(text =~= front + package_path + back);
            lemma_part_is_held(front, package_path, back);
        },
        _ => {},
    }
}

/// An error names the directories or the package that it is about, and what was wrong.
pub proof fn law_upload_errors_name_their_subject(error: UploadError)
    ensures
        ({
            let text = error.text();
            match error {
                UploadError::NoPackages(directories) => holds_part(text, directories@),
                UploadError::InvalidFileName(path) => holds_part(text, path@),
                UploadError::UnopenablePackage(path, detail) => {
                    &&& holds_part(text, path@)
                    &&& holds_part(text, detail@)
                },
                _ => true,
            }
        }),
{
    let text = error.text();
    match error {
        UploadError::NoPackages(directories) => {
            let front = "no .nupkg files were found under "@;
            let back = Seq::<char>::empty();
            assert(text =~= front + directories@ + back);
            lemma_part_is_held(front, directories@, back);
        },
        UploadError::InvalidFileName(path) => {
            let front = Seq::<char>::empty();
            let back = " does not have a valid file name"@;
            assert(text =~= front + path@ + back);
            lemma_part_is_held(front, path@, back);
        },
        UploadError::UnopenablePackage(path, detail) => {
            let front = "failed to open "@;
            let back = ": "@ + detail@;
            assert(text =~= front + path@ + back);
            lemma_part_is_held(front, path@, back);
            let front = "failed to open "@ + path@ + ": "@;
            let back = Seq::<char>::empty();
            assert(text =~= front + detail@ + back);
            lemma_part_is_held(front, detail@, back);
        },
        _ => {},
    }
}

} // verus!
