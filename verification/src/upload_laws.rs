//! What finding and preparing packages promises.

use vstd::prelude::*;

use crate::nuspec::with_versions;
use crate::order::lemma_place_fits;
use crate::package::{
    is_identity_fault, is_repack_result, is_repackable, package_identity, PackageError,
    RepackedPackage,
};
use crate::path_order::{lemma_components_antisymmetric, path_at_most, path_order, without_repeats};
use crate::paths::{components, file_name_of, joined_path, same_path, stem_of};
use crate::platform::Platform;
use crate::sorting::{is_arranged, is_sorted_copy, is_stable_listing};
use crate::text_map::TextMap;
use crate::uploads::{
    are_file_uploads, can_be_prepared, collected_versions, file_identity, followed_versions,
    have_identities, is_collection, is_discovery, is_file_identity_fault, is_file_upload,
    is_plain_upload, is_ready, is_upload_of, is_uploadable, packages_among, push_words, upload_line,
    upload_lines, PackageFile, PackageUpload, PreparedUpload, UploadError,
};
use crate::version::VersionRewrite;
use crate::xml::{ElementView, NodeView};

verus! {

/// Whether each path may stand before all later ones.
pub open spec fn is_ascending(platform: Platform, paths: Seq<Seq<char>>) -> bool {
    forall|left: int, right: int|
        0 <= left < right < paths.len() ==> path_at_most(
            platform,
            #[trigger] paths[left],
            #[trigger] paths[right],
        )
}

/// Whether no two paths have the same components.
pub open spec fn has_no_repeats(platform: Platform, paths: Seq<Seq<char>>) -> bool {
    forall|left: int, right: int|
        0 <= left < right < paths.len() ==> !same_path(
            platform,
            #[trigger] paths[left],
            #[trigger] paths[right],
        )
}

/// What dropping repeats keeps: something for every path, and only what was there.
proof fn lemma_kept(platform: Platform, paths: Seq<Seq<char>>)
    ensures
        paths.len() > 0 ==> without_repeats(platform, paths).len() > 0 && same_path(
            platform,
            without_repeats(platform, paths).last(),
            paths.last(),
        ),
        forall|at: int|
            0 <= at < without_repeats(platform, paths).len() ==> paths.contains(
                #[trigger] without_repeats(platform, paths)[at],
            ),
        forall|at: int|
            0 <= at < paths.len() ==> stands_for_one(
                platform,
                without_repeats(platform, paths),
                #[trigger] paths[at],
            ),
    decreases paths.len(),
{
    if paths.len() > 0 {
        let front = paths.drop_last();
        let last = paths.last();
        let before = without_repeats(platform, front);
        let kept = without_repeats(platform, paths);
        lemma_kept(platform, front);
        assert(same_path(platform, kept.last(), last));
        assert forall|at: int| 0 <= at < kept.len() implies paths.contains(
            #[trigger] kept[at],
        ) by {
            if at < before.len() {
                assert(front.contains(before[at]));
                let place = choose|place: int| 0 <= place < front.len() && front[place] == before[at];
                assert(paths[place] == kept[at]);
            } else {
                assert(paths[paths.len() - 1] == kept[at]);
            }
        }
        assert forall|at: int| 0 <= at < paths.len() implies stands_for_one(
            platform,
            kept,
            #[trigger] paths[at],
        ) by {
            if at < front.len() {
                assert(stands_for_one(platform, before, front[at]));
                let place = choose|place: int|
                    0 <= place < before.len() && same_path(
                        platform,
                        #[trigger] before[place],
                        front[at],
                    );
                assert(kept[place] == before[place]);
            } else {
                assert(kept[kept.len() - 1] == kept.last());
            }
        }
    }
}

/// Dropping repeats from an ascending list keeps it ascending, and leaves no repeats.
proof fn lemma_without_repeats(platform: Platform, paths: Seq<Seq<char>>)
    requires
        is_ascending(platform, paths),
    ensures
        is_ascending(platform, without_repeats(platform, paths)),
        has_no_repeats(platform, without_repeats(platform, paths)),
    decreases paths.len(),
{
    if paths.len() > 0 {
        let front = paths.drop_last();
        let last = paths.last();
        let before = without_repeats(platform, front);
        let kept = without_repeats(platform, paths);
        assert(is_ascending(platform, front)) by {
            assert forall|left: int, right: int|
                0 <= left < right < front.len() implies path_at_most(
                platform,
                #[trigger] front[left],
                #[trigger] front[right],
            ) by {
                assert(path_at_most(platform, paths[left], paths[right]));
            }
        }
        lemma_without_repeats(platform, front);
        lemma_kept(platform, front);
        if kept.len() > before.len() {
            assert forall|left: int, right: int| 0 <= left < right < kept.len() implies path_at_most(
                platform,
                #[trigger] kept[left],
                #[trigger] kept[right],
            ) && !same_path(platform, kept[left], kept[right]) by {
                assert(kept[left] == before[left]);
                if right < before.len() {
                    assert(kept[right] == before[right]);
                } else {
                    lemma_stands_before_last(platform, paths, left);
                }
            }
        }
    }
}

/// In an ascending list, what was kept before the last path stands before it, and is another path
/// where the last one is kept too.
proof fn lemma_stands_before_last(platform: Platform, paths: Seq<Seq<char>>, at: int)
    requires
        is_ascending(platform, paths),
        paths.len() > 0,
        is_ascending(platform, without_repeats(platform, paths.drop_last())),
        0 <= at < without_repeats(platform, paths.drop_last()).len(),
        !same_path(
            platform,
            without_repeats(platform, paths.drop_last()).last(),
            paths.last(),
        ),
    ensures
        path_at_most(platform, without_repeats(platform, paths.drop_last())[at], paths.last()),
        !same_path(platform, without_repeats(platform, paths.drop_last())[at], paths.last()),
{
    let front = paths.drop_last();
    let last = paths.last();
    let before = without_repeats(platform, front);
    let end = before.len() - 1;
    lemma_kept(platform, front);
    lemma_member_before_last(platform, paths, before[at]);
    lemma_member_before_last(platform, paths, before[end]);
    if same_path(platform, before[at], last) && at < end {
        assert(path_at_most(platform, before[at], before[end]));
        lemma_components_antisymmetric(
            components(platform, before[at]),
            components(platform, before[end]),
        );
    }
}

/// In an ascending list, every path before the last one stands before it.
proof fn lemma_member_before_last(platform: Platform, paths: Seq<Seq<char>>, path: Seq<char>)
    requires
        is_ascending(platform, paths),
        paths.len() > 0,
        paths.drop_last().contains(path),
    ensures
        path_at_most(platform, path, paths.last()),
{
    let front = paths.drop_last();
    let place = choose|place: int| 0 <= place < front.len() && front[place] == path;
    assert(path_at_most(platform, paths[place], paths[paths.len() - 1]));
}

/// Whether one of `paths` has the same components as `path`.
pub open spec fn stands_for_one(platform: Platform, paths: Seq<Seq<char>>, path: Seq<char>) -> bool {
    exists|at: int| 0 <= at < paths.len() && same_path(platform, #[trigger] paths[at], path)
}

/// Every package that is found is one of the files, and one to upload.
pub proof fn law_only_packages_are_found(
    platform: Platform,
    files: Seq<Seq<char>>,
    found: Seq<Seq<char>>,
    at: int,
)
    requires
        is_discovery(platform, files, found),
        0 <= at < found.len(),
    ensures
        files.contains(found[at]),
        is_uploadable(platform, found[at]),
{
    let sorted = lemma_discovered(platform, files, found);
    lemma_kept(platform, sorted);
    assert(sorted.contains(found[at]));
    let place = choose|place: int| 0 <= place < sorted.len() && sorted[place] == found[at];
    let packages = packages_among(platform, files);
    let order = choose|order: Seq<usize>|
        is_stable_listing(packages, order, path_order(platform)) && is_arranged(
            packages,
            order,
            sorted,
        );
    assert(sorted[place] == packages[order[place] as int]);
    files.lemma_filter_contains_rev(|path: Seq<char>| is_uploadable(platform, path), found[at]);
    broadcast use vstd::seq_lib::group_filter_ensures;

}

/// Every package among the files is found, under this path or one with the same components.
pub proof fn law_every_package_is_found(
    platform: Platform,
    files: Seq<Seq<char>>,
    found: Seq<Seq<char>>,
    at: int,
)
    requires
        is_discovery(platform, files, found),
        0 <= at < files.len(),
        is_uploadable(platform, files[at]),
    ensures
        stands_for_one(platform, found, files[at]),
{
    let sorted = lemma_discovered(platform, files, found);
    lemma_kept(platform, sorted);
    let packages = packages_among(platform, files);
    broadcast use vstd::seq_lib::group_filter_ensures;

    assert(packages.contains(files[at]));
    let place = choose|place: int| 0 <= place < packages.len() && packages[place] == files[at];
    let order = choose|order: Seq<usize>|
        is_stable_listing(packages, order, path_order(platform)) && is_arranged(
            packages,
            order,
            sorted,
        );
    lemma_place_fits(order, packages.len(), place);
    let spot = choose|spot: int| 0 <= spot < order.len() && order[spot] == place;
    assert(sorted[spot] == files[at]);
    assert(stands_for_one(platform, found, sorted[spot]));
}

/// No package is found twice, and they are found in the order of their paths.
pub proof fn law_packages_are_found_once_in_order(
    platform: Platform,
    files: Seq<Seq<char>>,
    found: Seq<Seq<char>>,
)
    requires
        is_discovery(platform, files, found),
    ensures
        is_ascending(platform, found),
        has_no_repeats(platform, found),
{
    let sorted = lemma_discovered(platform, files, found);
    lemma_without_repeats(platform, sorted);
}

/// What was found comes from an ascending list.
proof fn lemma_discovered(
    platform: Platform,
    files: Seq<Seq<char>>,
    found: Seq<Seq<char>>,
) -> (sorted: Seq<Seq<char>>)
    requires
        is_discovery(platform, files, found),
    ensures
        is_sorted_copy(packages_among(platform, files), sorted, path_order(platform)),
        found == without_repeats(platform, sorted),
        is_ascending(platform, sorted),
{
    let sorted = choose|sorted: Seq<Seq<char>>| #[trigger]
        is_sorted_copy(packages_among(platform, files), sorted, path_order(platform)) && found
            == without_repeats(platform, sorted);
    let packages = packages_among(platform, files);
    let order = choose|order: Seq<usize>|
        is_stable_listing(packages, order, path_order(platform)) && is_arranged(
            packages,
            order,
            sorted,
        );
    assert forall|left: int, right: int| 0 <= left < right < sorted.len() implies path_at_most(
        platform,
        #[trigger] sorted[left],
        #[trigger] sorted[right],
    ) by {
        assert(sorted[left] == packages[order[left] as int]);
        assert(sorted[right] == packages[order[right] as int]);
        assert(order[left] < packages.len() && order[right] < packages.len());
        assert(path_order(platform)(packages[order[left] as int], packages[order[right] as int]));
    }
    sorted
}

/// Every package of a scan has a version in the collection: its own, or that of a later package
/// with the same id.
pub proof fn law_every_package_has_a_version(
    files: Seq<PackageFile>,
    version_rewrite: VersionRewrite,
    count: int,
    at: int,
)
    requires
        0 <= at < count <= files.len(),
        have_identities(files, version_rewrite, count),
    ensures
        ({
            let id = file_identity(files[at], version_rewrite)->Some_0.0;
            let versions = collected_versions(files, version_rewrite, count);
            &&& versions.contains_key(id)
            &&& exists|later: int|
                at <= later < count && #[trigger] file_identity(files[later], version_rewrite)
                    == Some((id, versions[id]))
        }),
    decreases count,
{
    let id = file_identity(files[at], version_rewrite)->Some_0.0;
    let last = file_identity(files[count - 1], version_rewrite);
    assert(last is Some);
    if last->Some_0.0 == id {
        assert(last == Some((id, collected_versions(files, version_rewrite, count)[id])));
    } else {
        law_every_package_has_a_version(files, version_rewrite, count - 1, at);
    }
}

/// A dependency on a package of the scan gets the version that the package gets, where no other
/// package has its id.
pub proof fn law_dependency_follows_its_package(
    files: Seq<PackageFile>,
    version_rewrite: VersionRewrite,
    at: int,
    dependency: ElementView,
)
    requires
        0 <= at < files.len(),
        have_identities(files, version_rewrite, files.len() as int),
        dependency.name == "dependency"@,
        dependency.attributes.contains_key("id"@),
        dependency.attributes["id"@] == file_identity(files[at], version_rewrite)->Some_0.0,
        forall|other: int|
            0 <= other < files.len() && other != at ==> (#[trigger] file_identity(
                files[other],
                version_rewrite,
            ))->Some_0.0 != dependency.attributes["id"@],
    ensures
        ({
            let versions = collected_versions(files, version_rewrite, files.len() as int);
            with_versions(dependency, versions).attributes["version"@] == file_identity(
                files[at],
                version_rewrite,
            )->Some_0.1
        }),
{
    law_every_package_has_a_version(files, version_rewrite, files.len() as int, at);
    let id = dependency.attributes["id"@];
    let versions = collected_versions(files, version_rewrite, files.len() as int);
    let later = choose|later: int|
        at <= later < files.len() && #[trigger] file_identity(files[later], version_rewrite)
            == Some((id, versions[id]));
    assert(later == at);
}

/// What depends on no package of the scan keeps its attributes.
pub proof fn law_other_elements_keep_their_attributes(
    element: ElementView,
    versions: Map<Seq<char>, Seq<char>>,
)
    requires
        element.name != "dependency"@ || !element.attributes.contains_key("id"@)
            || !versions.contains_key(element.attributes["id"@]),
    ensures
        with_versions(element, versions).attributes == element.attributes,
        with_versions(element, versions).name == element.name,
        with_versions(element, versions).children.len() == element.children.len(),
{
}

/// Following the versions again changes nothing.
pub proof fn law_following_again_changes_nothing(
    element: ElementView,
    versions: Map<Seq<char>, Seq<char>>,
)
    ensures
        with_versions(with_versions(element, versions), versions) == with_versions(
            element,
            versions,
        ),
    decreases element,
{
    reveal_strlit("id");
    reveal_strlit("version");
    assert("id"@.len() != "version"@.len());
    let once = with_versions(element, versions);
    let twice = with_versions(once, versions);
    assert(twice.attributes =~= once.attributes);
    assert forall|at: int| 0 <= at < element.children.len() implies #[trigger] twice.children[at]
        == once.children[at] by {
        if let NodeView::Element(child) = element.children[at] {
            assert(decreases_to!(element => element.children[at]));
            law_following_again_changes_nothing(child, versions);
        }
    }
    assert(twice.children =~= once.children);
}

/// A file is uploaded exactly where its name ends in `.nupkg`, but not in `.symbols.nupkg`.
pub proof fn law_names_of_packages(platform: Platform, path: Seq<char>)
    ensures
        is_uploadable(platform, path) <==> (file_name_of(platform, path) matches Some(name)
            && name.len() >= 6 && name.skip(name.len() - 6) == seq!['.', 'n', 'u', 'p', 'k', 'g']
            && !(name.len() >= 14 && name.skip(name.len() - 14) == seq![
            '.',
            's',
            'y',
            'm',
            'b',
            'o',
            'l',
            's',
            '.',
            'n',
            'u',
            'p',
            'k',
            'g',
        ])),
{
    reveal_strlit(".nupkg");
    reveal_strlit(".symbols.nupkg");
    assert(".nupkg"@ =~= seq!['.', 'n', 'u', 'p', 'k', 'g']);
    assert(".symbols.nupkg"@ =~= seq![
        '.',
        's',
        'y',
        'm',
        'b',
        'o',
        'l',
        's',
        '.',
        'n',
        'u',
        'p',
        'k',
        'g',
    ]);
    if let Some(name) = file_name_of(platform, path) {
        if name.len() >= 6 {
            assert(name.skip(name.len() - 6) =~= name.subrange(
                name.len() - 6,
                name.len() as int,
            ));
        }
        if name.len() >= 14 {
            assert(name.skip(name.len() - 14) =~= name.subrange(
                name.len() - 14,
                name.len() as int,
            ));
        }
    }
}

/// Every collected version is that of a package, the last that has the id.
pub proof fn law_versions_come_from_packages(
    files: Seq<PackageFile>,
    version_rewrite: VersionRewrite,
    count: int,
    id: Seq<char>,
) -> (at: int)
    requires
        0 <= count <= files.len(),
        have_identities(files, version_rewrite, count),
        collected_versions(files, version_rewrite, count).contains_key(id),
    ensures
        0 <= at < count,
        file_identity(files[at], version_rewrite) == Some(
            (id, collected_versions(files, version_rewrite, count)[id]),
        ),
        forall|later: int|
            at < later < count ==> (#[trigger] file_identity(
                files[later],
                version_rewrite,
            ))->Some_0.0 != id,
    decreases count,
{
    let identity = file_identity(files[count - 1], version_rewrite);
    if count > 0 && identity->Some_0.0 == id {
        assert(files[count - 1] == files[count - 1]);
        count - 1
    } else {
        law_versions_come_from_packages(files, version_rewrite, count - 1, id)
    }
}

/// A file has an identity exactly where it can be opened and its package has one.
pub proof fn law_files_have_the_identity_of_their_package(
    file: PackageFile,
    version_rewrite: VersionRewrite,
)
    ensures
        match file_identity(file, version_rewrite) {
            Some(identity) => file.contents matches Ok(bytes) && package_identity(
                bytes@,
                version_rewrite,
            ) == Some(identity),
            None => file.contents matches Ok(bytes) ==> package_identity(bytes@, version_rewrite)
                is None,
        },
{
}

/// Collecting the versions fails only at the first file without an identity: it names its path, and
/// what was wrong where it could not be opened.
pub proof fn law_collecting_stops_at_the_first_fault(
    files: Seq<PackageFile>,
    version_rewrite: VersionRewrite,
    error: UploadError,
) -> (at: int)
    requires
        is_collection(files, version_rewrite, Err::<TextMap, UploadError>(error)),
    ensures
        0 <= at < files.len(),
        forall|before: int|
            0 <= before < at ==> file_identity(#[trigger] files[before], version_rewrite) is Some,
        match error {
            UploadError::UnopenablePackage(path, why) => path@ == files[at].path@ && (
            files[at].contents matches Err(detail) && why@ == detail@),
            UploadError::Package(path, _, cause) => path@ == files[at].path@ && (
            files[at].contents matches Ok(bytes) && is_identity_fault(
                bytes@,
                version_rewrite,
                cause,
            )),
            _ => false,
        },
{
    choose|at: int|
        0 <= at < files.len() && have_identities(files, version_rewrite, at)
            && is_file_identity_fault(#[trigger] files[at], version_rewrite, error)
}

/// The uploads are those of the files, one for each and in their order. Each comes from the path of
/// its file, and goes to the output directory under the id and the version that it has.
pub proof fn law_every_file_has_its_upload(
    platform: Platform,
    files: Seq<PackageFile>,
    version_rewrite: VersionRewrite,
    versions: Option<Map<Seq<char>, Seq<char>>>,
    output_directory: Seq<char>,
    uploads: Vec<PreparedUpload>,
    at: int,
) -> (package: RepackedPackage)
    requires
        are_file_uploads(
            platform,
            files,
            version_rewrite,
            versions,
            output_directory,
            Ok::<Vec<PreparedUpload>, UploadError>(uploads),
        ),
        0 <= at < files.len(),
    ensures
        uploads@.len() == files.len(),
        ({
            let upload = uploads@[at].upload;
            let file = uploads@[at].file->Some_0;
            &&& files[at].contents matches Ok(bytes)
            &&& is_repack_result(
                bytes@,
                version_rewrite,
                versions,
                Ok::<RepackedPackage, PackageError>(package),
            )
            &&& upload.source_path@ == files[at].path@
            &&& upload.package_id is Some
            &&& upload.package_id->Some_0@ == package.identity.package_id@
            &&& upload.package_version is Some
            &&& upload.package_version->Some_0@ == package.identity.version@
            &&& upload.upload_path@ == joined_path(
                platform,
                output_directory,
                upload.package_id->Some_0@ + seq!['.'] + upload.package_version->Some_0@
                    + ".nupkg"@,
            )
            &&& uploads@[at].file is Some
            &&& file.contents@ == package.contents@
            &&& file_name_of(platform, files[at].path@) is Some
            &&& file.temporary_path@ == joined_path(
                platform,
                output_directory,
                stem_of(file_name_of(platform, files[at].path@)->Some_0) + ".tmp.nupkg"@,
            )
            &&& !file.is_moved <==> components(platform, file.temporary_path@) == components(
                platform,
                upload.upload_path@,
            )
        }),
{
    reveal_strlit(".");
    assert("."@ =~= seq!['.']);
    assert(uploads@[at] == uploads@[at]);
    let result = Ok::<PreparedUpload, UploadError>(uploads@[at]);
    assert(is_file_upload(
        platform,
        files[at],
        version_rewrite,
        versions,
        output_directory,
        result,
    ));
    let bytes = files[at].contents->Ok_0;
    let repacked = choose|repacked: Result<RepackedPackage, PackageError>| #[trigger]
        is_repack_result(bytes@, version_rewrite, versions, repacked) && is_upload_of(
            platform,
            files[at].path@,
            output_directory,
            repacked,
            result,
        );
    repacked->Ok_0
}

/// Uploads of files without rewriting are the files themselves, under no other name.
pub proof fn law_plain_uploads_change_nothing(path: Seq<char>, prepared: PreparedUpload)
    requires
        is_plain_upload(path, prepared),
    ensures
        prepared.upload.source_path@ == path,
        prepared.upload.upload_path@ == path,
        prepared.file is None,
        prepared.upload.package_id is None,
        prepared.upload.package_version is None,
{
}

/// Preparing fails at a file that could not be opened, has no name or could not be repacked, and
/// names it.
pub proof fn law_failed_upload_names_its_file(
    platform: Platform,
    files: Seq<PackageFile>,
    version_rewrite: VersionRewrite,
    versions: Option<Map<Seq<char>, Seq<char>>>,
    output_directory: Seq<char>,
    error: UploadError,
) -> (at: int)
    requires
        are_file_uploads(
            platform,
            files,
            version_rewrite,
            versions,
            output_directory,
            Err::<Vec<PreparedUpload>, UploadError>(error),
        ),
    ensures
        0 <= at < files.len(),
        match error {
            UploadError::UnopenablePackage(path, why) => path@ == files[at].path@ && (
            files[at].contents matches Err(detail) && why@ == detail@),
            UploadError::InvalidFileName(path) => path@ == files[at].path@ && file_name_of(
                platform,
                files[at].path@,
            ) is None,
            UploadError::Package(path, _, cause) => path@ == files[at].path@ && (
            files[at].contents matches Ok(bytes) && is_repack_result(
                bytes@,
                version_rewrite,
                versions,
                Err::<RepackedPackage, PackageError>(cause),
            )),
            _ => false,
        },
        forall|before: int|
            0 <= before < at ==> (#[trigger] files[before]).contents is Ok && file_name_of(
                platform,
                files[before].path@,
            ) is Some,
{
    let failed = Err::<PreparedUpload, UploadError>(error);
    let at = choose|at: int|
        0 <= at < files.len() && is_file_upload(
            platform,
            #[trigger] files[at],
            version_rewrite,
            versions,
            output_directory,
            failed,
        ) && forall|before: int|
            0 <= before < at ==> can_be_prepared(
                platform,
                #[trigger] files[before],
                version_rewrite,
                versions,
                output_directory,
            );
    assert forall|before: int| 0 <= before < at implies (#[trigger] files[before]).contents is Ok
        && file_name_of(platform, files[before].path@) is Some by {
        assert(can_be_prepared(
            platform,
            files[before],
            version_rewrite,
            versions,
            output_directory,
        ));
    }
    at
}

/// What is pushed: the package at its path, to the source, with the key.
pub proof fn law_words_of_a_push(
    upload: PackageUpload,
    source: Seq<char>,
    api_key: Seq<char>,
    skip_duplicate: bool,
)
    ensures
        ({
            let words = push_words(upload, source, api_key, skip_duplicate);
            &&& words.take(2) == seq!["nuget"@, "push"@]
            &&& words[2] == upload.upload_path@
            &&& exists|at: int|
                2 < at < words.len() - 1 && #[trigger] words[at] == "--source"@ && words[at + 1]
                    == source
            &&& exists|at: int|
                2 < at < words.len() - 1 && #[trigger] words[at] == "--api-key"@ && words[at + 1]
                    == api_key
            &&& words.len() == if skip_duplicate {
                8nat
            } else {
                7nat
            }
            &&& skip_duplicate ==> words.last() == "--skip-duplicate"@
        }),
{
    let words = push_words(upload, source, api_key, skip_duplicate);
    assert(words.take(2) =~= seq!["nuget"@, "push"@]);
    assert(words[3] == "--source"@ && words[4] == source);
    assert(words[5] == "--api-key"@ && words[6] == api_key);
}

/// The plan of the uploads has a line for each, in their order: the lines of the first ones, and
/// then that of the next.
pub proof fn law_plan_has_a_line_for_each_upload(uploads: Seq<PreparedUpload>, at: int)
    requires
        0 <= at < uploads.len(),
    ensures
        upload_lines(uploads, 0).len() == 0,
        ({
            let upload = uploads[at].upload;
            let line = match (upload.package_id, upload.package_version) {
                (Some(id), Some(version)) => upload.source_path@ + " as "@ + id@ + " "@ + version@,
                _ => upload.upload_path@,
            };
            upload_lines(uploads, at + 1) == upload_lines(uploads, at) + ("upload "@ + line
                + "\n"@)
        }),
        forall|count: int|
            0 <= count <= uploads.len() ==> upload_lines(uploads.take(count), count)
                == #[trigger] upload_lines(uploads, count),
{
    let upload = uploads[at].upload;
    let line = match (upload.package_id, upload.package_version) {
        (Some(id), Some(version)) => upload.source_path@ + " as "@ + id@ + " "@ + version@,
        _ => upload.upload_path@,
    };
    assert(upload_line(upload) =~= "upload "@ + line + "\n"@);
    assert(upload_lines(uploads, at + 1) =~= upload_lines(uploads, at) + ("upload "@ + line
        + "\n"@));
    assert forall|count: int| 0 <= count <= uploads.len() implies upload_lines(
        uploads.take(count),
        count,
    ) == #[trigger] upload_lines(uploads, count) by {
        lemma_lines_of_a_part(uploads.take(count), uploads, count);
    }
}

proof fn lemma_lines_of_a_part(
    part: Seq<PreparedUpload>,
    uploads: Seq<PreparedUpload>,
    count: int,
)
    requires
        0 <= count <= part.len() <= uploads.len(),
        forall|at: int| 0 <= at < part.len() ==> part[at] == uploads[at],
    ensures
        upload_lines(part, count) == upload_lines(uploads, count),
    decreases count,
{
    if count > 0 {
        lemma_lines_of_a_part(part, uploads, count - 1);
    }
}

/// Dependencies follow the packages only on request, and then all of them.
pub proof fn law_dependencies_follow_on_request(
    files: Seq<PackageFile>,
    version_rewrite: VersionRewrite,
    is_requested: bool,
)
    requires
        have_identities(files, version_rewrite, files.len() as int),
    ensures
        followed_versions(files, version_rewrite, is_requested) is Some <==> is_requested,
        is_requested ==> forall|at: int|
            0 <= at < files.len() ==> followed_versions(
                files,
                version_rewrite,
                true,
            )->Some_0.contains_key(
                (#[trigger] file_identity(files[at], version_rewrite))->Some_0.0,
            ),
        is_requested ==> forall|id: Seq<char>| #[trigger]
            followed_versions(files, version_rewrite, true)->Some_0.contains_key(id)
                ==> exists|at: int|
                0 <= at < files.len() && #[trigger] file_identity(files[at], version_rewrite)
                    == Some((id, followed_versions(files, version_rewrite, true)->Some_0[id])),
{
    let count = files.len() as int;
    let versions = collected_versions(files, version_rewrite, count);
    if is_requested {
        assert forall|at: int| 0 <= at < files.len() implies versions.contains_key(
            (#[trigger] file_identity(files[at], version_rewrite))->Some_0.0,
        ) by {
            law_every_package_has_a_version(files, version_rewrite, count, at);
        }
        assert forall|id: Seq<char>| #[trigger] versions.contains_key(id) implies exists|at: int|
            0 <= at < files.len() && #[trigger] file_identity(files[at], version_rewrite) == Some(
                (id, versions[id]),
            ) by {
            let at = law_versions_come_from_packages(files, version_rewrite, count, id);
        }
    }
}

/// A file is ready to be uploaded exactly where it could be opened, has a name and can be repacked.
pub proof fn law_ready_files(
    platform: Platform,
    file: PackageFile,
    version_rewrite: VersionRewrite,
    versions: Option<Map<Seq<char>, Seq<char>>>,
)
    ensures
        is_ready(platform, file, version_rewrite, versions) <==> (file.contents matches Ok(bytes)
            && is_repackable(bytes@, version_rewrite, versions)) && file_name_of(
            platform,
            file.path@,
        ) is Some,
{
}

} // verus!
