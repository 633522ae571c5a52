//! Reading a package's identity from its manifest, and rewriting its version there.

use vstd::prelude::*;

use crate::nuspec::{
    child_element, child_place, child_text, has_child, is_named, rewrite_dependency_versions,
    set_child_text, text_of_child, with_child_text, with_children, with_versions,
};
use crate::text::concat;
use crate::text_map::TextMap;
use crate::version::{resolve_package_version, rewritten_version, VersionRewrite};
use crate::xml::{node_view, ElementView, NodeView, XmlElement, XmlNode};
use crate::xml_document::{
    is_read_element, parse_document, reads_back, settled, write_document, xml_document, xml_text,
    LONGEST_DOCUMENT,
};

verus! {

/// A package by its id and version.
#[derive(Debug, PartialEq, Eq)]
pub struct PackageIdentity {
    pub package_id: String,
    pub version: String,
}

/// A manifest with a rewritten version, and the identity that it gives its package.
#[derive(Debug)]
pub struct RewrittenNuspec {
    pub identity: PackageIdentity,
    pub contents: Vec<u8>,
}

/// Why a manifest could not be read or rewritten.
#[derive(Debug, PartialEq, Eq)]
pub enum NuspecError {
    /// No XML, found while reading the identity.
    UnreadableIdentity(String),
    /// No XML, found while rewriting the version.
    UnreadableManifest(String),
    MissingMetadata,
    MissingId,
    MissingVersion,
    /// The rewritten manifest could not be written.
    Unwritable(String),
}

impl NuspecError {
    /// What the error says.
    pub open spec fn text(self) -> Seq<char> {
        match self {
            NuspecError::UnreadableIdentity(detail) =>
                "failed to parse nuspec XML while reading package identity: "@ + detail@,
            NuspecError::UnreadableManifest(detail) =>
                "failed to parse nuspec XML while rewriting package version: "@ + detail@,
            NuspecError::MissingMetadata => "nuspec does not contain a metadata element"@,
            NuspecError::MissingId => "nuspec metadata does not contain an id element"@,
            NuspecError::MissingVersion => "nuspec metadata does not contain a version element"@,
            NuspecError::Unwritable(detail) => "failed to serialize rewritten nuspec XML: "@
                + detail@,
        }
    }

    /// Says what went wrong.
    pub fn message(&self) -> (message: String)
        ensures
            message@ == self.text(),
    {
        match self {
            NuspecError::UnreadableIdentity(detail) => concat(
                "failed to parse nuspec XML while reading package identity: ",
                detail.as_str(),
            ),
            NuspecError::UnreadableManifest(detail) => concat(
                "failed to parse nuspec XML while rewriting package version: ",
                detail.as_str(),
            ),
            NuspecError::MissingMetadata => "nuspec does not contain a metadata element".to_owned(),
            NuspecError::MissingId => "nuspec metadata does not contain an id element".to_owned(),
            NuspecError::MissingVersion =>
                "nuspec metadata does not contain a version element".to_owned(),
            NuspecError::Unwritable(detail) => concat(
                "failed to serialize rewritten nuspec XML: ",
                detail.as_str(),
            ),
        }
    }
}

/// The metadata element of a manifest that has one.
pub open spec fn metadata_of(root: ElementView) -> ElementView {
    root.children[child_place(root.children, "metadata"@)]->Element_0
}

/// The id and the version that a manifest gives its package, or what it lacks.
pub open spec fn identity_of(root: ElementView) -> Result<(Seq<char>, Seq<char>), NuspecError> {
    if !has_child(root.children, "metadata"@) {
        Err(NuspecError::MissingMetadata)
    } else {
        match (
            text_of_child(metadata_of(root).children, "id"@),
            text_of_child(metadata_of(root).children, "version"@),
        ) {
            (None, _) => Err(NuspecError::MissingId),
            (Some(_), None) => Err(NuspecError::MissingVersion),
            (Some(id), Some(version)) => Ok((id, version)),
        }
    }
}

/// `root` with another metadata element.
pub open spec fn with_metadata(root: ElementView, metadata: ElementView) -> ElementView {
    with_children(
        root,
        root.children.update(
            child_place(root.children, "metadata"@),
            NodeView::Element(metadata),
        ),
    )
}

/// The metadata of a package with another version, whose dependencies follow `versions`.
pub open spec fn rewritten_metadata(
    metadata: ElementView,
    version: Seq<char>,
    versions: Option<Map<Seq<char>, Seq<char>>>,
) -> ElementView {
    let renamed = with_child_text(metadata, "version"@, version);
    match versions {
        Some(versions) => with_versions(renamed, versions),
        None => renamed,
    }
}

/// The manifest of a package with another version, whose dependencies follow `versions`.
pub open spec fn rewritten_document(
    root: ElementView,
    version: Seq<char>,
    versions: Option<Map<Seq<char>, Seq<char>>>,
) -> ElementView {
    with_metadata(root, rewritten_metadata(metadata_of(root), version, versions))
}

/// The view of versions that may not be given.
pub open spec fn versions_view(versions: Option<&TextMap>) -> Option<Map<Seq<char>, Seq<char>>> {
    match versions {
        Some(versions) => Some(versions@),
        None => None,
    }
}

/// What text a child has, it has in a child of that name.
pub proof fn lemma_child_with_text(children: Seq<NodeView>, name: Seq<char>)
    requires
        text_of_child(children, name) is Some,
    ensures
        has_child(children, name),
    decreases children.len(),
{
    if is_named(children[0], name) {
        assert(has_child(children, name));
    } else {
        let rest = children.drop_first();
        lemma_child_with_text(rest, name);
        let at = choose|at: int| 0 <= at < rest.len() && is_named(#[trigger] rest[at], name);
        assert(is_named(children[at + 1], name));
    }
}

/// Reads the id and the version from the metadata.
fn read_identity(metadata: &XmlElement) -> (result: Result<(String, String), NuspecError>)
    ensures
        match (
            text_of_child(metadata@.children, "id"@),
            text_of_child(metadata@.children, "version"@),
        ) {
            (None, _) => result == Err::<(String, String), NuspecError>(NuspecError::MissingId),
            (Some(_), None) => result == Err::<(String, String), NuspecError>(
                NuspecError::MissingVersion,
            ),
            (Some(id), Some(version)) => result matches Ok(found) && found.0@ == id && found.1@
                == version,
        },
{
    match child_text(metadata, "id") {
        None => Err(NuspecError::MissingId),
        Some(id) => match child_text(metadata, "version") {
            None => Err(NuspecError::MissingVersion),
            Some(version) => Ok((id, version)),
        },
    }
}

/// The identity that a package has once its version is rewritten, from its manifest.
pub fn rewritten_identity_of(root: &XmlElement, version_rewrite: &VersionRewrite) -> (result: Result<
    PackageIdentity,
    NuspecError,
>)
    ensures
        match identity_of(root@) {
            Ok((id, version)) => result matches Ok(identity) && identity.package_id@ == id
                && identity.version@ == rewritten_version(version, *version_rewrite),
            Err(error) => result == Err::<PackageIdentity, NuspecError>(error),
        },
{
    match child_element(root, "metadata") {
        None => Err(NuspecError::MissingMetadata),
        Some(at) => {
            assert(root@.children[at as int] == node_view(root.children@[at as int]));
            if let XmlNode::Element(metadata) = &root.children[at] {
                match read_identity(metadata) {
                    Ok((package_id, version)) => {
                        Ok(
                            PackageIdentity {
                                package_id,
                                version: resolve_package_version(
                                    version.as_str(),
                                    version_rewrite,
                                ),
                            },
                        )
                    },
                    Err(error) => Err(error),
                }
            } else {
                Err(NuspecError::MissingMetadata)
            }
        },
    }
}

/// Rewrites the version in a manifest, and with `workspace_dependency_versions` the versions of
/// the dependencies on the packages named there.
pub fn rewrite_document(
    root: XmlElement,
    version_rewrite: &VersionRewrite,
    workspace_dependency_versions: Option<&TextMap>,
) -> (result: Result<(PackageIdentity, XmlElement), NuspecError>)
    ensures
        match identity_of(root@) {
            Ok((id, version)) => result matches Ok((identity, document)) && identity.package_id@
                == id && identity.version@ == rewritten_version(version, *version_rewrite)
                && document@ == rewritten_document(
                root@,
                identity.version@,
                versions_view(workspace_dependency_versions),
            ),
            Err(error) => result == Err::<(PackageIdentity, XmlElement), NuspecError>(error),
        },
{
    let identity = match rewritten_identity_of(&root, version_rewrite) {
        Ok(identity) => identity,
        Err(error) => {
            return Err(error);
        },
    };
    let mut document = root;
    match child_element(&document, "metadata") {
        None => Err(NuspecError::MissingMetadata),
        Some(at) => {
            let ghost before = document.children@;
            assert(root@.children[at as int] == node_view(before[at as int]));
            let removed = document.children.remove(at);
            if let XmlNode::Element(found) = removed {
                let mut metadata = found;
                proof {
                    lemma_child_with_text(metadata@.children, "version"@);
                }
                set_child_text(&mut metadata, "version", identity.version.as_str());
                if let Some(versions) = workspace_dependency_versions {
                    rewrite_dependency_versions(&mut metadata, versions);
                }
                let ghost replaced = XmlNode::Element(metadata);
                document.children.insert(at, XmlNode::Element(metadata));
                assert(document.children@ =~= before.update(at as int, replaced));
                assert(document@.children =~= root@.children.update(
                    at as int,
                    node_view(replaced),
                ));
                Ok((identity, document))
            } else {
                Err(NuspecError::MissingMetadata)
            }
        },
    }
}

/// Whether reading the rewritten identity from the bytes of a manifest has this result.
pub open spec fn is_identity_result(
    nuspec_bytes: Seq<u8>,
    version_rewrite: VersionRewrite,
    result: Result<PackageIdentity, NuspecError>,
) -> bool {
    match xml_document(nuspec_bytes) {
        None => result matches Err(NuspecError::UnreadableIdentity(_)),
        Some(root) => match identity_of(root) {
            Ok((id, version)) => result matches Ok(identity) && identity.package_id@ == id
                && identity.version@ == rewritten_version(version, version_rewrite),
            Err(error) => result == Err::<PackageIdentity, NuspecError>(error),
        },
    }
}

/// Whether rewriting the bytes of a manifest has this result.
pub open spec fn is_rewrite_result(
    nuspec_bytes: Seq<u8>,
    version_rewrite: VersionRewrite,
    versions: Option<Map<Seq<char>, Seq<char>>>,
    result: Result<RewrittenNuspec, NuspecError>,
) -> bool {
    match xml_document(nuspec_bytes) {
        None => result matches Err(NuspecError::UnreadableManifest(_)),
        Some(root) => match identity_of(root) {
            Ok((id, version)) => {
                let new_version = rewritten_version(version, version_rewrite);
                match xml_text(rewritten_document(root, new_version, versions)) {
                    Some(text) => result matches Ok(rewritten) && rewritten.contents@ == text
                        && rewritten.identity.package_id@ == id && rewritten.identity.version@
                        == new_version,
                    None => result matches Err(NuspecError::Unwritable(_)),
                }
            },
            Err(error) => result == Err::<RewrittenNuspec, NuspecError>(error),
        },
    }
}

/// The manifest that rewriting makes of the bytes of another, as a document, where it makes one.
pub open spec fn rewritten_root(
    nuspec_bytes: Seq<u8>,
    version_rewrite: VersionRewrite,
    versions: Option<Map<Seq<char>, Seq<char>>>,
) -> Option<ElementView> {
    match xml_document(nuspec_bytes) {
        None => None,
        Some(root) => match identity_of(root) {
            Ok((_, version)) => Some(
                rewritten_document(root, rewritten_version(version, version_rewrite), versions),
            ),
            Err(_) => None,
        },
    }
}

/// The identity that a package has once its version is rewritten, from the bytes of its manifest.
pub fn rewritten_package_identity(nuspec_bytes: &[u8], version_rewrite: &VersionRewrite) -> (result:
    Result<PackageIdentity, NuspecError>)
    ensures
        is_identity_result(nuspec_bytes@, *version_rewrite, result),
{
    match parse_document(nuspec_bytes) {
        Ok(root) => rewritten_identity_of(&root, version_rewrite),
        Err(detail) => Err(NuspecError::UnreadableIdentity(detail)),
    }
}

/// Rewrites the version in the bytes of a manifest, and with `workspace_dependency_versions` the
/// versions of the dependencies on the packages named there. A plain manifest is always written,
/// and if it is not too long it is read again as the one that was meant, with white space around
/// its comments.
pub fn rewrite_nuspec_version(
    nuspec_bytes: &[u8],
    version_rewrite: &VersionRewrite,
    workspace_dependency_versions: Option<&TextMap>,
) -> (result: Result<RewrittenNuspec, NuspecError>)
    ensures
        is_rewrite_result(
            nuspec_bytes@,
            *version_rewrite,
            versions_view(workspace_dependency_versions),
            result,
        ),
        xml_document(nuspec_bytes@) matches Some(root) ==> is_read_element(root),
        rewritten_root(
            nuspec_bytes@,
            *version_rewrite,
            versions_view(workspace_dependency_versions),
        ) matches Some(document) ==> (reads_back(document) ==> (result matches Ok(rewritten) && (
        rewritten.contents@.len() < LONGEST_DOCUMENT ==> xml_document(rewritten.contents@) == Some(
            settled(document),
        )))),
{
    match parse_document(nuspec_bytes) {
        Ok(root) => match rewrite_document(root, version_rewrite, workspace_dependency_versions) {
            Ok((identity, document)) => match write_document(document) {
                Ok(contents) => Ok(RewrittenNuspec { identity, contents }),
                Err(detail) => Err(NuspecError::Unwritable(detail)),
            },
            Err(error) => Err(error),
        },
        Err(detail) => Err(NuspecError::UnreadableManifest(detail)),
    }
}

} // verus!
