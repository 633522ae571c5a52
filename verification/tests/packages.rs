use std::io::{Cursor, Read, Write};

use on9au_tools::archive::Compression;
use on9au_tools::commands::StatusOutcome;
use on9au_tools::manifest::NuspecError;
use on9au_tools::package::{
    normalize_compression, read_package_identity_with_rewritten_version,
    repack_package_with_version, PackageError,
};
use on9au_tools::platform::Platform;
use on9au_tools::pushing::{next_push, push_package, PushError, PushStep};
use on9au_tools::text_map::TextMap;
use on9au_tools::uploads::{
    collect_workspace_dependency_versions, prepare_plain_uploads, prepare_uploads, push_arguments,
    upload_plan_text, PackageFile, UploadError,
};
use on9au_tools::version::VersionRewrite;
use zip::write::SimpleFileOptions;
use zip::{CompressionMethod, ZipArchive, ZipWriter};

fn manifest(id: &str, version: &str, dependency: &str) -> String {
    format!(
        "<?xml version=\"1.0\"?>\n<package>\n  <metadata>\n    <id>{id}</id>\n    <version>{version}</version>\n    <dependencies><dependency id=\"{dependency}\" version=\"1.0.0\"/></dependencies>\n  </metadata>\n</package>"
    )
}

fn archive(entries: &[(&str, &[u8])]) -> Vec<u8> {
    let mut writer = ZipWriter::new(Cursor::new(Vec::new()));
    for (name, contents) in entries {
        let options = SimpleFileOptions::default().compression_method(CompressionMethod::Deflated);
        if name.ends_with('/') {
            writer.add_directory(*name, options).unwrap();
        } else {
            writer.start_file(*name, options).unwrap();
            writer.write_all(contents).unwrap();
        }
    }
    writer.finish().unwrap().into_inner()
}

fn package(id: &str, version: &str, dependency: &str) -> Vec<u8> {
    let text = manifest(id, version, dependency);
    archive(&[
        ("lib/", b""),
        ("lib/a.dll", b"binary contents"),
        ("Example.nuspec", text.as_bytes()),
        ("readme.txt", b"read me"),
    ])
}

fn exact(version: &str) -> VersionRewrite {
    VersionRewrite::Exact(version.to_string())
}

fn file(path: &str, contents: Vec<u8>) -> PackageFile {
    PackageFile { path: path.to_string(), contents: Ok(contents) }
}

#[test]
fn repacked_packages_say_the_new_version() {
    let bytes = package("Example", "1.0.0", "Other");
    let repacked = repack_package_with_version(bytes, &exact("2.0.0"), None).unwrap();
    assert_eq!(repacked.identity.package_id, "Example");
    assert_eq!(repacked.identity.version, "2.0.0");
    let keep = VersionRewrite::Suffix { prefix_version: None, suffix: "x".to_string() };
    let read = read_package_identity_with_rewritten_version(repacked.contents, &keep).unwrap();
    assert_eq!(read.package_id, "Example");
    assert_eq!(read.version, "2.0.0-x");
}

#[test]
fn repacking_keeps_the_other_entries() {
    let bytes = package("Example", "1.0.0", "Other");
    let repacked = repack_package_with_version(bytes, &exact("2.0.0"), None).unwrap();
    let mut copy = ZipArchive::new(Cursor::new(repacked.contents)).unwrap();
    let names: Vec<String> =
        (0..copy.len()).map(|at| copy.by_index(at).unwrap().name().to_string()).collect();
    assert_eq!(names, vec!["lib/", "lib/a.dll", "Example.nuspec", "readme.txt"]);
    assert!(copy.by_index(0).unwrap().is_dir());
    let mut contents = Vec::new();
    copy.by_index(1).unwrap().read_to_end(&mut contents).unwrap();
    assert_eq!(contents, b"binary contents");
    let mut readme = String::new();
    copy.by_index(3).unwrap().read_to_string(&mut readme).unwrap();
    assert_eq!(readme, "read me");
}

#[test]
fn dependencies_on_named_packages_follow() {
    let mut versions = TextMap::new();
    versions.insert("Other".to_string(), "7.0.0".to_string());
    let bytes = package("Example", "1.0.0", "Other");
    let repacked =
        repack_package_with_version(bytes, &exact("2.0.0"), Some(&versions)).unwrap();
    let mut copy = ZipArchive::new(Cursor::new(repacked.contents)).unwrap();
    let mut text = String::new();
    copy.by_index(2).unwrap().read_to_string(&mut text).unwrap();
    assert!(text.contains("id=\"Other\" version=\"7.0.0\""));
    assert!(text.contains("<version>2.0.0</version>"));
}

/// Puts a byte of the code page of old archives in the place of each `q`.
fn with_old_names(mut bytes: Vec<u8>) -> Vec<u8> {
    for byte in bytes.iter_mut() {
        if *byte == b'q' {
            *byte = 0x82;
        }
    }
    bytes
}

#[test]
fn names_that_are_taken_or_too_long_are_refused() {
    let good = manifest("Example", "1.0.0", "Other");
    let twice = with_old_names(archive(&[
        ("\u{e9}\u{e9}.nuspec", good.as_bytes()),
        ("qq.nuspec", b"no manifest"),
    ]));
    match repack_package_with_version(twice, &exact("2"), None).unwrap_err() {
        PackageError::UnaddableFile(name, _) => assert_eq!(name, "\u{e9}\u{e9}.nuspec"),
        error => panic!("{error:?}"),
    }
    let twice = with_old_names(archive(&[("\u{e9}\u{e9}/", b""), ("qq/", b"")]));
    assert!(matches!(
        repack_package_with_version(twice, &exact("2"), None),
        Err(PackageError::UnaddableDirectory(name, _)) if name == "\u{e9}\u{e9}/"
    ));
    for (count, fits) in [(0x7fff, true), (0x8000, false)] {
        let name = "q".repeat(count);
        let long = with_old_names(archive(&[
            ("a.nuspec", good.as_bytes()),
            (name.as_str(), b"contents"),
        ]));
        assert_eq!(repack_package_with_version(long, &exact("2"), None).is_ok(), fits);
    }
}

#[test]
fn packages_with_very_many_entries_are_copied() {
    let good = manifest("Example", "1.0.0", "Other");
    for count in [0xfffe, 0xffff, 0x1_0000] {
        let mut writer = ZipWriter::new(Cursor::new(Vec::new()));
        let options = SimpleFileOptions::default().compression_method(CompressionMethod::Stored);
        writer.start_file("a.nuspec", options).unwrap();
        writer.write_all(good.as_bytes()).unwrap();
        for number in 1..count {
            writer.start_file(format!("{number:020}"), options).unwrap();
            writer.write_all(b"x").unwrap();
        }
        let bytes = writer.finish().unwrap().into_inner();
        let repacked = repack_package_with_version(bytes, &exact("2.0.0"), None).unwrap();
        let mut copy = ZipArchive::new(Cursor::new(repacked.contents)).unwrap();
        assert_eq!(copy.len(), count);
        let mut last = copy.by_index(count - 1).unwrap();
        assert_eq!(last.name(), format!("{:020}", count - 1));
        let mut contents = Vec::new();
        last.read_to_end(&mut contents).unwrap();
        assert_eq!(contents, b"x");
    }
}

#[test]
fn broken_contents_are_refused() {
    let mut bytes = archive(&[("a.nuspec", b"no manifest at all, but long enough")]);
    let at = bytes.iter().position(|byte| *byte == b'a').unwrap();
    for byte in bytes[at + 8..at + 20].iter_mut() {
        *byte ^= 0x5a;
    }
    match repack_package_with_version(bytes, &exact("2"), None).unwrap_err() {
        PackageError::UnreadableContents(name, detail) => {
            assert_eq!(name, "a.nuspec");
            assert!(!detail.starts_with("i/o error"), "{detail}");
        }
        error => panic!("{error:?}"),
    }
}

#[test]
fn the_first_fault_is_reported() {
    let good = manifest("Example", "1.0.0", "Other");
    let broken = archive(&[
        ("a.nuspec", good.as_bytes()),
        ("b.nuspec", b"no manifest"),
        ("c.nuspec", b"<package/>"),
    ]);
    assert!(matches!(
        repack_package_with_version(broken, &exact("2"), None),
        Err(PackageError::Nuspec(NuspecError::UnreadableManifest(_)))
    ));
}

#[test]
fn broken_packages_are_refused() {
    assert!(matches!(
        repack_package_with_version(b"no archive".to_vec(), &exact("2"), None),
        Err(PackageError::NotAnArchive(_))
    ));
    assert_eq!(
        repack_package_with_version(archive(&[("a.txt", b"a")]), &exact("2"), None).unwrap_err(),
        PackageError::MissingNuspec
    );
    assert_eq!(
        read_package_identity_with_rewritten_version(
            archive(&[("dir.nuspec/", b""), ("a.txt", b"a")]),
            &exact("2")
        )
        .unwrap_err(),
        PackageError::MissingNuspec
    );
    assert!(matches!(
        repack_package_with_version(archive(&[("a.nuspec", b"<package/>")]), &exact("2"), None),
        Err(PackageError::Nuspec(_))
    ));
    let missing = PackageError::MissingNuspec.message("in.nupkg", "out.nupkg");
    assert_eq!(missing, "package in.nupkg does not contain a .nuspec file");
}

#[test]
fn packing_stays_with_common_methods() {
    assert_eq!(normalize_compression(Compression::Stored), Compression::Stored);
    assert_eq!(normalize_compression(Compression::Deflated), Compression::Deflated);
    assert_eq!(normalize_compression(Compression::Other), Compression::Deflated);
}

#[test]
fn workspace_versions_come_from_all_packages() {
    let files = vec![
        file("a.nupkg", package("A", "1.0.0", "B")),
        file("b.nupkg", package("B", "2.0.0-old", "A")),
    ];
    let suffix = VersionRewrite::Suffix { prefix_version: None, suffix: "ci".to_string() };
    let versions = collect_workspace_dependency_versions(&files, &suffix).unwrap();
    assert_eq!(versions.get("A"), Some("1.0.0-ci".to_string()));
    assert_eq!(versions.get("B"), Some("2.0.0-ci".to_string()));

    let unreadable = vec![PackageFile {
        path: "c.nupkg".to_string(),
        contents: Err("denied".to_string()),
    }];
    let error = collect_workspace_dependency_versions(&unreadable, &suffix).unwrap_err();
    assert_eq!(error.message(), "failed to open c.nupkg: denied");
}

#[test]
fn uploads_are_repacked_and_follow_each_other() {
    let files = vec![
        file("out/a.nupkg", package("A", "1.0.0", "B")),
        file("out/b.nupkg", package("B", "2.0.0", "Z")),
    ];
    let uploads = prepare_uploads(Platform::Unix, &files, &exact("5.0.0"), true, "/tmp/x").unwrap();
    assert_eq!(uploads.len(), 2);
    assert_eq!(uploads[0].upload.source_path, "out/a.nupkg");
    assert_eq!(uploads[0].upload.upload_path, "/tmp/x/A.5.0.0.nupkg");
    assert_eq!(uploads[0].upload.package_id.as_deref(), Some("A"));
    assert_eq!(uploads[0].upload.package_version.as_deref(), Some("5.0.0"));
    let written = uploads[0].file.as_ref().unwrap();
    assert_eq!(written.temporary_path, "/tmp/x/a.tmp.nupkg");
    assert!(written.is_moved);
    let mut copy = ZipArchive::new(Cursor::new(written.contents.clone())).unwrap();
    let mut text = String::new();
    copy.by_index(2).unwrap().read_to_string(&mut text).unwrap();
    assert!(text.contains("id=\"B\" version=\"5.0.0\""));

    let alone = prepare_uploads(Platform::Unix, &files, &exact("5.0.0"), false, "/tmp/x").unwrap();
    let written = alone[0].file.as_ref().unwrap();
    let mut copy = ZipArchive::new(Cursor::new(written.contents.clone())).unwrap();
    let mut text = String::new();
    copy.by_index(2).unwrap().read_to_string(&mut text).unwrap();
    assert!(text.contains("id=\"B\" version=\"1.0.0\""));
}

#[test]
fn upload_faults_name_the_package() {
    let files = vec![file("out/a.nupkg", b"junk".to_vec())];
    let error = prepare_uploads(Platform::Unix, &files, &exact("1"), false, "/tmp/x").unwrap_err();
    assert!(matches!(error, UploadError::Package(_, _, PackageError::NotAnArchive(_))));
    assert!(error.message().starts_with("failed to read out/a.nupkg as a nupkg archive: "));
}

#[test]
fn plain_uploads_push_the_file_itself() {
    let uploads = prepare_plain_uploads(&vec!["a.nupkg".to_string()]);
    assert_eq!(uploads[0].upload.upload_path, "a.nupkg");
    assert_eq!(uploads[0].upload.package_id, None);
    assert!(uploads[0].file.is_none());
    assert_eq!(
        push_arguments(&uploads[0].upload, "Feed", "key", true),
        vec!["nuget", "push", "a.nupkg", "--source", "Feed", "--api-key", "key", "--skip-duplicate"]
    );
    let text = upload_plan_text(&uploads, "Feed");
    assert!(text.starts_with("source: Feed\n"));
    assert!(text.contains("a.nupkg"));
}

#[test]
fn packages_are_pushed_one_after_the_other() {
    let uploads = prepare_plain_uploads(&vec!["a.nupkg".to_string(), "b.nupkg".to_string()]);
    let key = Some("key".to_string());
    let mut outcomes = Vec::new();
    let mut pushed = Vec::new();
    loop {
        match next_push(&uploads, "Feed", &key, false, false, &outcomes) {
            PushStep::Push(arguments) => {
                pushed.push(arguments[2].clone());
                outcomes.push(StatusOutcome::Finished(true));
            }
            PushStep::Done => break,
            PushStep::Stop(error) => panic!("{}", error.message()),
        }
    }
    assert_eq!(pushed, vec!["a.nupkg", "b.nupkg"]);
}

#[test]
fn dry_runs_and_missing_keys_push_nothing() {
    let uploads = prepare_plain_uploads(&vec!["a.nupkg".to_string()]);
    assert_eq!(next_push(&uploads, "Feed", &None, false, true, &Vec::new()), PushStep::Done);
    let step = next_push(&uploads, "Feed", &None, false, false, &Vec::new());
    assert_eq!(step, PushStep::Stop(PushError::MissingApiKey));
    assert_eq!(
        PushError::MissingApiKey.message(),
        "missing API key; pass --api-key or set the packagingFeedKey environment variable"
    );
}

#[test]
fn a_push_that_fails_stops_the_rest() {
    let uploads = prepare_plain_uploads(&vec!["a.nupkg".to_string(), "b.nupkg".to_string()]);
    let key = Some("key".to_string());
    let failed = next_push(
        &uploads,
        "Feed",
        &key,
        false,
        false,
        &vec![StatusOutcome::Finished(false)],
    );
    assert_eq!(failed, PushStep::Stop(PushError::Failed("a.nupkg".to_string())));
    let error = push_package(
        &uploads[1].upload,
        &StatusOutcome::NotStarted("no dotnet".to_string()),
    )
    .unwrap_err();
    assert_eq!(error.message(), "failed to invoke dotnet nuget push for b.nupkg: no dotnet");
    assert_eq!(
        PushError::Failed("a.nupkg".to_string()).message(),
        "dotnet nuget push failed for a.nupkg"
    );
}
