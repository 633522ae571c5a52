use on9au_tools::config_paths::{
    candidate_config_paths, discover_config_path, global_config_path, select_config_path,
    ConfigEnvironment,
};
use on9au_tools::dates::utc_date;
use on9au_tools::manifest::{
    rewrite_nuspec_version, rewritten_package_identity, NuspecError, PackageIdentity,
};
use on9au_tools::nuspec::{child_element, child_text, get_text, set_child_text};
use on9au_tools::paths::join_path;
use on9au_tools::platform::Platform;
use on9au_tools::text_map::TextMap;
use on9au_tools::upload_options::{
    default_package_directories, resolve_options, resolve_search_directories,
    resolve_version_rewrite_from_config, validate_version_arguments, Cli, Moment, OptionsError,
    PathFact, PathKind, PduploadConfig,
};
use on9au_tools::uploads::{
    discover_package_paths, display_paths, is_uploadable_package, package_file_name,
    require_api_key, require_packages, temp_package_name, UploadError,
};
use on9au_tools::version::{
    default_suffix_token, default_version_suffix, resolve_package_version, version_prefix,
    VersionRewrite, DEFAULT_SUFFIX_TOKEN_WIDTH,
};
use on9au_tools::xml::{XmlElement, XmlNode};
use on9au_tools::xml_document::{parse_document, write_document};
use xmltree::Element;

fn cli_with_defaults() -> Cli {
    Cli {
        config: None,
        source: None,
        api_key: None,
        directories: Vec::new(),
        package_version: None,
        version_suffix: None,
        prefix_version: None,
        no_rewrite_workspace_dependency_versions: false,
        skip_duplicate: false,
        dry_run: false,
    }
}

fn empty_config() -> PduploadConfig {
    PduploadConfig {
        source: None,
        api_key: None,
        directories: None,
        package_version: None,
        version_suffix: None,
        prefix_version: None,
        rewrite_workspace_dependency_versions: None,
        skip_duplicate: None,
        dry_run: None,
    }
}

fn moment() -> Moment {
    Moment { unix_timestamp_nanos: 1_777_248_000_000_000_000, process_id: 7 }
}

fn directory(path: &str) -> PathFact {
    PathFact { path: path.to_string(), kind: PathKind::Directory }
}

fn child<'a>(element: &'a XmlElement, name: &str) -> &'a XmlElement {
    match &element.children[child_element(element, name).unwrap()] {
        XmlNode::Element(found) => found,
        _ => panic!("no element"),
    }
}

fn dependency_version<'a>(group: &'a Element, dependency_id: &str) -> Option<&'a str> {
    group.children.iter().find_map(|child| match child {
        xmltree::XMLNode::Element(element)
            if element.name == "dependency"
                && element.attributes.get("id").map(String::as_str) == Some(dependency_id) =>
        {
            element.attributes.get("version").map(String::as_str)
        }
        _ => None,
    })
}

#[test]
fn symbols_packages_are_skipped() {
    assert!(is_uploadable_package(Platform::Unix, "a.1.2.3.nupkg"));
    assert!(!is_uploadable_package(Platform::Unix, "a.1.2.3.symbols.nupkg"));
}

#[test]
fn rewritten_nuspec_uses_overridden_version() {
    let nuspec = r#"<?xml version="1.0"?>
<package>
  <metadata>
    <id>Example.Package</id>
    <version>1.0.0</version>
  </metadata>
</package>"#;

    let rewritten = rewrite_nuspec_version(
        nuspec.as_bytes(),
        &VersionRewrite::Exact("2.5.0".to_string()),
        None,
    )
    .unwrap();
    let root = parse_document(rewritten.contents.as_slice()).unwrap();
    let metadata = child(&root, "metadata");

    assert_eq!(rewritten.identity.package_id, "Example.Package");
    assert_eq!(rewritten.identity.version, "2.5.0");
    assert_eq!(child_text(metadata, "version").as_deref(), Some("2.5.0"));
    let outside = Element::parse(rewritten.contents.as_slice()).unwrap();
    let version = outside.get_child("metadata").unwrap().get_child("version").unwrap();
    assert_eq!(version.get_text().as_deref(), Some("2.5.0"));
}

#[test]
fn rewritten_nuspec_can_replace_only_the_version_suffix() {
    let nuspec = r#"<?xml version="1.0"?>
<package>
  <metadata>
    <id>Example.Package</id>
    <version>1.0.0-alpha.4</version>
  </metadata>
</package>"#;

    let rewritten = rewrite_nuspec_version(
        nuspec.as_bytes(),
        &VersionRewrite::Suffix {
            prefix_version: None,
            suffix: "pre.20260427".to_string(),
        },
        None,
    )
    .unwrap();

    assert_eq!(rewritten.identity.version, "1.0.0-pre.20260427");
}

#[test]
fn rewritten_nuspec_can_use_explicit_prefix_version_with_suffix() {
    let nuspec = r#"<?xml version="1.0"?>
<package>
  <metadata>
    <id>Example.Package</id>
    <version>1.0.0-alpha.4</version>
  </metadata>
</package>"#;

    let rewritten = rewrite_nuspec_version(
        nuspec.as_bytes(),
        &VersionRewrite::Suffix {
            prefix_version: Some("2.1.0".to_string()),
            suffix: "pre.20260427".to_string(),
        },
        None,
    )
    .unwrap();

    assert_eq!(rewritten.identity.version, "2.1.0-pre.20260427");
}

#[test]
fn rewritten_nuspec_updates_detected_workspace_dependency_versions() {
    let nuspec = r#"<?xml version="1.0"?>
<package>
    <metadata>
        <id>Example.Package</id>
        <version>1.0.0</version>
        <dependencies>
            <group targetFramework="net8.0">
                <dependency id="B" version="[1.0.0]" />
                <dependency id="C" version="2.0.0" />
                <dependency id="External" version="9.9.9" />
            </group>
        </dependencies>
    </metadata>
</package>"#;

    let mut versions = TextMap::new();
    versions.insert("B".to_string(), "2.5.0".to_string());
    versions.insert("C".to_string(), "3.1.0".to_string());
    let rewritten = rewrite_nuspec_version(
        nuspec.as_bytes(),
        &VersionRewrite::Exact("2.5.0".to_string()),
        Some(&versions),
    )
    .unwrap();
    let root = Element::parse(rewritten.contents.as_slice()).unwrap();
    let metadata = root.get_child("metadata").unwrap();
    let dependencies = metadata.get_child("dependencies").unwrap();
    let group = dependencies.get_child("group").unwrap();

    assert_eq!(dependency_version(group, "B"), Some("2.5.0"));
    assert_eq!(dependency_version(group, "C"), Some("3.1.0"));
    assert_eq!(dependency_version(group, "External"), Some("9.9.9"));
}

#[test]
fn package_file_name_uses_id_and_version() {
    let identity = PackageIdentity {
        package_id: "Example.Package".to_string(),
        version: "3.1.4".to_string(),
    };

    assert_eq!(package_file_name(&identity), "Example.Package.3.1.4.nupkg");
}

#[test]
fn display_paths_joins_multiple_paths() {
    let display = display_paths(&vec!["bin/nuget".to_string(), "package".to_string()]);
    assert_eq!(display, "bin/nuget, package");
}

#[test]
fn version_prefix_removes_prerelease_and_build_metadata() {
    assert_eq!(version_prefix("1.2.3-alpha.1+build.5"), "1.2.3");
    assert_eq!(version_prefix("2.0.0"), "2.0.0");
}

#[test]
fn default_version_suffix_uses_pre_prefix() {
    let suffix = default_version_suffix(1_777_248_000_000_000_000, 42).unwrap();
    let parts = suffix.split('.').collect::<Vec<_>>();

    assert_eq!(parts.len(), 3);
    assert_eq!(parts[0], "pre");
    assert_eq!(parts[1].len(), 8);
    assert_eq!(parts[2].len(), DEFAULT_SUFFIX_TOKEN_WIDTH);
    assert_eq!(parts[1], "20260427");
}

#[test]
fn default_suffix_token_is_zero_padded_hex() {
    let token = default_suffix_token(0x1234_abcd, 0x42);
    assert_eq!(token.len(), DEFAULT_SUFFIX_TOKEN_WIDTH);
    assert!(token.chars().all(|character| character.is_ascii_hexdigit()));
    assert_eq!(token, "1234ab8f");
}

#[test]
fn config_can_supply_default_source_and_flags() {
    let cli = cli_with_defaults();
    let config = PduploadConfig {
        source: Some("MyFeed".to_string()),
        api_key: Some("secret".to_string()),
        directories: Some(vec!["/tmp/packages".to_string()]),
        package_version: None,
        version_suffix: Some("ci.4".to_string()),
        prefix_version: None,
        rewrite_workspace_dependency_versions: None,
        skip_duplicate: Some(true),
        dry_run: Some(true),
    };

    let resolved =
        resolve_options(&cli, Some(&config), &vec![directory("/tmp/packages")], moment()).unwrap();

    assert_eq!(resolved.source, "MyFeed");
    assert_eq!(resolved.api_key.as_deref(), Some("secret"));
    assert_eq!(
        resolved.version_rewrite,
        Some(VersionRewrite::Suffix {
            prefix_version: None,
            suffix: "ci.4".to_string(),
        })
    );
    assert!(resolved.rewrite_workspace_dependency_versions);
    assert!(resolved.skip_duplicate);
    assert!(resolved.dry_run);
}

#[test]
fn cli_overrides_config_values() {
    let cli = Cli {
        source: Some("CliFeed".to_string()),
        api_key: Some("cli-key".to_string()),
        directories: vec!["/tmp/packages".to_string()],
        package_version: Some("2.0.0".to_string()),
        prefix_version: None,
        no_rewrite_workspace_dependency_versions: true,
        skip_duplicate: true,
        dry_run: true,
        ..cli_with_defaults()
    };
    let config = PduploadConfig {
        source: Some("ConfigFeed".to_string()),
        api_key: Some("config-key".to_string()),
        directories: None,
        package_version: Some("1.0.0".to_string()),
        version_suffix: None,
        prefix_version: None,
        rewrite_workspace_dependency_versions: Some(true),
        skip_duplicate: Some(false),
        dry_run: Some(false),
    };

    let resolved =
        resolve_options(&cli, Some(&config), &vec![directory("/tmp/packages")], moment()).unwrap();

    assert_eq!(resolved.source, "CliFeed");
    assert_eq!(resolved.api_key.as_deref(), Some("cli-key"));
    assert_eq!(
        resolved.version_rewrite,
        Some(VersionRewrite::Exact("2.0.0".to_string()))
    );
    assert!(!resolved.rewrite_workspace_dependency_versions);
    assert!(resolved.skip_duplicate);
    assert!(resolved.dry_run);
}

#[test]
fn config_rejects_conflicting_version_fields() {
    let config = PduploadConfig {
        package_version: Some("1.0.0".to_string()),
        version_suffix: Some("ci.1".to_string()),
        ..empty_config()
    };

    let error = resolve_version_rewrite_from_config(Some(&config), moment()).unwrap_err();
    assert!(error
        .message()
        .contains("cannot set both package_version and version_suffix"));
}

#[test]
fn candidate_config_paths_start_with_local_file() {
    let environment = ConfigEnvironment {
        app_data: None,
        xdg_config_home: None,
        home: Some("/home/me".to_string()),
    };
    let candidates = candidate_config_paths(Platform::Unix, &environment);

    assert_eq!(candidates.first(), Some(&"pdupload.toml".to_string()));
    assert_eq!(candidates[1], "/home/me/.config/pdupload/pdupload.toml");
}

#[test]
fn config_can_supply_prefix_version_for_suffix_mode() {
    let config = PduploadConfig {
        version_suffix: Some("ci.7".to_string()),
        prefix_version: Some("5.4.3".to_string()),
        ..empty_config()
    };

    let rewrite = resolve_version_rewrite_from_config(Some(&config), moment()).unwrap();
    assert_eq!(
        rewrite,
        Some(VersionRewrite::Suffix {
            prefix_version: Some("5.4.3".to_string()),
            suffix: "ci.7".to_string(),
        })
    );
}

#[test]
fn config_rejects_conflicting_package_and_prefix_versions() {
    let config = PduploadConfig {
        package_version: Some("1.0.0".to_string()),
        prefix_version: Some("2.0.0".to_string()),
        ..empty_config()
    };

    let error = resolve_version_rewrite_from_config(Some(&config), moment()).unwrap_err();
    assert!(error
        .message()
        .contains("cannot set both package_version and prefix_version"));
}

#[test]
fn global_config_path_uses_platform_convention() {
    let environment = ConfigEnvironment {
        app_data: Some(r"C:\Users\me\AppData".to_string()),
        xdg_config_home: Some("/xdg/".to_string()),
        home: Some("/home/me".to_string()),
    };
    for platform in [Platform::Unix, Platform::Windows] {
        if let Some(path) = global_config_path(platform, &environment) {
            assert!(path.ends_with(&join_path(platform, "pdupload", "pdupload.toml")));
        }
    }
    assert_eq!(
        global_config_path(Platform::Windows, &environment).unwrap(),
        r"C:\Users\me\AppData\pdupload\pdupload.toml"
    );
    assert_eq!(
        global_config_path(Platform::Unix, &environment).unwrap(),
        "/xdg/pdupload/pdupload.toml"
    );
    let nothing = ConfigEnvironment { app_data: None, xdg_config_home: None, home: None };
    assert_eq!(global_config_path(Platform::Windows, &nothing), None);
}

#[test]
fn config_file_is_named_found_or_missing() {
    let facts = vec![
        PathFact { path: "pdupload.toml".to_string(), kind: PathKind::Missing },
        PathFact { path: "/global.toml".to_string(), kind: PathKind::Other },
    ];
    let candidates = vec!["pdupload.toml".to_string(), "/global.toml".to_string()];
    assert_eq!(discover_config_path(&candidates, &facts), Some("/global.toml".to_string()));
    assert_eq!(discover_config_path(&candidates, &Vec::new()), None);
    assert_eq!(
        select_config_path(&cli_with_defaults(), &candidates, &facts),
        Ok(Some("/global.toml".to_string()))
    );
    let named = Cli { config: Some("/mine.toml".to_string()), ..cli_with_defaults() };
    let error = select_config_path(&named, &candidates, &facts).unwrap_err();
    assert_eq!(error.message(), "configured config file does not exist: /mine.toml");
    let there = Cli { config: Some("/global.toml".to_string()), ..cli_with_defaults() };
    assert_eq!(
        select_config_path(&there, &candidates, &facts),
        Ok(Some("/global.toml".to_string()))
    );
}

#[test]
fn search_directories_have_to_be_directories() {
    let cli = Cli {
        directories: vec!["a".to_string(), "b".to_string()],
        ..cli_with_defaults()
    };
    let file = PathFact { path: "b".to_string(), kind: PathKind::Other };
    let missing = resolve_search_directories(&cli, None, &vec![directory("a")]).unwrap_err();
    assert_eq!(missing, OptionsError::MissingDirectory("b".to_string()));
    assert_eq!(missing.message(), "configured directory does not exist: b");
    let wrong = resolve_search_directories(&cli, None, &vec![directory("a"), file]).unwrap_err();
    assert_eq!(wrong.message(), "configured path is not a directory: b");
    assert_eq!(
        resolve_search_directories(&cli, None, &vec![directory("b"), directory("a")]),
        Ok(vec!["a".to_string(), "b".to_string()])
    );
}

#[test]
fn default_directories_are_those_that_are_there() {
    assert_eq!(default_package_directories(), vec!["bin/nuget", "package"]);
    let cli = cli_with_defaults();
    assert_eq!(
        resolve_search_directories(&cli, None, &vec![directory("package")]),
        Ok(vec!["package".to_string()])
    );
    assert_eq!(
        resolve_search_directories(&cli, None, &Vec::new()).unwrap_err().message(),
        "none of the default package directories exist: bin/nuget, package"
    );
}

#[test]
fn options_need_a_source() {
    let error = resolve_options(
        &cli_with_defaults(),
        Some(&empty_config()),
        &vec![directory("package")],
        moment(),
    )
    .unwrap_err();
    assert_eq!(error.message(), "missing source; pass --source or set source in pdupload.toml");
}

#[test]
fn versions_are_left_alone_by_default() {
    let cli = Cli { source: Some("Feed".to_string()), ..cli_with_defaults() };
    let resolved = resolve_options(&cli, None, &vec![directory("package")], moment()).unwrap();
    assert_eq!(resolved.version_rewrite, None);
    assert!(resolved.rewrite_workspace_dependency_versions);
    assert!(!resolved.skip_duplicate);
    assert!(!resolved.dry_run);
    assert_eq!(resolved.api_key, None);
}

#[test]
fn a_suffix_without_value_is_generated() {
    let cli = Cli {
        source: Some("Feed".to_string()),
        version_suffix: Some(None),
        ..cli_with_defaults()
    };
    let resolved = resolve_options(&cli, None, &vec![directory("package")], moment()).unwrap();
    let expected = default_version_suffix(1_777_248_000_000_000_000, 7).unwrap();
    assert_eq!(
        resolved.version_rewrite,
        Some(VersionRewrite::Suffix { prefix_version: None, suffix: expected })
    );
}

#[test]
fn version_arguments_exclude_each_other() {
    let suffix = Cli {
        package_version: Some("1.0.0".to_string()),
        version_suffix: Some(None),
        ..cli_with_defaults()
    };
    assert_eq!(
        validate_version_arguments(&suffix),
        Err(OptionsError::PackageVersionWithSuffix)
    );
    let prefix = Cli {
        package_version: Some("1.0.0".to_string()),
        prefix_version: Some("2.0.0".to_string()),
        ..cli_with_defaults()
    };
    assert_eq!(
        validate_version_arguments(&prefix),
        Err(OptionsError::PackageVersionWithPrefix)
    );
    assert_eq!(validate_version_arguments(&cli_with_defaults()), Ok(()));
}

#[test]
fn dates_follow_the_calendar() {
    assert_eq!(utc_date(0).as_deref(), Some("19700101"));
    assert_eq!(utc_date(-1).as_deref(), Some("19691231"));
    assert_eq!(utc_date(951_782_400_000_000_000).as_deref(), Some("20000229"));
    assert_eq!(utc_date(4_107_542_400_000_000_000).as_deref(), Some("21000301"));
    assert_eq!(utc_date(i128::MAX), None);
    assert_eq!(default_version_suffix(i128::MIN, 1), None);
}

#[test]
fn versions_are_rewritten_as_asked() {
    let exact = VersionRewrite::Exact("9.9".to_string());
    assert_eq!(resolve_package_version("1.0.0-a+b", &exact), "9.9");
    let suffix = VersionRewrite::Suffix { prefix_version: None, suffix: "ci.1".to_string() };
    let once = resolve_package_version("1.0.0-a+b", &suffix);
    assert_eq!(once, "1.0.0-ci.1");
    assert_eq!(resolve_package_version(&once, &suffix), once);
    assert_eq!(version_prefix("1.0.0+a-b"), "1.0.0");
}

#[test]
fn packages_are_found_sorted_and_once() {
    let found = discover_package_paths(Platform::Unix, &vec![
        "out/b.1.0.0.nupkg".to_string(),
        "out/a.1.0.0.nupkg".to_string(),
        "out/readme.md".to_string(),
        "out//a.1.0.0.nupkg".to_string(),
        "out/a.1.0.0.symbols.nupkg".to_string(),
    ]);
    assert_eq!(found, vec!["out/a.1.0.0.nupkg", "out/b.1.0.0.nupkg"]);
}

#[test]
fn packages_and_a_key_are_required() {
    let directories = vec!["bin/nuget".to_string(), "package".to_string()];
    let none = require_packages(&Vec::new(), &directories).unwrap_err();
    assert_eq!(none.message(), "no .nupkg files were found under bin/nuget, package");
    assert_eq!(require_packages(&vec!["a.nupkg".to_string()], &directories), Ok(()));
    let key = require_api_key(&None).unwrap_err();
    assert_eq!(key, UploadError::MissingApiKey);
    assert_eq!(require_api_key(&Some("k".to_string())), Ok("k".to_string()));
}

#[test]
fn temporary_names_keep_the_stem() {
    assert_eq!(temp_package_name(Platform::Unix, "out/a.1.0.0.nupkg"), Ok("a.1.0.0.tmp.nupkg".to_string()));
    assert_eq!(
        temp_package_name(Platform::Unix, "out/..").unwrap_err(),
        UploadError::InvalidFileName("out/..".to_string())
    );
}

#[test]
fn manifests_without_identity_are_refused() {
    let exact = VersionRewrite::Exact("2.0.0".to_string());
    let broken = rewrite_nuspec_version(b"<package>", &exact, None).unwrap_err();
    assert!(matches!(broken, NuspecError::UnreadableManifest(_)));
    let no_metadata = rewritten_package_identity(b"<package/>", &exact).unwrap_err();
    assert!(no_metadata.message().contains("metadata"));
    let no_id = rewritten_package_identity(
        b"<package><metadata><version>1</version></metadata></package>",
        &exact,
    )
    .unwrap_err();
    assert!(no_id.message().contains("id"));
    let no_version = rewritten_package_identity(
        b"<package><metadata><id>A</id></metadata></package>",
        &exact,
    )
    .unwrap_err();
    assert!(no_version.message().contains("version"));
    assert!(matches!(
        rewritten_package_identity(b"no xml", &exact),
        Err(NuspecError::UnreadableIdentity(_))
    ));
}

#[test]
fn written_documents_are_read_back() {
    let text = b"<a x=\"1 &lt; 2\"><b>one &amp; two</b><!-- note --><c/></a>";
    let element = parse_document(text).unwrap();
    assert_eq!(element.name, "a");
    assert_eq!(element.attributes.get("x").as_deref(), Some("1 < 2"));
    assert_eq!(child_text(&element, "b").as_deref(), Some("one & two"));
    let written = write_document(element).unwrap();
    let again = parse_document(&written).unwrap();
    assert_eq!(again.attributes.get("x").as_deref(), Some("1 < 2"));
    assert_eq!(child_text(&again, "b").as_deref(), Some("one & two"));
    assert_eq!(again.children.len(), 3);
    assert_eq!(write_document(again).unwrap(), written);
}

#[test]
fn mixed_contents_are_read_back() {
    let text = b"<m xmlns=\"urn:x\">one<b/><!--\n a-b \t--><!-- c -->two <c z=\"1\" a=\"2\">\n t\n</c><d><e/>x</d></m>";
    let element = parse_document(text).unwrap();
    assert_eq!(element.children.len(), 7);
    let written = write_document(parse_document(text).unwrap()).unwrap();
    let again = parse_document(&written).unwrap();
    assert_eq!(format!("{again:?}"), format!("{element:?}"));
}

/// Puts blanks around comments, as writing does.
fn settle(element: &mut XmlElement) {
    for node in element.children.iter_mut() {
        match node {
            XmlNode::Element(child) => settle(child),
            XmlNode::Comment(text) => {
                let front = if text.starts_with(char::is_whitespace) { "" } else { " " };
                let back = if text.ends_with(char::is_whitespace) { "" } else { " " };
                *text = format!("{front}{text}{back}");
            }
            _ => {}
        }
    }
}

#[test]
fn nodes_of_all_kinds_are_read_back_in_any_order() {
    let pieces = [
        "",
        "text ] & more",
        "<b><c/></b>",
        "<p:b><![CDATA[x]]></p:b>",
        "<!---a - b-->",
        "<!-- c -->",
        "<!---->",
        "<![CDATA[]]>",
        "<![CDATA[ < & ] ]] > ]]]>",
        "<?go?>",
        "<?go  a ? > b??>",
        "<d>t<!--x--></d>",
    ];
    let heads = ["", " xmlns=\"urn:x\"", " xmlns:q=\"urn:q\" xmlns=\"urn:x\" xmlns:a.b=\"urn:'&gt;\""];
    for head in heads {
        for first in pieces {
            for second in pieces {
                for third in pieces {
                    let body = format!("{first}{second}{third}").replace("&", "&amp;");
                    if first.starts_with("text") && second.starts_with("text") {
                        continue;
                    }
                    let text = format!("<m{head} xmlns:p=\"urn:p\" z=\"&lt;\">{body}</m>");
                    let mut element = parse_document(text.as_bytes()).unwrap();
                    let copy = parse_document(text.as_bytes()).unwrap();
                    let written = write_document(copy).unwrap();
                    let again = parse_document(&written).unwrap();
                    settle(&mut element);
                    assert_eq!(format!("{again:?}"), format!("{element:?}"), "{text}");
                }
            }
        }
    }
}

#[test]
fn child_texts_are_set_in_place() {
    let mut element = parse_document(b"<m><v>1</v><v>2</v></m>").unwrap();
    assert!(set_child_text(&mut element, "v", "9"));
    assert!(!set_child_text(&mut element, "w", "9"));
    assert_eq!(child_text(&element, "v").as_deref(), Some("9"));
    assert_eq!(element.children.len(), 2);
    match &element.children[1] {
        XmlNode::Element(second) => assert_eq!(get_text(second).as_deref(), Some("2")),
        _ => panic!("no element"),
    }
}

#[test]
fn the_last_value_of_a_key_counts() {
    let mut map = TextMap::new();
    map.insert("a".to_string(), "1".to_string());
    map.insert("a".to_string(), "2".to_string());
    assert_eq!(map.get("a"), Some("2".to_string()));
    assert_eq!(map.get("b"), None);
}
