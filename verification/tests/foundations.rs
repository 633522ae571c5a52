use std::path::Path;

use on9au_tools::ascii::{is_ascii_alphanumeric, is_same_lowered, lower_text};
use on9au_tools::digits::{decimal_of, numeral_of, pad_left, pad_right};
use on9au_tools::path_order::{drop_repeats, sort_paths};
use on9au_tools::paths::{file_name, file_stem, is_same_path, join_path, parent, strip_prefix};
use on9au_tools::platform::Platform;
use on9au_tools::sorting::text_sorting;
use on9au_tools::spaces::{is_blank_text, is_white_space, lines, trim};
use on9au_tools::text::{has_suffix, join, same_text};

const PATHS: [&str; 18] = [
    "", "/", ".", "..", "a", "a/", "a/b", "/a/b", "a//b", "./a", "a/.", "a/./b", "a/..", "../a",
    "//a", "a.b", ".a", "a/b.c.d",
];

#[test]
fn white_space_is_that_of_std() {
    for code in 0u32..=0x10ffff {
        if let Some(character) = char::from_u32(code) {
            assert_eq!(is_white_space(character), character.is_whitespace());
        }
    }
}

#[test]
fn ascii_letters_and_digits_are_those_of_std() {
    for code in 0u32..0x1000 {
        if let Some(character) = char::from_u32(code) {
            assert_eq!(is_ascii_alphanumeric(character), character.is_ascii_alphanumeric());
        }
    }
    assert_eq!(lower_text("AbÄ"), "abÄ");
    assert!(is_same_lowered("TOOL", "tool"));
    assert!(!is_same_lowered("Ä", "ä"));
}

#[test]
fn text_is_cut_as_std_does() {
    for text in ["", " a b ", "\n", "a\r\nb\n\nc", "\u{3000}x\u{a0}", "a\r", "a\n\r\nb"] {
        assert_eq!(trim(text), text.trim());
        assert_eq!(is_blank_text(text), text.trim().is_empty());
        assert_eq!(lines(text), text.lines().collect::<Vec<_>>());
    }
    assert!(has_suffix("abc", "bc") && !has_suffix("bc", "abc"));
    assert!(same_text("a", "a") && !same_text("a", "b"));
    assert_eq!(join(&vec!["a".to_string(), "b".to_string(), "c".to_string()], "--"), "a--b--c");
}

#[test]
fn numbers_are_written_as_std_does() {
    for value in [0, 1, 9, 10, 15, 16, 255, 4096, u64::MAX] {
        assert_eq!(decimal_of(value), value.to_string());
        assert_eq!(numeral_of(value, 16), format!("{value:x}"));
    }
    assert_eq!(pad_left("7", 3, '0'), "007");
    assert_eq!(pad_right("7", 3, ' '), "7  ");
    assert_eq!(pad_left("1234", 3, '0'), "1234");
}

#[test]
fn paths_are_taken_apart_as_std_does() {
    for text in PATHS {
        let path = Path::new(text);
        let name = path.file_name().map(|name| name.to_str().unwrap().to_string());
        assert_eq!(file_name(Platform::Unix, text), name, "{text}");
        let stem = path.file_stem().map(|stem| stem.to_str().unwrap().to_string());
        assert_eq!(file_stem(Platform::Unix, text), stem, "{text}");
        let above = path.parent().map(|above| above.to_str().unwrap().to_string());
        assert_eq!(parent(Platform::Unix, text), above, "{text}");
    }
}

#[test]
fn paths_are_joined_as_std_does() {
    for left in PATHS {
        for right in PATHS {
            let joined = Path::new(left).join(right);
            let text = join_path(Platform::Unix, left, right);
            assert_eq!(text, joined.to_str().unwrap(), "{left} {right}");
            let is_same = is_same_path(Platform::Unix, left, right);
            assert_eq!(is_same, Path::new(left) == Path::new(right));
            let part = Path::new(left)
                .strip_prefix(right)
                .ok()
                .map(|part| part.to_str().unwrap().to_string());
            assert_eq!(strip_prefix(Platform::Unix, left, right), part, "{left} {right}");
        }
    }
}

#[test]
fn paths_are_sorted_as_std_does() {
    let texts: Vec<String> = PATHS.iter().map(|path| path.to_string()).collect();
    let sorted = sort_paths(Platform::Unix, texts.clone());
    let mut expected = texts;
    expected.sort_by(|left, right| Path::new(left).cmp(Path::new(right)));
    assert_eq!(sorted, expected);
    let kept = drop_repeats(Platform::Unix, sorted);
    expected.dedup_by(|later, earlier| Path::new(later) == Path::new(earlier));
    assert_eq!(kept, expected);
}

#[test]
fn drives_count_on_windows() {
    let windows = Platform::Windows;
    assert_eq!(join_path(windows, r"C:\base", r"D:\x"), r"D:\x");
    assert_eq!(join_path(windows, r"C:\base", "D:x"), "D:x");
    assert_eq!(join_path(windows, r"C:\base", r"\x"), r"C:\x");
    assert_eq!(join_path(windows, r"C:\base", "/x"), "C:/x");
    assert_eq!(join_path(windows, r"C:\base", "x"), r"C:\base\x");
    assert_eq!(join_path(windows, "C:/base/", "x"), "C:/base/x");
    assert_eq!(join_path(windows, r"C:\", "x"), r"C:\x");
    assert_eq!(join_path(windows, "C:", "x"), "C:x");
    assert_eq!(join_path(windows, r"C:a\b\c", "C:d"), "C:d");
    assert_eq!(join_path(windows, "", "x"), "x");
    assert_eq!(join_path(Platform::Unix, "/base", "C:/x"), "/base/C:/x");
    assert_eq!(join_path(Platform::Unix, "C:", "x"), "C:/x");
    assert_eq!(join_path(Platform::Unix, r"a\", "x"), r"a\/x");

    assert_eq!(parent(windows, r"C:\a\b").as_deref(), Some(r"C:\a"));
    assert_eq!(parent(windows, "C:/a").as_deref(), Some("C:/"));
    assert_eq!(parent(windows, "C:a").as_deref(), Some("C:"));
    assert_eq!(parent(windows, r"C:.\a").as_deref(), Some("C:."));
    assert_eq!(parent(windows, r".\a").as_deref(), Some("."));
    assert_eq!(parent(windows, r"C:\"), None);
    assert_eq!(parent(windows, "C:"), None);
    assert_eq!(parent(Platform::Unix, "C:/a").as_deref(), Some("C:"));

    assert_eq!(file_name(windows, "C:"), None);
    assert_eq!(file_name(windows, "C:x").as_deref(), Some("x"));
    assert_eq!(file_name(windows, r"a\b/c").as_deref(), Some("c"));
    assert_eq!(file_name(Platform::Unix, r"a\b").as_deref(), Some(r"a\b"));
    assert_eq!(file_name(Platform::Unix, "C:").as_deref(), Some("C:"));
    assert_eq!(file_name(windows, "1:").as_deref(), Some("1:"));

    assert!(is_same_path(windows, r"c:\a", "C:/a/"));
    assert!(is_same_path(windows, r"C:.\a", "C:a"));
    assert!(!is_same_path(windows, "C:a", "C:/a"));
    assert_eq!(strip_prefix(windows, r"C:\a\b", "c:/a").as_deref(), Some("b"));
    assert_eq!(strip_prefix(windows, r"C:\a", "C:").as_deref(), Some(r"\a"));
    assert_eq!(strip_prefix(windows, r"C:.\a", "C:").as_deref(), Some(r".\a"));
    assert_eq!(strip_prefix(windows, r"C:\a\b", r"D:\a"), None);
    assert_eq!(
        sort_paths(windows, ["a", "/a", "D:/a", "c:b", "C:/a"].map(str::to_string).to_vec()),
        vec!["C:/a", "c:b", "D:/a", "/a", "a"]
    );
}

#[test]
fn shares_and_devices_are_prefixes_on_windows() {
    let windows = Platform::Windows;
    assert_eq!(file_name(windows, r"\\a\b"), None);
    assert_eq!(parent(windows, r"\\a\b"), None);
    assert_eq!(parent(windows, r"\\a\b\"), None);
    assert_eq!(parent(windows, r"\\a\b\foo").as_deref(), Some(r"\\a\b\"));
    assert_eq!(file_name(windows, r"\\a\b\foo").as_deref(), Some("foo"));
    assert_eq!(file_name(windows, "//a/b"), None);
    assert_eq!(file_name(windows, r"\\a").as_deref(), Some("a"));
    assert_eq!(parent(windows, r"\\a").as_deref(), Some(r"\"));
    assert_eq!(file_name(windows, r"\\.\foo"), None);
    assert_eq!(parent(windows, r"\\.\foo\bar").as_deref(), Some(r"\\.\foo\"));
    assert_eq!(file_name(Platform::Unix, "//a/b").as_deref(), Some("b"));

    assert_eq!(join_path(windows, r"\\a\b", "c"), r"\\a\b\c");
    assert_eq!(join_path(windows, r"\\a\b\c", r"\d"), r"\\a\b\d");
    assert_eq!(join_path(windows, r"C:\c", r"\\a\b"), r"\\a\b");
    assert_eq!(strip_prefix(windows, r"\\a\b\c\d", r"\\a\b").as_deref(), Some(r"c\d"));
    assert_eq!(strip_prefix(windows, r"\\a\b\c", r"\\a\x"), None);
    assert!(is_same_path(windows, r"\\a\b", "//a/b/"));
    assert!(!is_same_path(windows, r"\\a\b", r"\\A\b"));
    let mixed = [r"C:\a", r"\\a\b", r"\\.\d", r"\\?\C:\a", r"\\?\UNC\a\b", r"\\?\x", "x"];
    assert_eq!(
        sort_paths(windows, mixed.map(str::to_string).to_vec()),
        vec![r"\\?\x", r"\\?\UNC\a\b", r"\\?\C:\a", r"\\.\d", r"\\a\b", r"C:\a", "x"]
    );
}

#[test]
fn verbatim_prefixes_are_taken_as_they_are() {
    let windows = Platform::Windows;
    assert_eq!(file_name(windows, r"\\?\C:\a/b").as_deref(), Some("a/b"));
    assert_eq!(file_name(windows, r"\\?\C:\a\.."), None);
    assert_eq!(file_name(windows, r"\\?\C:a.txt"), None);
    assert_eq!(parent(windows, r"\\?\C:\a").as_deref(), Some(r"\\?\C:\"));
    assert_eq!(parent(windows, r"\\?\UNC\a\b\c").as_deref(), Some(r"\\?\UNC\a\b\"));
    assert_eq!(parent(windows, r"\\?\UNC\a\b"), None);
    assert_eq!(file_name(windows, "//?/C:/a").as_deref(), Some("a"));
    assert!(!is_same_path(windows, r"\\?\C:\a\.\b", r"\\?\C:\a\b"));
    assert!(!is_same_path(windows, r"\\?\C:\a", r"C:\a"));

    let joined = |base: &str, path: &str| join_path(windows, base, path);
    assert_eq!(joined(r"\\?\C:", "foo"), r"\\?\C:\foo");
    assert_eq!(joined(r"\\?\C:\bar", "../foo"), r"\\?\C:\foo");
    assert_eq!(joined(r"\\?\C:\bar", "../../foo"), r"\\?\C:\foo");
    assert_eq!(joined(r"\\?\C:\", "../foo"), r"\\?\C:\foo");
    assert_eq!(joined(r"\\?\C:", r"D:\foo/./"), r"D:\foo/./");
    assert_eq!(joined(r"\\?\C:", r"\\?\D:\foo\.\"), r"\\?\D:\foo\.\");
    assert_eq!(joined(r"\\?\A:\x\y", "/foo"), r"\\?\A:\foo");
    assert_eq!(joined(r"\\?\A:", r"..\foo\."), r"\\?\A:\foo");
    assert_eq!(joined(r"\\?\A:\x\y", r".\foo\."), r"\\?\A:\x\y\foo");
    assert_eq!(joined(r"\\?\A:\x\y", ""), r"\\?\A:\x\y\");
    assert_eq!(joined(r"\\?\UNC\a\b", "c"), r"\\?\UNC\a\b\c");
    assert_eq!(strip_prefix(windows, r"\\?\C:\a\b", r"\\?\c:\a").as_deref(), Some("b"));
}

#[test]
fn texts_are_sorted_as_std_does() {
    let texts: Vec<String> =
        ["b", "", "a", "ab", "Z", "ä", "b", "\u{10000}", "\u{ffff}"].iter().map(|text| text.to_string()).collect();
    let order = text_sorting(&texts);
    let sorted: Vec<String> = order.iter().map(|place| texts[*place].clone()).collect();
    let mut expected = texts.clone();
    expected.sort();
    assert_eq!(sorted, expected);
    let places: Vec<usize> = order.iter().copied().filter(|place| texts[*place] == "b").collect();
    assert_eq!(places, vec![0, 6]);
}
