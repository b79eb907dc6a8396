//! Reading, comparing and writing paths, and plain text.

use staged_update::order::{not_after, sort_paths};
use staged_update::path::{
    file_name_of, is_preserved_path, join_name, name_matches, normalize_relative_path, parent_dir, path_key, place,
    PathFault, Platform, RelativePath,
};
use staged_update::text::{
    decimal_text, ends_with, replace_char, same_text, signed_decimal_text, split_pieces, starts_with,
    three_digit_text, to_ascii_lower, trim,
};

fn relative(parts: &[&str]) -> RelativePath {
    RelativePath {
        parts: parts.iter().map(|p| p.to_string()).collect(),
    }
}

fn read(platform: Platform, raw: &str) -> Result<Vec<String>, PathFault> {
    normalize_relative_path(platform, raw).map(|path| path.parts)
}

#[test]
fn declared_paths_are_normalized() {
    assert_eq!(
        read(Platform::Unix, "  python\\lib/./x.py \n").unwrap(),
        vec!["python", "lib", "x.py"]
    );
    assert_eq!(read(Platform::Unix, "./a//b/").unwrap(), vec!["a", "b"]);
    assert_eq!(read(Platform::Unix, "...").unwrap(), vec!["..."]);
    assert_eq!(read(Platform::Unix, "C:/x").unwrap(), vec!["C:", "x"]);
    assert_eq!(
        read(Platform::Unix, "\u{3000}模型/数据.bin\u{85}").unwrap(),
        vec!["模型", "数据.bin"]
    );
}

#[test]
fn unusable_paths_are_refused() {
    for raw in ["", "   ", "/etc/passwd", "\\server", " /x"] {
        assert_eq!(read(Platform::Unix, raw), Err(PathFault::Illegal));
    }
    for raw in ["..", "a/../b", "a\\..", "../outside.bin"] {
        assert_eq!(read(Platform::Unix, raw), Err(PathFault::Escapes));
    }
    for raw in [".", "././", "cache", "config/user.json", "debug/x", "logs/y", ".update-tx/z"] {
        assert_eq!(read(Platform::Unix, raw), Err(PathFault::Reserved));
    }
    assert_eq!(read(Platform::Unix, "CACHE/x").unwrap(), vec!["CACHE", "x"]);
    assert_eq!(read(Platform::Windows, "CACHE/x"), Err(PathFault::Reserved));
    assert_eq!(read(Platform::Windows, "C:/x"), Err(PathFault::Escapes));
    assert_eq!(read(Platform::Windows, "c:x"), Err(PathFault::Escapes));
    assert_eq!(read(Platform::Windows, "a/D:x"), Err(PathFault::Reserved));
    assert_eq!(read(Platform::Windows, "a/1:x").unwrap(), vec!["a", "1:x"]);
}

#[test]
fn names_are_compared_as_the_platform_does() {
    assert!(name_matches(Platform::Windows, "Changes.JSON", "changes.json"));
    assert!(!name_matches(Platform::Unix, "Changes.JSON", "changes.json"));
    assert!(!name_matches(Platform::Windows, "CAFÉ", "café"));
    assert!(is_preserved_path(Platform::Windows, &relative(&["LOGS", "a"])));
    assert!(!is_preserved_path(Platform::Unix, &relative(&["LOGS", "a"])));
    assert!(is_preserved_path(Platform::Unix, &relative(&[])));
    assert_eq!(path_key(Platform::Windows, &relative(&["A", "b.TXT"])), "a/b.txt");
    assert_eq!(path_key(Platform::Unix, &relative(&["A", "b.TXT"])), "A/b.TXT");
    let odd = relative(&["Python\\Lib", "a.PYD"]);
    assert_eq!(path_key(Platform::Unix, &odd), "Python/Lib/a.PYD");
    assert_eq!(path_key(Platform::Windows, &odd), "python/lib/a.pyd");
}

#[test]
fn only_plain_first_components_are_not_preserved() {
    for parts in [
        &[".", "x"][..],
        &["..", "x"],
        &["", "x"],
        &["/x"],
        &["../x"],
        &["./x"],
        &["config/user.json"],
        &[".update-tx", "x"],
    ] {
        assert!(is_preserved_path(Platform::Unix, &relative(parts)), "{:?}", parts);
        assert!(is_preserved_path(Platform::Windows, &relative(parts)), "{:?}", parts);
    }
    for parts in [&["a", "config"][..], &["a/config"], &["a", ".."], &["cached"]] {
        assert!(!is_preserved_path(Platform::Unix, &relative(parts)), "{:?}", parts);
        assert!(!is_preserved_path(Platform::Windows, &relative(parts)), "{:?}", parts);
    }
    assert!(is_preserved_path(Platform::Windows, &relative(&["C:", "x"])));
    assert!(!is_preserved_path(Platform::Unix, &relative(&["C:", "x"])));
    assert!(is_preserved_path(Platform::Windows, &relative(&["logs\\x"])));
    assert!(!is_preserved_path(Platform::Unix, &relative(&["logs\\x"])));
}

#[test]
fn paths_are_joined_as_the_platform_does() {
    assert_eq!(join_name(Platform::Unix, "/a", "b"), "/a/b");
    assert_eq!(join_name(Platform::Unix, "/a/", "b"), "/a/b");
    assert_eq!(join_name(Platform::Unix, "", "b"), "b");
    assert_eq!(join_name(Platform::Unix, "a\\", "b"), "a\\/b");
    assert_eq!(join_name(Platform::Windows, "C:\\a", "b"), "C:\\a\\b");
    assert_eq!(join_name(Platform::Windows, "C:/a/", "b"), "C:/a/b");
    assert_eq!(join_name(Platform::Windows, "C:", "b"), "C:b");
    assert_eq!(join_name(Platform::Windows, "C:\\a", "v:x"), "v:x");
    assert_eq!(place(Platform::Windows, "C:\\a", &relative(&["b", "c"])), "C:\\a\\b\\c");
    assert_eq!(place(Platform::Unix, "/a", &relative(&["b", "c"])), "/a/b/c");
}

#[test]
fn parents_are_found_as_the_standard_library_finds_them() {
    let cases = [
        "", "/", "//", "a", "/a", "a/b", "/a/b", "/a/b/", "a//b", "./a", "/./a", "a/.", "a/./b", ".",
        "..", "a/..", "../x", "/a/./", "a/b/./.", "//a", "a\\b", "C:a",
    ];
    for case in cases {
        let expected = std::path::Path::new(case)
            .parent()
            .map(|p| p.to_str().unwrap().to_string());
        assert_eq!(parent_dir(Platform::Unix, case), expected, "{:?}", case);
        let name = std::path::Path::new(case)
            .file_name()
            .map(|n| n.to_str().unwrap().to_string());
        assert_eq!(file_name_of(Platform::Unix, case), name, "{:?}", case);
    }
    assert_eq!(parent_dir(Platform::Windows, "C:\\a"), Some("C:\\".to_string()));
    assert_eq!(parent_dir(Platform::Windows, "C:a"), Some("C:".to_string()));
    assert_eq!(parent_dir(Platform::Windows, "C:\\"), None);
    assert_eq!(parent_dir(Platform::Windows, "C:"), None);
    assert_eq!(parent_dir(Platform::Windows, "a/b\\c"), Some("a/b".to_string()));
    for (path, parent, name) in [
        ("\\\\server\\share\\a", Some("\\\\server\\share\\"), Some("a")),
        ("\\\\server\\share\\a\\b\\", Some("\\\\server\\share\\a"), Some("b")),
        ("\\\\server\\share\\", None, None),
        ("\\\\server\\share", None, None),
        ("\\\\?\\C:\\a", Some("\\\\?\\C:\\"), Some("a")),
        ("\\\\?\\UNC\\server\\share\\a", Some("\\\\?\\UNC\\server\\share\\"), Some("a")),
        ("\\\\?\\UNC\\server\\share", None, None),
        ("\\\\server", Some("\\"), Some("server")),
        ("C:\\app\\t.exe", Some("C:\\app"), Some("t.exe")),
        ("C:\\app\\..", Some("C:\\app"), None),
        ("C:t", Some("C:"), Some("t")),
        ("C:\\", None, None),
    ] {
        assert_eq!(parent_dir(Platform::Windows, path).as_deref(), parent, "{:?}", path);
        assert_eq!(file_name_of(Platform::Windows, path).as_deref(), name, "{:?}", path);
    }
}

#[test]
fn joins_agree_with_the_standard_library() {
    for base in ["", "/", "a", "a/", "/x/y", "//", "."] {
        for name in ["b", "b.c", "b/c"] {
            let expected = std::path::Path::new(base).join(name);
            assert_eq!(join_name(Platform::Unix, base, name), expected.to_str().unwrap());
        }
    }
}

#[test]
fn accepted_paths_read_back() {
    for raw in ["a\\b/./c", " python//x.py ", "模型/数据", "a b/c d"] {
        let path = read(Platform::Windows, raw).unwrap();
        assert_eq!(read(Platform::Windows, &path.join("/")).unwrap(), path);
    }
    let odd = read(Platform::Unix, "./ a").unwrap();
    assert_eq!(odd, vec![" a"]);
    assert_eq!(read(Platform::Unix, &odd.join("/")).unwrap(), vec!["a"]);
}

#[test]
fn placing_is_going_down() {
    for (platform, base) in [
        (Platform::Unix, "/t"),
        (Platform::Unix, ""),
        (Platform::Unix, "/"),
        (Platform::Windows, "C:"),
        (Platform::Windows, "C:\\t"),
    ] {
        let down = join_name(platform, &join_name(platform, base, "a"), "b");
        assert_eq!(place(platform, base, &relative(&["a", "b"])), down);
    }
}

#[test]
fn sorting_agrees_with_the_standard_library() {
    let texts = ["b", "a/b", "a", "a.b/c", "ab", "a/b/c", "é", "a/B", "z", "𝄞", "\u{ffff}"];
    let list: Vec<RelativePath> = texts
        .iter()
        .map(|t| relative(&t.split('/').collect::<Vec<_>>()))
        .collect();
    let sorted: Vec<String> = sort_paths(&list).iter().map(|p| p.parts.join("/")).collect();
    let mut expected: Vec<std::path::PathBuf> = texts.iter().map(std::path::PathBuf::from).collect();
    expected.sort();
    let expected: Vec<String> = expected
        .iter()
        .map(|p| p.to_str().unwrap().to_string())
        .collect();
    assert_eq!(sorted, expected);
    assert!(not_after(&list[2], &list[1]));
    assert!(!not_after(&list[1], &list[2]));
}

#[test]
fn texts_are_cut_and_rendered() {
    let trimmed: String = trim("\t \u{a0}x y\u{2003}\n").into_iter().collect();
    assert_eq!(trimmed, "x y");
    let replaced: String = replace_char(&"a\\b\\".chars().collect(), '\\', '/').into_iter().collect();
    assert_eq!(replaced, "a/b/");
    assert_eq!(split_pieces(&"a//b".chars().collect(), '/'), vec!["a", "", "b"]);
    assert_eq!(split_pieces(&Vec::new(), '/'), vec![""]);
    assert!(ends_with("pack.tgz", ".tgz") && !ends_with("tgz", ".tgz"));
    assert!(starts_with("a/b", "a/") && !starts_with("ab", "a/"));
    assert!(same_text("更新", "更新") && !same_text("更新", "更"));
    assert_eq!(to_ascii_lower("ABZÀ[`a"), "abzÀ[`a");
    assert_eq!(decimal_text(0), "0");
    assert_eq!(decimal_text(18446744073709551615), "18446744073709551615");
    assert_eq!(three_digit_text(7), "007");
    assert_eq!(three_digit_text(999), "999");
    assert_eq!(signed_decimal_text(-2147483648), "-2147483648");
    assert_eq!(signed_decimal_text(32), "32");
}

#[test]
fn white_space_is_trimmed_as_the_standard_library_trims_it() {
    for code in 0..=0x3100u32 {
        if let Some(c) = char::from_u32(code) {
            let text = format!("{}x{}", c, c);
            let trimmed: String = trim(&text).into_iter().collect();
            assert_eq!(trimmed, text.trim(), "{:x}", code);
        }
    }
}
