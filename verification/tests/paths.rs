use skynet_review::paths::{
    chars_eq_ignore_ascii_case, extension_of, file_name_of, join_path, starts_with_path,
};
use std::path::Path;

const SAMPLES: [&str; 40] = [
    "",
    "/",
    "//",
    ".",
    "..",
    "./",
    "a",
    "a/",
    "a//",
    "a/.",
    "a/./",
    "a/..",
    "a/b",
    "/a/b.rs",
    "/a/b.rs/",
    "/a/b.rs/.",
    "a.b.c",
    ".hidden",
    ".hidden.txt",
    "dir/.hidden",
    "name.",
    "name..",
    "...",
    "..a",
    "a..b",
    "foo.rs",
    "foo.RS",
    "foo.bin",
    "/x/y.tar.gz",
    "no_extension",
    "dir.d/file",
    "dir.d/file.",
    "/repo/src/main.rs",
    "rel/../up.py",
    "tr/ailing/./",
    "weird name .c",
    "caf\u{e9}.\u{e9}xt",
    "a/b/..",
    "a/b/../",
    "./x.h",
];

#[test]
fn file_name_agrees_with_the_standard_library() {
    for sample in SAMPLES {
        let expected = Path::new(sample).file_name().map(|n| n.to_str().unwrap().to_string());
        assert_eq!(file_name_of(sample), expected, "{:?}", sample);
    }
}

#[test]
fn extension_agrees_with_the_standard_library() {
    for sample in SAMPLES {
        let expected = Path::new(sample).extension().map(|n| n.to_str().unwrap().to_string());
        assert_eq!(extension_of(sample), expected, "{:?}", sample);
    }
}

#[test]
fn extension_examples() {
    assert_eq!(extension_of("foo.rs"), Some("rs".to_string()));
    assert_eq!(extension_of("/a/b/archive.tar.gz"), Some("gz".to_string()));
    assert_eq!(extension_of("Makefile"), None);
    assert_eq!(extension_of(".gitignore"), None);
    assert_eq!(extension_of("trailing."), Some(String::new()));
    assert_eq!(extension_of("dir.with.dots/file"), None);
    assert_eq!(extension_of(""), None);
    assert_eq!(extension_of("a/.."), None);
}

#[test]
fn join_agrees_with_the_standard_library() {
    let bases = ["", "/", "/repo", "/repo/", "rel", "rel/", "/a b/c"];
    let relatives = ["", "a.rs", "src/a.rs", "/abs/a.rs", "../up", "./x", " spaced "];
    for base in bases {
        for relative in relatives {
            let expected = Path::new(base).join(relative).to_str().unwrap().to_string();
            assert_eq!(join_path(base, relative), expected, "{:?} + {:?}", base, relative);
        }
    }
}

#[test]
fn join_examples() {
    assert_eq!(join_path("/repo", "src/a.rs"), "/repo/src/a.rs");
    assert_eq!(join_path("/repo/", "src/a.rs"), "/repo/src/a.rs");
    assert_eq!(join_path("/repo", "/etc/passwd"), "/etc/passwd");
    assert_eq!(join_path("", "a"), "a");
}

#[test]
fn prefix_test_takes_whole_components() {
    assert!(starts_with_path("/repo/src/a.rs", "/repo"));
    assert!(starts_with_path("/repo", "/repo"));
    assert!(starts_with_path("/repo/", "/repo"));
    assert!(starts_with_path("/repo", "/repo/"));
    assert!(starts_with_path("/repo/a", "/"));
    assert!(!starts_with_path("/repository/a", "/repo"));
    assert!(!starts_with_path("/rep", "/repo"));
    assert!(!starts_with_path("/other/repo/a", "/repo"));
    assert!(!starts_with_path("repo/a", "/repo"));
    assert!(!starts_with_path("/repo/a", "repo"));
    assert!(starts_with_path("repo/a", "repo"));
    assert!(starts_with_path("/anything", ""));
    assert!(!starts_with_path("/", "/repo"));
}

#[test]
fn prefix_test_agrees_with_the_standard_library() {
    let paths = [
        "", "/", "/a", "/a/", "/a/b", "/a/b/c", "/ab", "/a//b", "/a/./b", "a", "a/b", "a/bc",
        "/a/b/..", "/a/../b", "/x",
    ];
    for path in paths {
        for base in paths {
            assert_eq!(
                starts_with_path(path, base),
                Path::new(path).starts_with(base),
                "{:?} starts with {:?}",
                path,
                base
            );
        }
    }
}

#[test]
fn case_folding_is_ascii_only() {
    let eq = |a: &str, b: &str| {
        let left: Vec<char> = a.chars().collect();
        let right: Vec<char> = b.chars().collect();
        chars_eq_ignore_ascii_case(&left, &right)
    };
    assert!(eq("rs", "RS"));
    assert!(eq("Rs", "rS"));
    assert!(eq("", ""));
    assert!(eq("tar.GZ", "TAR.gz"));
    assert!(!eq("rs", "rss"));
    assert!(!eq("rs", "r5"));
    assert!(!eq("\u{e9}", "\u{c9}"));
    assert!(!eq("@", "`"));
    assert!(!eq("[", "{"));
    for (a, b) in [("aZ09", "Az09"), ("K", "\u{212a}"), ("straSSe", "stra\u{df}e"), ("i", "I")] {
        assert_eq!(eq(a, b), a.eq_ignore_ascii_case(b), "{:?} {:?}", a, b);
    }
}
