use skynet_review::select::{apply_extension_filter, filter_analyzable_files, FileCandidate};

fn present(path: &str) -> FileCandidate {
    FileCandidate { path: path.to_string(), exists: true }
}

fn absent(path: &str) -> FileCandidate {
    FileCandidate { path: path.to_string(), exists: false }
}

#[test]
fn empty_allow_list_selects_nothing() {
    let files = vec![present("foo.rs"), present("foo.bin"), present("foo")];
    let none: [&str; 0] = [];
    assert!(filter_analyzable_files(files, Some(&none)).is_empty());
    assert!(filter_analyzable_files(Vec::new(), Some(&none)).is_empty());
}

#[test]
fn default_list_keeps_sources_in_any_case() {
    let files = vec![present("foo.rs"), present("foo.bin"), present("foo.RS")];
    assert_eq!(filter_analyzable_files(files, None), vec!["foo.rs", "foo.RS"]);
}

#[test]
fn default_list_has_fifteen_extensions() {
    let known = [
        "cs", "rs", "py", "js", "ts", "jsx", "tsx", "java", "go", "rb", "php", "c", "cpp", "h",
        "hpp",
    ];
    for ext in known {
        let path = format!("/repo/src/file.{}", ext);
        assert_eq!(filter_analyzable_files(vec![present(&path)], None), vec![path.clone()]);
        let upper = format!("/repo/src/file.{}", ext.to_uppercase());
        assert_eq!(filter_analyzable_files(vec![present(&upper)], None), vec![upper.clone()]);
    }
    for ext in ["bin", "txt", "md", "rsx", "r", "", "cc", "hh", "kt", "swift", "json", "toml"] {
        let path = format!("file.{}", ext);
        assert!(filter_analyzable_files(vec![present(&path)], None).is_empty(), "{}", path);
    }
}

#[test]
fn paths_without_extension_never_match() {
    let files = vec![
        present("Makefile"),
        present(".rs"),
        present("dir.rs/file"),
        present("rs"),
        present(""),
        present("a/.."),
        present("/"),
    ];
    assert!(filter_analyzable_files(files, None).is_empty());
    let files = vec![present("Makefile"), present(".py")];
    assert!(filter_analyzable_files(files, Some(&["", "py", "Makefile"])).is_empty());
}

#[test]
fn missing_files_are_dropped() {
    let files = vec![present("a.rs"), absent("b.rs"), present("c.py"), absent("d.bin")];
    assert_eq!(filter_analyzable_files(files, None), vec!["a.rs", "c.py"]);
}

#[test]
fn caller_list_replaces_the_default() {
    let files = vec![present("a.rs"), present("b.TXT"), present("c.md"), present("d.txt.bak")];
    assert_eq!(filter_analyzable_files(files, Some(&["txt", "MD"])), vec!["b.TXT", "c.md"]);
}

#[test]
fn order_and_duplicates_are_kept() {
    let files = vec![present("z.rs"), present("a.rs"), present("z.rs")];
    assert_eq!(filter_analyzable_files(files, None), vec!["z.rs", "a.rs", "z.rs"]);
}

#[test]
fn trailing_dot_has_the_empty_extension() {
    let files = vec![present("name."), present("name")];
    assert_eq!(filter_analyzable_files(files, Some(&[""])), vec!["name."]);
}

#[test]
fn no_filter_keeps_every_path() {
    let files = vec![present("a.bin"), absent("gone.rs"), present("Makefile")];
    assert_eq!(apply_extension_filter(files, &None), vec!["a.bin", "gone.rs", "Makefile"]);
}

#[test]
fn given_filter_is_applied() {
    let files = vec![present("a.bin"), absent("gone.rs"), present("b.Rs"), present("c.py")];
    let list = Some(vec!["rs".to_string(), "bin".to_string()]);
    assert_eq!(apply_extension_filter(files, &list), vec!["a.bin", "b.Rs"]);
    let files = vec![present("a.rs")];
    assert!(apply_extension_filter(files, &Some(Vec::new())).is_empty());
}
