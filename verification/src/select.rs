//! Selecting the files worth analysing: those whose extension is on an
//! allow-list and that still exist.

use crate::paths::{chars_eq_ignore_ascii_case, eq_ignore_ascii_case, extension, extension_chars};
use crate::text::{chars_of, string_views, vec_views};
use vstd::prelude::*;

verus! {

/// A path, and whether a file exists there now.
#[derive(Debug, PartialEq, Eq)]
pub struct FileCandidate {
    pub path: String,
    pub exists: bool,
}

/// The extensions analysed when the caller names none.
pub open spec fn default_extensions() -> Seq<Seq<char>> {
    seq![
        "cs"@,
        "rs"@,
        "py"@,
        "js"@,
        "ts"@,
        "jsx"@,
        "tsx"@,
        "java"@,
        "go"@,
        "rb"@,
        "php"@,
        "c"@,
        "cpp"@,
        "h"@,
        "hpp"@,
    ]
}

/// The views of a sequence of string slices.
pub open spec fn str_views(list: Seq<&str>) -> Seq<Seq<char>> {
    list.map_values(|s: &str| s@)
}

/// The allow-list in force: the caller's, or the default one.
pub open spec fn allowed_extensions(extensions: Option<&[&str]>) -> Seq<Seq<char>> {
    match extensions {
        Some(list) => str_views(list@),
        None => default_extensions(),
    }
}

/// Whether `ext` is on the allow-list, the case of ASCII letters aside.
pub open spec fn extension_matches(ext: Seq<char>, allowed: Seq<Seq<char>>) -> bool {
    exists|i: int| 0 <= i < allowed.len() && eq_ignore_ascii_case(#[trigger] allowed[i], ext)
}

/// Whether the extension of `path` is on the allow-list. A path without an
/// extension never is.
pub open spec fn is_analyzable(path: Seq<char>, allowed: Seq<Seq<char>>) -> bool {
    match extension(path) {
        Some(ext) => extension_matches(ext, allowed),
        None => false,
    }
}

/// The paths of the candidates that exist and are analyzable, in order.
pub open spec fn selected(files: Seq<FileCandidate>, allowed: Seq<Seq<char>>) -> Seq<Seq<char>>
    decreases files.len(),
{
    if files.len() == 0 {
        Seq::empty()
    } else if files.last().exists && is_analyzable(files.last().path@, allowed) {
        selected(files.drop_last(), allowed).push(files.last().path@)
    } else {
        selected(files.drop_last(), allowed)
    }
}

/// The paths of all candidates, in order.
pub open spec fn all_paths(files: Seq<FileCandidate>) -> Seq<Seq<char>> {
    files.map_values(|file: FileCandidate| file.path@)
}

fn on_allow_list(ext: &[char], allowed: &Vec<Vec<char>>) -> (r: bool)
    ensures
        r == extension_matches(ext@, vec_views(allowed@)),
{
    let ghost list = vec_views(allowed@);
    let mut i: usize = 0;
    while i < allowed.len()
        invariant
            i <= allowed@.len(),
            list == vec_views(allowed@),
            forall|j: int| 0 <= j < i ==> !eq_ignore_ascii_case(#[trigger] list[j], ext@),
        decreases allowed@.len() - i,
    {
        if chars_eq_ignore_ascii_case(allowed[i].as_slice(), ext) {
            assert(eq_ignore_ascii_case(list[i as int], ext@));
            return true;
        }
        i = i + 1;
    }
    false
}

fn select_from(files: Vec<FileCandidate>, allowed: &Vec<Vec<char>>) -> (kept: Vec<String>)
    ensures
        string_views(kept@) == selected(files@, vec_views(allowed@)),
{
    let ghost list = vec_views(allowed@);
    let mut kept: Vec<String> = Vec::new();
    assert(string_views(kept@) =~= Seq::<Seq<char>>::empty());
    assert(files@.take(0) =~= Seq::<FileCandidate>::empty());
    let mut i: usize = 0;
    while i < files.len()
        invariant
            i <= files@.len(),
            list == vec_views(allowed@),
            string_views(kept@) == selected(files@.take(i as int), list),
        decreases files@.len() - i,
    {
        let ghost before = string_views(kept@);
        assert(files@.take(i + 1).drop_last() =~= files@.take(i as int));
        let file: &FileCandidate = &files[i];
        if file.exists {
            let path: Vec<char> = chars_of(file.path.as_str());
            let analyzable: bool = match extension_chars(path.as_slice()) {
                Some(ext) => on_allow_list(ext.as_slice(), allowed),
                None => false,
            };
            if analyzable {
                let chosen: String = file.path.clone();
                kept.push(chosen);
                assert(string_views(kept@) =~= before.push(files@[i as int].path@));
            }
        }
        i = i + 1;
    }
    assert(files@.take(files@.len() as int) =~= files@);
    kept
}

/// Keeps the candidates that exist and whose extension is on the allow-list,
/// in order. With no allow-list given, the default one holds.
pub fn filter_analyzable_files(files: Vec<FileCandidate>, extensions: Option<&[&str]>) -> (kept:
    Vec<String>)
    ensures
        string_views(kept@) == selected(files@, allowed_extensions(extensions)),
{
    let defaults: [&str; 15] = [
        "cs",
        "rs",
        "py",
        "js",
        "ts",
        "jsx",
        "tsx",
        "java",
        "go",
        "rb",
        "php",
        "c",
        "cpp",
        "h",
        "hpp",
    ];
    assert(str_views(defaults@) =~= default_extensions());
    let list: &[&str] = match extensions {
        Some(given) => given,
        None => defaults.as_slice(),
    };
    let mut allowed: Vec<Vec<char>> = Vec::new();
    let mut i: usize = 0;
    while i < list.len()
        invariant
            i <= list@.len(),
            vec_views(allowed@) == str_views(list@).take(i as int),
        decreases list@.len() - i,
    {
        let ghost before = vec_views(allowed@);
        let chars: Vec<char> = chars_of(list[i]);
        allowed.push(chars);
        assert(vec_views(allowed@) =~= before.push(list@[i as int]@));
        assert(str_views(list@).take(i + 1) =~= str_views(list@).take(i as int).push(
            list@[i as int]@,
        ));
        i = i + 1;
    }
    assert(str_views(list@).take(list@.len() as int) =~= str_views(list@));
    select_from(files, &allowed)
}

/// Applies the caller's allow-list, if there is one, as
/// [`filter_analyzable_files`] does. With none, every path is kept as it is.
pub fn apply_extension_filter(files: Vec<FileCandidate>, include_ext: &Option<Vec<String>>) -> (kept:
    Vec<String>)
    ensures
        match include_ext {
            Some(list) => string_views(kept@) == selected(files@, string_views(list@)),
            None => string_views(kept@) == all_paths(files@),
        },
{
    match include_ext {
        Some(list) => {
            let mut allowed: Vec<Vec<char>> = Vec::new();
            let mut i: usize = 0;
            while i < list.len()
                invariant
                    i <= list@.len(),
                    vec_views(allowed@) == string_views(list@).take(i as int),
                decreases list@.len() - i,
            {
                let ghost before = vec_views(allowed@);
                let chars: Vec<char> = chars_of(list[i].as_str());
                allowed.push(chars);
                assert(vec_views(allowed@) =~= before.push(list@[i as int]@));
                assert(string_views(list@).take(i + 1) =~= string_views(list@).take(
                    i as int,
                ).push(list@[i as int]@));
                i = i + 1;
            }
            assert(string_views(list@).take(list@.len() as int) =~= string_views(list@));
            select_from(files, &allowed)
        },
        None => {
            let mut kept: Vec<String> = Vec::new();
            let mut i: usize = 0;
            while i < files.len()
                invariant
                    i <= files@.len(),
                    string_views(kept@) == all_paths(files@).take(i as int),
                decreases files@.len() - i,
            {
                let ghost before = string_views(kept@);
                let path: String = files[i].path.clone();
                kept.push(path);
                assert(string_views(kept@) =~= before.push(files@[i as int].path@));
                assert(all_paths(files@).take(i + 1) =~= all_paths(files@).take(i as int).push(
                    files@[i as int].path@,
                ));
                i = i + 1;
            }
            assert(all_paths(files@).take(files@.len() as int) =~= all_paths(files@));
            kept
        },
    }
}

/// With an empty allow-list nothing is selected.
pub proof fn lemma_empty_allow_list_selects_nothing(files: Seq<FileCandidate>)
    ensures
        selected(files, Seq::empty()) == Seq::<Seq<char>>::empty(),
    decreases files.len(),
{
    if files.len() > 0 {
        lemma_empty_allow_list_selects_nothing(files.drop_last());
    }
}

} // verus!
