//! Paths as text: components, file names, extensions, joining and the
//! component-wise prefix test.
//!
//! A path is a string whose components are separated by `/`. Its names are
//! the non-empty pieces between separators other than `.`; a leading `/`
//! makes it rooted.

use crate::text::{chars_equal, chars_of, split_chars, split_on, string_of, vec_views};
use vstd::prelude::*;

verus! {

pub open spec fn dot() -> Seq<char> {
    seq!['.']
}

pub open spec fn dot_dot() -> Seq<char> {
    seq!['.', '.']
}

/// A piece between two separators names something unless it is empty or `.`.
pub open spec fn is_name(piece: Seq<char>) -> bool {
    piece.len() > 0 && piece != dot()
}

/// Of the pieces of a path, those that are names, in order.
pub open spec fn names_among(pieces: Seq<Seq<char>>) -> Seq<Seq<char>>
    decreases pieces.len(),
{
    if pieces.len() == 0 {
        Seq::empty()
    } else if is_name(pieces.last()) {
        names_among(pieces.drop_last()).push(pieces.last())
    } else {
        names_among(pieces.drop_last())
    }
}

/// The names of a path, in order.
pub open spec fn names(path: Seq<char>) -> Seq<Seq<char>> {
    names_among(split_on(path, '/'))
}

/// Whether the path starts at the root directory.
pub open spec fn is_rooted(path: Seq<char>) -> bool {
    path.len() > 0 && path.first() == '/'
}

/// The final name of a path. There is none where the path has no name or
/// ends in `..`.
pub open spec fn file_name(path: Seq<char>) -> Option<Seq<char>> {
    let all = names(path);
    if all.len() == 0 || all.last() == dot_dot() {
        None
    } else {
        Some(all.last())
    }
}

/// The index of the last `.` in `name`, or -1 if it holds none.
pub open spec fn last_dot(name: Seq<char>) -> int
    decreases name.len(),
{
    if name.len() == 0 {
        -1
    } else if name.last() == '.' {
        name.len() - 1
    } else {
        last_dot(name.drop_last())
    }
}

/// The extension of a file name: what follows its last `.`, unless the name
/// holds none or only starts with one.
pub open spec fn name_extension(name: Seq<char>) -> Option<Seq<char>> {
    let at = last_dot(name);
    if at <= 0 {
        None
    } else {
        Some(name.skip(at + 1))
    }
}

/// The extension of a path: that of its file name.
pub open spec fn extension(path: Seq<char>) -> Option<Seq<char>> {
    match file_name(path) {
        Some(name) => name_extension(name),
        None => None,
    }
}

/// `relative` resolved against `base`: an absolute `relative` stands for
/// itself, otherwise it is appended, with a separator where `base` does not
/// end in one.
pub open spec fn joined(base: Seq<char>, relative: Seq<char>) -> Seq<char> {
    if is_rooted(relative) {
        relative
    } else if base.len() == 0 || base.last() == '/' {
        base + relative
    } else {
        base + seq!['/'] + relative
    }
}

/// Whether `base` is a prefix of `path`, whole components only: `/repo` is
/// a prefix of `/repo/src` and not of `/repository`.
pub open spec fn path_starts_with(path: Seq<char>, base: Seq<char>) -> bool {
    if is_rooted(base) {
        is_rooted(path) && names(base).is_prefix_of(names(path))
    } else if names(base).len() == 0 {
        true
    } else {
        !is_rooted(path) && names(base).is_prefix_of(names(path))
    }
}

/// The code of a character with ASCII upper-case letters folded to lower case.
pub open spec fn folded(c: char) -> int {
    if 'A' <= c <= 'Z' {
        c as u32 + 32
    } else {
        c as u32 as int
    }
}

/// Whether two texts are equal but for the case of ASCII letters.
pub open spec fn eq_ignore_ascii_case(a: Seq<char>, b: Seq<char>) -> bool {
    a.len() == b.len() && forall|i: int| 0 <= i < a.len() ==> folded(a[i]) == folded(b[i])
}

fn fold_char(c: char) -> (code: u32)
    ensures
        code == folded(c),
{
    if 'A' <= c && c <= 'Z' {
        c as u32 + 32
    } else {
        c as u32
    }
}

/// Whether two texts are equal but for the case of ASCII letters.
pub fn chars_eq_ignore_ascii_case(a: &[char], b: &[char]) -> (r: bool)
    ensures
        r == eq_ignore_ascii_case(a@, b@),
{
    if a.len() != b.len() {
        return false;
    }
    let mut i: usize = 0;
    while i < a.len()
        invariant
            a@.len() == b@.len(),
            i <= a@.len(),
            forall|j: int| 0 <= j < i ==> folded(a@[j]) == folded(b@[j]),
        decreases a@.len() - i,
    {
        if fold_char(a[i]) != fold_char(b[i]) {
            return false;
        }
        i = i + 1;
    }
    true
}

fn is_dot(piece: &[char]) -> (r: bool)
    ensures
        r == (piece@ == dot()),
{
    if piece.len() == 1 && piece[0] == '.' {
        assert(piece@ =~= dot());
        true
    } else {
        proof {
            if piece@.len() == 1 {
                assert(piece@[0] != dot()[0]);
            }
        }
        false
    }
}

fn is_dot_dot(piece: &[char]) -> (r: bool)
    ensures
        r == (piece@ == dot_dot()),
{
    if piece.len() == 2 && piece[0] == '.' && piece[1] == '.' {
        assert(piece@ =~= dot_dot());
        true
    } else {
        proof {
            if piece@.len() == 2 {
                assert(piece@[0] != dot_dot()[0] || piece@[1] != dot_dot()[1]);
            }
        }
        false
    }
}

/// The names of a path, in order.
pub fn path_names(path: &[char]) -> (found: Vec<Vec<char>>)
    ensures
        vec_views(found@) == names(path@),
{
    let pieces: Vec<Vec<char>> = split_chars(path, '/');
    let mut found: Vec<Vec<char>> = Vec::new();
    let ghost all = vec_views(pieces@);
    assert(all.take(0) =~= Seq::<Seq<char>>::empty());
    assert(vec_views(found@) =~= Seq::<Seq<char>>::empty());
    let mut i: usize = 0;
    while i < pieces.len()
        invariant
            i <= pieces@.len(),
            all == vec_views(pieces@),
            vec_views(found@) == names_among(all.take(i as int)),
        decreases pieces@.len() - i,
    {
        let ghost before = vec_views(found@);
        assert(all.take(i + 1).drop_last() =~= all.take(i as int));
        assert(all.take(i + 1).last() == pieces@[i as int]@);
        let piece: &Vec<char> = &pieces[i];
        if piece.len() > 0 && !is_dot(piece.as_slice()) {
            found.push(piece.clone());
            assert(vec_views(found@) =~= before.push(pieces@[i as int]@));
        }
        i = i + 1;
    }
    assert(all.take(pieces@.len() as int) =~= all);
    found
}

/// The position of the last `.` in `name`, if it holds one.
fn find_last_dot(name: &[char]) -> (at: Option<usize>)
    ensures
        match at {
            Some(i) => i == last_dot(name@) && i < name@.len(),
            None => last_dot(name@) == -1,
        },
{
    let mut end: usize = name.len();
    assert(name@.take(end as int) =~= name@);
    while end > 0
        invariant
            end <= name@.len(),
            last_dot(name@) == last_dot(name@.take(end as int)),
        decreases end,
    {
        assert(name@.take(end as int).drop_last() =~= name@.take(end - 1));
        if name[end - 1] == '.' {
            return Some(end - 1);
        }
        end = end - 1;
    }
    None
}

/// The file name of a path, as characters.
pub fn file_name_chars(path: &[char]) -> (name: Option<Vec<char>>)
    ensures
        match name {
            Some(found) => file_name(path@) == Some(found@),
            None => file_name(path@) is None,
        },
{
    let mut all: Vec<Vec<char>> = path_names(path);
    let ghost views = vec_views(all@);
    match all.pop() {
        Some(last) => {
            assert(views.last() == last@);
            if is_dot_dot(last.as_slice()) {
                None
            } else {
                Some(last)
            }
        },
        None => None,
    }
}

/// The extension of a path, as characters.
pub fn extension_chars(path: &[char]) -> (ext: Option<Vec<char>>)
    ensures
        match ext {
            Some(found) => extension(path@) == Some(found@),
            None => extension(path@) is None,
        },
{
    match file_name_chars(path) {
        Some(name) => {
            let len: usize = name.len();
            match find_last_dot(name.as_slice()) {
                Some(at) => {
                    assert(at < len);
                    if at == 0 {
                        None
                    } else {
                        let mut ext: Vec<char> = Vec::new();
                        let mut i: usize = at + 1;
                        while i < name.len()
                            invariant
                                at + 1 <= i <= name@.len(),
                                ext@ == name@.subrange(at + 1, i as int),
                            decreases name@.len() - i,
                        {
                            ext.push(name[i]);
                            i = i + 1;
                        }
                        assert(name@.subrange(at + 1, name@.len() as int) =~= name@.skip(at + 1));
                        Some(ext)
                    }
                },
                None => None,
            }
        },
        None => None,
    }
}

/// The file name of a path.
pub fn file_name_of(path: &str) -> (name: Option<String>)
    ensures
        match name {
            Some(found) => file_name(path@) == Some(found@),
            None => file_name(path@) is None,
        },
{
    let chars: Vec<char> = chars_of(path);
    match file_name_chars(chars.as_slice()) {
        Some(found) => Some(string_of(found.as_slice())),
        None => None,
    }
}

/// The extension of a path.
pub fn extension_of(path: &str) -> (ext: Option<String>)
    ensures
        match ext {
            Some(found) => extension(path@) == Some(found@),
            None => extension(path@) is None,
        },
{
    let chars: Vec<char> = chars_of(path);
    match extension_chars(chars.as_slice()) {
        Some(found) => Some(string_of(found.as_slice())),
        None => None,
    }
}

/// `relative` resolved against `base`.
pub fn join_chars(base: &[char], relative: &[char]) -> (path: Vec<char>)
    ensures
        path@ == joined(base@, relative@),
{
    let mut path: Vec<char> = Vec::new();
    let rooted: bool = relative.len() > 0 && relative[0] == '/';
    if !rooted {
        let mut i: usize = 0;
        while i < base.len()
            invariant
                i <= base@.len(),
                path@ == base@.take(i as int),
            decreases base@.len() - i,
        {
            path.push(base[i]);
            assert(base@.take(i + 1) =~= base@.take(i as int).push(base@[i as int]));
            i = i + 1;
        }
        assert(base@.take(base@.len() as int) =~= base@);
        if base.len() > 0 && base[base.len() - 1] != '/' {
            path.push('/');
            assert(path@ =~= base@ + seq!['/']);
        }
    }
    let ghost head = path@;
    let mut j: usize = 0;
    while j < relative.len()
        invariant
            j <= relative@.len(),
            path@ == head + relative@.take(j as int),
        decreases relative@.len() - j,
    {
        path.push(relative[j]);
        assert(head + relative@.take(j + 1) =~= (head + relative@.take(j as int)).push(
            relative@[j as int],
        ));
        j = j + 1;
    }
    assert(relative@.take(relative@.len() as int) =~= relative@);
    assert(Seq::<char>::empty() + relative@ =~= relative@);
    path
}

/// `relative` resolved against `base`.
pub fn join_path(base: &str, relative: &str) -> (path: String)
    ensures
        path@ == joined(base@, relative@),
{
    let base_chars: Vec<char> = chars_of(base);
    let relative_chars: Vec<char> = chars_of(relative);
    let path: Vec<char> = join_chars(base_chars.as_slice(), relative_chars.as_slice());
    string_of(path.as_slice())
}

/// Whether `base` is a prefix of `path`, whole components only.
pub fn starts_with_path(path: &str, base: &str) -> (r: bool)
    ensures
        r == path_starts_with(path@, base@),
{
    let path_chars: Vec<char> = chars_of(path);
    let base_chars: Vec<char> = chars_of(base);
    let path_rooted: bool = path_chars.len() > 0 && path_chars[0] == '/';
    let base_rooted: bool = base_chars.len() > 0 && base_chars[0] == '/';
    let given_names: Vec<Vec<char>> = path_names(path_chars.as_slice());
    let base_names: Vec<Vec<char>> = path_names(base_chars.as_slice());
    if base_rooted {
        if !path_rooted {
            return false;
        }
    } else if base_names.len() == 0 {
        return true;
    } else if path_rooted {
        return false;
    }
    if base_names.len() > given_names.len() {
        return false;
    }
    let ghost wanted = vec_views(base_names@);
    let ghost given = vec_views(given_names@);
    let mut i: usize = 0;
    while i < base_names.len()
        invariant
            i <= base_names@.len() <= given_names@.len(),
            wanted == vec_views(base_names@),
            given == vec_views(given_names@),
            path_starts_with(path@, base@) == wanted.is_prefix_of(given),
            forall|j: int| 0 <= j < i ==> wanted[j] == given[j],
        decreases base_names@.len() - i,
    {
        if !chars_equal(base_names[i].as_slice(), given_names[i].as_slice()) {
            assert(wanted[i as int] == base_names@[i as int]@);
            assert(given[i as int] == given_names@[i as int]@);
            assert(wanted[i as int] != given.subrange(0, wanted.len() as int)[i as int]);
            return false;
        }
        i = i + 1;
    }
    assert(wanted =~= given.subrange(0, wanted.len() as int));
    true
}

} // verus!
