//! The change set: which files a diff names, and which of them lie inside
//! the repository.
//!
//! Running the version-control tool and looking at the file system is left
//! to the caller. This module says which commands to run, reads what they
//! print, and decides from what the file system said of each path. A diff
//! can only be planned once the repository root is known and the reference,
//! if there is one, has been validated.

use crate::paths::{join_chars, joined, path_starts_with, starts_with_path};
use crate::text::{
    chars_of, is_blank, split_chars, split_on, string_of, string_views, trim_range, trimmed,
    utf8_text, vec_views,
};
use vstd::prelude::*;
use vstd::slice::slice_subrange;
use vstd::string::StringExecFns;
use vstd::utf8::{decode_utf8, valid_utf8};

verus! {

/// The baseline against which changed files are computed.
#[derive(Debug, PartialEq, Eq)]
pub enum DiffTarget {
    /// Unstaged changes in the working tree.
    WorkingTree,
    /// Staged changes only.
    Staged,
    /// Changes between a commit or branch and `HEAD`.
    Commit(String),
}

/// The files that a diff names, as far as they lie inside the repository.
#[derive(Debug, PartialEq, Eq)]
pub struct GitDiffResult {
    pub changed_files: Vec<String>,
    pub repository_root: String,
    pub description: String,
}

/// Why no change set could be had.
#[derive(Debug, Clone, Copy, PartialEq, Eq, Structural)]
pub enum GitError {
    /// The directory is not inside a repository, or the tool could not say.
    NotARepository,
    /// The reference is not one that may be handed to the tool.
    InvalidRef,
    /// The diff command failed. What the tool printed is not passed on.
    DiffFailed,
    /// The tool's output is not text.
    UnreadableOutput,
}

/// How a run of the version-control tool ended.
#[derive(Debug, PartialEq, Eq)]
pub struct CommandOutcome {
    /// Whether it exited with status zero.
    pub success: bool,
    /// What it wrote to standard output.
    pub stdout: Vec<u8>,
}

/// A diff that may be run: its arguments, the directory to run it in, and
/// what it compares, in words.
#[derive(Debug, PartialEq, Eq)]
pub struct DiffPlan {
    pub args: Vec<String>,
    pub repository_root: String,
    pub description: String,
}

/// What the file system says of a path.
#[derive(Debug, PartialEq, Eq)]
pub enum PathState {
    /// Nothing exists there.
    Missing,
    /// Something exists there, and its canonical path cannot be had.
    Unresolved,
    /// Something exists there, with this canonical path.
    Resolved(String),
}

/// A path together with what the file system says of it.
#[derive(Debug, PartialEq, Eq)]
pub struct PathProbe {
    pub path: String,
    pub state: PathState,
}

/// The characters that a reference may hold.
pub open spec fn ref_char(c: char) -> bool {
    ||| 'a' <= c <= 'z'
    ||| 'A' <= c <= 'Z'
    ||| '0' <= c <= '9'
    ||| c == '_'
    ||| c == '.'
    ||| c == '/'
    ||| c == '@'
    ||| c == '^'
    ||| c == '~'
    ||| c == '-'
}

/// A non-empty text of reference characters.
pub open spec fn ref_chars_only(s: Seq<char>) -> bool {
    s.len() > 0 && forall|i: int| 0 <= i < s.len() ==> ref_char(#[trigger] s[i])
}

/// The references that may be handed to the tool: non-empty, made of
/// reference characters, and not starting with `-`, which the tool would
/// read as an option.
pub open spec fn valid_git_ref(s: Seq<char>) -> bool {
    ref_chars_only(s) && s.first() != '-'
}

/// The pattern that describes a text of reference characters.
pub open spec fn ref_pattern() -> Seq<char> {
    "^[a-zA-Z0-9_./@^~-]+$"@
}

/// The arguments that ask whether the directory is inside a work tree.
pub open spec fn work_tree_args() -> Seq<Seq<char>> {
    seq!["rev-parse"@, "--is-inside-work-tree"@]
}

/// The arguments that ask for the repository root.
pub open spec fn root_args() -> Seq<Seq<char>> {
    seq!["rev-parse"@, "--show-toplevel"@]
}

/// The arguments of the diff for a target.
pub open spec fn diff_args(target: DiffTarget) -> Seq<Seq<char>> {
    match target {
        DiffTarget::WorkingTree => seq!["diff"@, "--name-only"@],
        DiffTarget::Staged => seq!["diff"@, "--staged"@, "--name-only"@],
        DiffTarget::Commit(reference) => seq!["diff"@, "--name-only"@, reference@, "HEAD"@],
    }
}

/// What a target compares, in words.
pub open spec fn describe(target: DiffTarget) -> Seq<char> {
    match target {
        DiffTarget::WorkingTree => "unstaged changes"@,
        DiffTarget::Staged => "staged changes"@,
        DiffTarget::Commit(reference) => "changes since "@ + reference@,
    }
}

/// Whether a diff for this target may be run.
pub open spec fn target_allowed(target: DiffTarget) -> bool {
    target matches DiffTarget::Commit(reference) ==> valid_git_ref(reference@)
}

/// The repository root that the tool reported.
pub open spec fn root_from(success: bool, stdout: Seq<u8>) -> Result<Seq<char>, GitError> {
    if !success {
        Err(GitError::NotARepository)
    } else if !valid_utf8(stdout) {
        Err(GitError::UnreadableOutput)
    } else {
        Ok(trimmed(decode_utf8(stdout)))
    }
}

/// A line without the carriage return that ended it, if one did.
pub open spec fn without_cr(line: Seq<char>) -> Seq<char> {
    if line.len() > 0 && line.last() == '\r' {
        line.drop_last()
    } else {
        line
    }
}

/// The line at `index` among the pieces between line feeds. Every piece but
/// the last was ended by a line feed, and may have had a carriage return
/// before it.
pub open spec fn line_at(pieces: Seq<Seq<char>>, index: int) -> Seq<char> {
    if index + 1 < pieces.len() {
        without_cr(pieces[index])
    } else {
        pieces[index]
    }
}

/// The paths named by the first `count` lines: each line that is not blank,
/// resolved against the root.
pub open spec fn paths_among(root: Seq<char>, pieces: Seq<Seq<char>>, count: nat) -> Seq<
    Seq<char>,
>
    decreases count,
{
    if count == 0 {
        Seq::empty()
    } else {
        let before = paths_among(root, pieces, (count - 1) as nat);
        let line = line_at(pieces, count - 1);
        if is_blank(line) {
            before
        } else {
            before.push(joined(root, line))
        }
    }
}

/// The paths that the output of a diff names, in its order.
pub open spec fn diff_paths(root: Seq<char>, output: Seq<char>) -> Seq<Seq<char>> {
    let pieces = split_on(output, '\n');
    paths_among(root, pieces, pieces.len())
}

/// The candidate paths that a finished diff yields.
pub open spec fn candidates_from(root: Seq<char>, success: bool, stdout: Seq<u8>) -> Result<
    Seq<Seq<char>>,
    GitError,
> {
    if !success {
        Err(GitError::DiffFailed)
    } else if !valid_utf8(stdout) {
        Err(GitError::UnreadableOutput)
    } else {
        Ok(diff_paths(root, decode_utf8(stdout)))
    }
}

/// Whether a path may stay in the change set. A path where nothing exists
/// stays: a deleted file is a legitimate entry. One that exists stays only
/// if its canonical path lies under the canonical root.
pub open spec fn state_allowed(state: PathState, canonical_root: Option<String>) -> bool {
    match state {
        PathState::Missing => true,
        PathState::Unresolved => false,
        PathState::Resolved(canonical) => match canonical_root {
            Some(root) => path_starts_with(canonical@, root@),
            None => false,
        },
    }
}

/// Of the probed paths, those that may stay, in order.
pub open spec fn retained(probes: Seq<PathProbe>, canonical_root: Option<String>) -> Seq<
    Seq<char>,
>
    decreases probes.len(),
{
    if probes.len() == 0 {
        Seq::empty()
    } else if state_allowed(probes.last().state, canonical_root) {
        retained(probes.drop_last(), canonical_root).push(probes.last().path@)
    } else {
        retained(probes.drop_last(), canonical_root)
    }
}

impl GitError {
    /// The text of the error.
    pub open spec fn text(self) -> Seq<char> {
        match self {
            GitError::NotARepository => "Not a git repository."@,
            GitError::InvalidRef => "Invalid git reference."@,
            GitError::DiffFailed => "Git diff failed. Verify the reference exists."@,
            GitError::UnreadableOutput => "Failed to parse git output."@,
        }
    }

    /// A message for the user. It never holds what the tool printed.
    pub fn message(&self) -> (message: &'static str)
        ensures
            message@ == self.text(),
    {
        match self {
            GitError::NotARepository => "Not a git repository.",
            GitError::InvalidRef => "Invalid git reference.",
            GitError::DiffFailed => "Git diff failed. Verify the reference exists.",
            GitError::UnreadableOutput => "Failed to parse git output.",
        }
    }
}

impl DiffTarget {
    /// The target that the options select.
    pub fn from_options(staged: bool, commit: Option<String>) -> (target: DiffTarget)
        ensures
            staged ==> target == DiffTarget::Staged,
            !staged ==> match commit {
                Some(reference) => target == DiffTarget::Commit(reference),
                None => target == DiffTarget::WorkingTree,
            },
    {
        if staged {
            DiffTarget::Staged
        } else {
            match commit {
                Some(reference) => DiffTarget::Commit(reference),
                None => DiffTarget::WorkingTree,
            }
        }
    }
}

/// Searches `haystack` with `regex::Regex::new(pattern)` and `is_match`;
/// `None` where the pattern does not compile. The contract speaks of one
/// pattern only, [`ref_pattern`]: `^` and `$` anchor it at both ends of the
/// haystack, and between them `[...]+` asks for one or more characters of
/// the class, which lists the ranges `a-z`, `A-Z`, `0-9` and the literals
/// `_ . / @ ^ ~ -`. So it matches exactly the non-empty texts of reference
/// characters.
#[verifier::external_body]
fn regex_is_match(pattern: &str, haystack: &str) -> (found: Option<bool>)
    ensures
        pattern@ == ref_pattern() ==> found == Some(ref_chars_only(haystack@)),
{
    match regex::Regex::new(pattern) {
        Ok(compiled) => Some(compiled.is_match(haystack)),
        Err(_) => None,
    }
}

/// Accepts the references that may be handed to the tool and rejects every
/// other text.
pub fn validate_git_ref(reference: &str) -> (r: Result<(), GitError>)
    ensures
        r is Ok <==> valid_git_ref(reference@),
        r is Err ==> r == Err::<(), GitError>(GitError::InvalidRef),
{
    if !reference.is_empty() && reference.get_char(0) == '-' {
        return Err(GitError::InvalidRef);
    }
    match regex_is_match("^[a-zA-Z0-9_./@^~-]+$", reference) {
        Some(true) => Ok(()),
        _ => Err(GitError::InvalidRef),
    }
}

/// The arguments that ask whether the directory is inside a work tree.
pub fn work_tree_query() -> (args: Vec<String>)
    ensures
        string_views(args@) == work_tree_args(),
{
    let mut args: Vec<String> = Vec::new();
    args.push("rev-parse".to_owned());
    args.push("--is-inside-work-tree".to_owned());
    assert(string_views(args@) =~= work_tree_args());
    args
}

/// The arguments that ask for the repository root.
pub fn root_query() -> (args: Vec<String>)
    ensures
        string_views(args@) == root_args(),
{
    let mut args: Vec<String> = Vec::new();
    args.push("rev-parse".to_owned());
    args.push("--show-toplevel".to_owned());
    assert(string_views(args@) =~= root_args());
    args
}

/// Whether the directory is inside a repository, from the run of
/// [`work_tree_query`].
pub fn is_git_repository(outcome: &CommandOutcome) -> (inside: bool)
    ensures
        inside == outcome.success,
{
    outcome.success
}

/// The repository root, from the run of [`root_query`].
pub fn get_repository_root(outcome: &CommandOutcome) -> (r: Result<String, GitError>)
    ensures
        match r {
            Ok(root) => root_from(outcome.success, outcome.stdout@) == Ok::<Seq<char>, GitError>(
                root@,
            ),
            Err(e) => root_from(outcome.success, outcome.stdout@) == Err::<Seq<char>, GitError>(e),
        },
{
    if !outcome.success {
        return Err(GitError::NotARepository);
    }
    match utf8_text(outcome.stdout.as_slice()) {
        Some(text) => {
            let chars: Vec<char> = chars_of(text);
            assert(chars@.subrange(0, chars@.len() as int) =~= chars@);
            let bounds: (usize, usize) = trim_range(chars.as_slice(), 0, chars.len());
            Ok(string_of(slice_subrange(chars.as_slice(), bounds.0, bounds.1)))
        },
        None => Err(GitError::UnreadableOutput),
    }
}

/// Plans the diff for a target in the repository at `repository_root`. A
/// reference that is not valid is refused here, so no command is ever made
/// from it.
pub fn plan_diff(target: &DiffTarget, repository_root: String) -> (r: Result<DiffPlan, GitError>)
    ensures
        r is Ok <==> target_allowed(*target),
        r is Err ==> r == Err::<DiffPlan, GitError>(GitError::InvalidRef),
        r matches Ok(plan) ==> {
            &&& string_views(plan.args@) == diff_args(*target)
            &&& plan.repository_root == repository_root
            &&& plan.description@ == describe(*target)
        },
{
    let mut args: Vec<String> = Vec::new();
    args.push("diff".to_owned());
    let description: String;
    match target {
        DiffTarget::WorkingTree => {
            args.push("--name-only".to_owned());
            description = "unstaged changes".to_owned();
        },
        DiffTarget::Staged => {
            args.push("--staged".to_owned());
            args.push("--name-only".to_owned());
            description = "staged changes".to_owned();
        },
        DiffTarget::Commit(reference) => {
            match validate_git_ref(reference.as_str()) {
                Ok(_) => {},
                Err(e) => {
                    return Err(e);
                },
            }
            args.push("--name-only".to_owned());
            args.push(reference.clone());
            args.push("HEAD".to_owned());
            let mut text: String = "changes since ".to_owned();
            text.append(reference.as_str());
            description = text;
        },
    }
    assert(string_views(args@) =~= diff_args(*target));
    Ok(DiffPlan { args, repository_root, description })
}

/// The candidate paths of a finished diff: the lines of its output that are
/// not blank, each resolved against the repository root, in the tool's
/// order. A failed diff yields `DiffFailed` and nothing of its output.
pub fn changed_paths(plan: &DiffPlan, outcome: &CommandOutcome) -> (r: Result<
    Vec<String>,
    GitError,
>)
    ensures
        match r {
            Ok(paths) => candidates_from(
                plan.repository_root@,
                outcome.success,
                outcome.stdout@,
            ) == Ok::<Seq<Seq<char>>, GitError>(string_views(paths@)),
            Err(e) => candidates_from(plan.repository_root@, outcome.success, outcome.stdout@)
                == Err::<Seq<Seq<char>>, GitError>(e),
        },
{
    if !outcome.success {
        return Err(GitError::DiffFailed);
    }
    let text: &str = match utf8_text(outcome.stdout.as_slice()) {
        Some(text) => text,
        None => {
            return Err(GitError::UnreadableOutput);
        },
    };
    let chars: Vec<char> = chars_of(text);
    let root: Vec<char> = chars_of(plan.repository_root.as_str());
    let pieces: Vec<Vec<char>> = split_chars(chars.as_slice(), '\n');
    let ghost lines = vec_views(pieces@);
    let mut paths: Vec<String> = Vec::new();
    assert(string_views(paths@) =~= Seq::<Seq<char>>::empty());
    let mut i: usize = 0;
    while i < pieces.len()
        invariant
            i <= pieces@.len(),
            lines == vec_views(pieces@),
            string_views(paths@) == paths_among(root@, lines, i as nat),
        decreases pieces@.len() - i,
    {
        let piece: &Vec<char> = &pieces[i];
        let ghost before = string_views(paths@);
        assert(lines[i as int] == piece@);
        let mut end: usize = piece.len();
        if i + 1 < pieces.len() && end > 0 && piece[end - 1] == '\r' {
            end = end - 1;
        }
        assert(piece@.subrange(0, end as int) =~= line_at(lines, i as int));
        let bounds: (usize, usize) = trim_range(piece.as_slice(), 0, end);
        if bounds.0 < bounds.1 {
            let path: Vec<char> = join_chars(
                root.as_slice(),
                slice_subrange(piece.as_slice(), 0, end),
            );
            let joined_path: String = string_of(path.as_slice());
            paths.push(joined_path);
            assert(string_views(paths@) =~= before.push(joined_path@));
        }
        i = i + 1;
    }
    Ok(paths)
}

/// Whether a probed path may stay in the change set.
pub fn validate_path_within_repo(probe: &PathProbe, canonical_root: &Option<String>) -> (r: bool)
    ensures
        r == state_allowed(probe.state, *canonical_root),
{
    match &probe.state {
        PathState::Missing => true,
        PathState::Unresolved => false,
        PathState::Resolved(canonical) => match canonical_root {
            Some(root) => starts_with_path(canonical.as_str(), root.as_str()),
            None => false,
        },
    }
}

/// The change set of a planned diff: of the probed candidates, those that
/// may stay, in the order given.
pub fn get_changed_files(
    plan: DiffPlan,
    probes: Vec<PathProbe>,
    canonical_root: Option<String>,
) -> (result: GitDiffResult)
    ensures
        string_views(result.changed_files@) == retained(probes@, canonical_root),
        result.repository_root == plan.repository_root,
        result.description == plan.description,
{
    let mut changed_files: Vec<String> = Vec::new();
    assert(string_views(changed_files@) =~= Seq::<Seq<char>>::empty());
    assert(probes@.take(0) =~= Seq::<PathProbe>::empty());
    let mut i: usize = 0;
    while i < probes.len()
        invariant
            i <= probes@.len(),
            string_views(changed_files@) == retained(probes@.take(i as int), canonical_root),
        decreases probes@.len() - i,
    {
        let ghost before = string_views(changed_files@);
        assert(probes@.take(i + 1).drop_last() =~= probes@.take(i as int));
        if validate_path_within_repo(&probes[i], &canonical_root) {
            let path: String = probes[i].path.clone();
            changed_files.push(path);
            assert(string_views(changed_files@) =~= before.push(probes@[i as int].path@));
        }
        i = i + 1;
    }
    assert(probes@.take(probes@.len() as int) =~= probes@);
    GitDiffResult {
        changed_files,
        repository_root: plan.repository_root,
        description: plan.description,
    }
}

/// Whether `path` is the path of a probe that may stay.
pub open spec fn allowed_among(
    probes: Seq<PathProbe>,
    canonical_root: Option<String>,
    path: Seq<char>,
) -> bool {
    exists|i: int|
        0 <= i < probes.len() && state_allowed(#[trigger] probes[i].state, canonical_root)
            && probes[i].path@ == path
}

/// Every path of a change set was probed and allowed to stay: none whose
/// canonical path lies outside the canonical root is in it, and none whose
/// canonical path could not be had.
pub proof fn lemma_retained_were_allowed(probes: Seq<PathProbe>, canonical_root: Option<String>)
    ensures
        forall|j: int|
            0 <= j < retained(probes, canonical_root).len() ==> allowed_among(
                probes,
                canonical_root,
                #[trigger] retained(probes, canonical_root)[j],
            ),
    decreases probes.len(),
{
    let kept = retained(probes, canonical_root);
    if probes.len() > 0 {
        let before = probes.drop_last();
        lemma_retained_were_allowed(before, canonical_root);
        assert forall|j: int| 0 <= j < kept.len() implies allowed_among(
            probes,
            canonical_root,
            #[trigger] kept[j],
        ) by {
            if j < retained(before, canonical_root).len() {
                assert(allowed_among(before, canonical_root, retained(before, canonical_root)[j]));
                let i = choose|i: int|
                    0 <= i < before.len() && state_allowed(
                        #[trigger] before[i].state,
                        canonical_root,
                    ) && before[i].path@ == kept[j];
                assert(probes[i] == before[i]);
                assert(state_allowed(probes[i].state, canonical_root));
            } else {
                let last = probes.len() - 1;
                assert(state_allowed(probes[last].state, canonical_root));
                assert(kept[j] == probes[last].path@);
            }
        }
    }
}

/// Where no probed path may stay, the change set is empty.
pub proof fn lemma_none_allowed_none_retained(
    probes: Seq<PathProbe>,
    canonical_root: Option<String>,
)
    requires
        forall|i: int| 0 <= i < probes.len() ==> !state_allowed(probes[i].state, canonical_root),
    ensures
        retained(probes, canonical_root).len() == 0,
    decreases probes.len(),
{
    if probes.len() > 0 {
        let before = probes.drop_last();
        assert forall|i: int| 0 <= i < before.len() implies !state_allowed(
            before[i].state,
            canonical_root,
        ) by {
            assert(before[i] == probes[i]);
        }
        lemma_none_allowed_none_retained(before, canonical_root);
    }
}

} // verus!
