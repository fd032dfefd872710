//! The values exchanged with the analysis service, and what is read off them.
//!
//! A request maps each file name to the file's content. Names are unique: a
//! second content under a name replaces the first, and the name keeps its
//! place in the list of names.

use crate::paths::{file_name, file_name_of};
use crate::text::{chars_equal, chars_of, string_views};
use vstd::prelude::*;

verus! {

/// One issue that the service reported.
#[derive(Debug, PartialEq, Eq)]
pub struct SecurityFinding {
    pub id: String,
    pub title: String,
    pub description: String,
    /// 0 is the most severe; higher is less severe.
    pub severity_level: u8,
    pub file_path: String,
    /// The line, counted from 1, if the finding names one.
    pub line_number: Option<i32>,
    pub code_snippet: Option<String>,
    pub remediation: String,
}

/// What one analysis agent reported.
#[derive(Debug, PartialEq, Eq)]
pub struct AnalysisResult {
    pub agent_type: String,
    pub findings: Vec<SecurityFinding>,
    pub duration: String,
    pub success: bool,
    pub error_message: Option<String>,
}

/// How severe a finding is.
#[derive(Debug, Clone, Copy, PartialEq, Eq, Structural)]
pub enum Severity {
    Critical,
    High,
    Medium,
    Low,
    Info,
}

/// What there is to say of a number of findings.
#[derive(Debug, Clone, Copy, PartialEq, Eq, Structural)]
pub enum FindingsSummary {
    /// No issue was found.
    Clean,
    /// This many issues were found; the number is not zero.
    Issues(usize),
}

/// The severity that a level stands for. Levels above 3 are informational.
pub open spec fn severity_of(level: u8) -> Severity {
    if level == 0 {
        Severity::Critical
    } else if level == 1 {
        Severity::High
    } else if level == 2 {
        Severity::Medium
    } else if level == 3 {
        Severity::Low
    } else {
        Severity::Info
    }
}

/// The summary of `count` findings.
pub open spec fn summary_of(count: nat) -> FindingsSummary {
    if count == 0 {
        FindingsSummary::Clean
    } else {
        FindingsSummary::Issues(count as usize)
    }
}

/// The name under which a file is sent: the file name of its path, or
/// `unknown` where the path has none.
pub open spec fn request_name(path: Seq<char>) -> Seq<char> {
    match file_name(path) {
        Some(name) => name,
        None => "unknown"@,
    }
}

/// The contents under the first `count` names, a later one replacing an
/// earlier one under the same name.
pub open spec fn contents_among(
    names: Seq<Seq<char>>,
    contents: Seq<Seq<char>>,
    count: nat,
) -> Map<Seq<char>, Seq<char>>
    decreases count,
{
    if count == 0 {
        Map::empty()
    } else {
        contents_among(names, contents, (count - 1) as nat).insert(
            names[count - 1],
            contents[count - 1],
        )
    }
}

/// No name occurs twice.
pub open spec fn distinct(names: Seq<Seq<char>>) -> bool {
    forall|i: int, j: int| 0 <= i < j < names.len() ==> names[i] != names[j]
}

/// The names of the files of a list, each once, in the order in which they
/// first occur.
pub open spec fn names_in_order(files: Seq<(String, String)>) -> Seq<Seq<char>>
    decreases files.len(),
{
    if files.len() == 0 {
        Seq::empty()
    } else {
        let before = names_in_order(files.drop_last());
        let name = request_name(files.last().0@);
        if before.contains(name) {
            before
        } else {
            before.push(name)
        }
    }
}

/// The contents of the files of a list by name. Where two files have the
/// same name, the later one wins.
pub open spec fn merged(files: Seq<(String, String)>) -> Map<Seq<char>, Seq<char>>
    decreases files.len(),
{
    if files.len() == 0 {
        Map::empty()
    } else {
        merged(files.drop_last()).insert(request_name(files.last().0@), files.last().1@)
    }
}

/// What a request holds.
pub struct RequestView {
    /// The names of the files, each once.
    pub file_paths: Seq<Seq<char>>,
    /// The content of each file, by name.
    pub file_contents: Map<Seq<char>, Seq<char>>,
    /// Free text about the repository.
    pub repository_context: Option<Seq<char>>,
}

impl RequestView {
    /// The names are unique, and they are the names that have a content.
    pub open spec fn wf(self) -> bool {
        &&& distinct(self.file_paths)
        &&& forall|name: Seq<char>|
            self.file_contents.dom().contains(name) <==> self.file_paths.contains(name)
    }
}

/// The names of a sequence of entries.
pub open spec fn entry_names(entries: Seq<(String, String)>) -> Seq<Seq<char>> {
    entries.map_values(|entry: (String, String)| entry.0@)
}

/// The contents of a sequence of entries.
pub open spec fn entry_contents(entries: Seq<(String, String)>) -> Seq<Seq<char>> {
    entries.map_values(|entry: (String, String)| entry.1@)
}

/// The files to analyse: each file's content under its name.
#[derive(Debug, PartialEq, Eq)]
pub struct AnalysisRequest {
    entries: Vec<(String, String)>,
    repository_context: Option<String>,
}

impl View for AnalysisRequest {
    type V = RequestView;

    closed spec fn view(&self) -> RequestView {
        RequestView {
            file_paths: entry_names(self.entries@),
            file_contents: contents_among(
                entry_names(self.entries@),
                entry_contents(self.entries@),
                self.entries@.len(),
            ),
            repository_context: match self.repository_context {
                Some(text) => Some(text@),
                None => None,
            },
        }
    }
}

proof fn lemma_among_dom(names: Seq<Seq<char>>, contents: Seq<Seq<char>>, count: nat)
    requires
        count <= names.len(),
    ensures
        forall|name: Seq<char>|
            contents_among(names, contents, count).dom().contains(name) <==> names.take(
                count as int,
            ).contains(name),
    decreases count,
{
    if count > 0 {
        let before = (count - 1) as nat;
        lemma_among_dom(names, contents, before);
        assert forall|name: Seq<char>|
            contents_among(names, contents, count).dom().contains(name) <==> names.take(
                count as int,
            ).contains(name) by {
            if names.take(count as int).contains(name) {
                let i = choose|i: int|
                    0 <= i < names.take(count as int).len() && names.take(count as int)[i] == name;
                if i < before {
                    assert(names.take(before as int)[i] == name);
                }
            }
            if names.take(before as int).contains(name) {
                let i = choose|i: int|
                    0 <= i < names.take(before as int).len() && names.take(before as int)[i]
                        == name;
                assert(names.take(count as int)[i] == name);
            }
            assert(names.take(count as int)[before as int] == names[before as int]);
        }
    }
}

proof fn lemma_among_lookup(names: Seq<Seq<char>>, contents: Seq<Seq<char>>, count: nat, i: int)
    requires
        distinct(names),
        0 <= i < count <= names.len(),
    ensures
        contents_among(names, contents, count).dom().contains(names[i]),
        contents_among(names, contents, count)[names[i]] == contents[i],
    decreases count,
{
    if i < count - 1 {
        lemma_among_lookup(names, contents, (count - 1) as nat, i);
    }
}

proof fn lemma_among_same(
    names: Seq<Seq<char>>,
    contents: Seq<Seq<char>>,
    other_names: Seq<Seq<char>>,
    other_contents: Seq<Seq<char>>,
    count: nat,
)
    requires
        forall|j: int| 0 <= j < count ==> names[j] == other_names[j],
        forall|j: int| 0 <= j < count ==> contents[j] == other_contents[j],
    ensures
        contents_among(names, contents, count) == contents_among(
            other_names,
            other_contents,
            count,
        ),
    decreases count,
{
    if count > 0 {
        lemma_among_same(names, contents, other_names, other_contents, (count - 1) as nat);
    }
}

proof fn lemma_among_update(
    names: Seq<Seq<char>>,
    contents: Seq<Seq<char>>,
    count: nat,
    i: int,
    content: Seq<char>,
)
    requires
        distinct(names),
        0 <= i < count <= names.len(),
        count <= contents.len(),
    ensures
        contents_among(names, contents.update(i, content), count) == contents_among(
            names,
            contents,
            count,
        ).insert(names[i], content),
    decreases count,
{
    let before = (count - 1) as nat;
    let changed = contents.update(i, content);
    if i == before {
        lemma_among_same(names, contents, names, changed, before);
        assert(contents_among(names, changed, count) =~= contents_among(
            names,
            contents,
            count,
        ).insert(names[i], content));
    } else {
        lemma_among_update(names, contents, before, i, content);
        assert(names[i] != names[before as int]);
        assert(contents_among(names, changed, count) =~= contents_among(
            names,
            contents,
            count,
        ).insert(names[i], content));
    }
}

impl SecurityFinding {
    /// How severe the finding is.
    pub fn severity(&self) -> (severity: Severity)
        ensures
            severity == severity_of(self.severity_level),
    {
        if self.severity_level == 0 {
            Severity::Critical
        } else if self.severity_level == 1 {
            Severity::High
        } else if self.severity_level == 2 {
            Severity::Medium
        } else if self.severity_level == 3 {
            Severity::Low
        } else {
            Severity::Info
        }
    }
}

impl Severity {
    /// The word for the severity.
    pub open spec fn word(self) -> Seq<char> {
        match self {
            Severity::Critical => "CRITICAL"@,
            Severity::High => "HIGH"@,
            Severity::Medium => "MEDIUM"@,
            Severity::Low => "LOW"@,
            Severity::Info => "INFO"@,
        }
    }

    /// The word for the severity.
    pub fn label(&self) -> (label: &'static str)
        ensures
            label@ == self.word(),
    {
        match self {
            Severity::Critical => "CRITICAL",
            Severity::High => "HIGH",
            Severity::Medium => "MEDIUM",
            Severity::Low => "LOW",
            Severity::Info => "INFO",
        }
    }
}

/// The summary of `count` findings.
pub fn summarize(count: usize) -> (summary: FindingsSummary)
    ensures
        summary == summary_of(count as nat),
{
    if count == 0 {
        FindingsSummary::Clean
    } else {
        FindingsSummary::Issues(count)
    }
}

impl AnalysisResult {
    /// What there is to say of the result: the summary of its findings where
    /// the agent succeeded, else the agent's error message, or
    /// `Unknown error` where it gave none.
    pub fn report(&self) -> (report: Result<FindingsSummary, String>)
        ensures
            match report {
                Ok(summary) => self.success && summary == summary_of(self.findings@.len()),
                Err(reason) => !self.success && reason@ == match self.error_message {
                    Some(message) => message@,
                    None => "Unknown error"@,
                },
            },
    {
        if self.success {
            Ok(summarize(self.findings.len()))
        } else {
            match &self.error_message {
                Some(message) => Err(message.clone()),
                None => Err("Unknown error".to_owned()),
            }
        }
    }
}

impl AnalysisRequest {
    /// No name occurs twice.
    #[verifier::type_invariant]
    closed spec fn unique_names(&self) -> bool {
        distinct(entry_names(self.entries@))
    }

    /// The names of a request are unique, and they are the names that have
    /// a content.
    pub proof fn lemma_view_wf(&self)
        requires
            distinct(self@.file_paths),
        ensures
            self@.wf(),
    {
        let names = entry_names(self.entries@);
        lemma_among_dom(names, entry_contents(self.entries@), names.len());
        assert(names.take(names.len() as int) =~= names);
    }

    /// A request without files.
    pub fn new(repository_context: Option<String>) -> (request: AnalysisRequest)
        ensures
            request@.wf(),
            request@.file_paths == Seq::<Seq<char>>::empty(),
            request@.file_contents == Map::<Seq<char>, Seq<char>>::empty(),
            request@.repository_context == match repository_context {
                Some(text) => Some(text@),
                None => None,
            },
    {
        let entries: Vec<(String, String)> = Vec::new();
        assert(entry_names(entries@) =~= Seq::<Seq<char>>::empty());
        let request = AnalysisRequest { entries, repository_context };
        proof {
            request.lemma_view_wf();
        }
        request
    }

    /// Puts `content` under `name`. A content already there is replaced, and
    /// the name keeps its place; a new name goes to the end.
    pub fn insert(&mut self, name: String, content: String)
        ensures
            final(self)@.wf(),
            final(self)@.file_contents == old(self)@.file_contents.insert(name@, content@),
            final(self)@.file_paths == if old(self)@.file_paths.contains(name@) {
                old(self)@.file_paths
            } else {
                old(self)@.file_paths.push(name@)
            },
            final(self)@.repository_context == old(self)@.repository_context,
    {
        proof {
            use_type_invariant(&*self);
        }
        let mut entries: Vec<(String, String)> = Vec::new();
        assert(entry_names(entries@) =~= Seq::<Seq<char>>::empty());
        core::mem::swap(&mut self.entries, &mut entries);
        let ghost names = entry_names(entries@);
        let ghost contents = entry_contents(entries@);
        let mut i: usize = 0;
        while i < entries.len()
            invariant
                i <= entries@.len(),
                entries@ == old(self).entries@,
                names == entry_names(entries@),
                contents == entry_contents(entries@),
                self.repository_context == old(self).repository_context,
                distinct(names),
                forall|j: int| 0 <= j < i ==> names[j] != name@,
            decreases entries@.len() - i,
        {
            if str_equal(entries[i].0.as_str(), name.as_str()) {
                assert(names[i as int] == name@);
                entries.set(i, (name, content));
                proof {
                    assert(entry_names(entries@) =~= names);
                    assert(entry_contents(entries@) =~= contents.update(i as int, content@));
                    lemma_among_update(names, contents, names.len(), i as int, content@);
                }
                self.entries = entries;
                proof {
                    self.lemma_view_wf();
                }
                return ;
            }
            i = i + 1;
        }
        proof {
            assert(!names.contains(name@));
        }
        entries.push((name, content));
        proof {
            let more_names = names.push(name@);
            let more_contents = contents.push(content@);
            assert(entry_names(entries@) =~= more_names);
            assert(entry_contents(entries@) =~= more_contents);
            lemma_among_same(names, contents, more_names, more_contents, names.len());
        }
        self.entries = entries;
        proof {
            self.lemma_view_wf();
        }
    }

    /// The request for a list of files, each given by its path and its
    /// content. A file is sent under the file name of its path.
    pub fn from_files(files: &Vec<(String, String)>, repository_context: Option<String>) -> (request:
        AnalysisRequest)
        ensures
            request@.wf(),
            request@.file_paths == names_in_order(files@),
            request@.file_contents == merged(files@),
            request@.repository_context == match repository_context {
                Some(text) => Some(text@),
                None => None,
            },
    {
        let mut request: AnalysisRequest = AnalysisRequest::new(repository_context);
        assert(files@.take(0) =~= Seq::<(String, String)>::empty());
        let mut i: usize = 0;
        while i < files.len()
            invariant
                i <= files@.len(),
                request@.wf(),
                request@.file_paths == names_in_order(files@.take(i as int)),
                request@.file_contents == merged(files@.take(i as int)),
                request@.repository_context == match repository_context {
                    Some(text) => Some(text@),
                    None => None,
                },
            decreases files@.len() - i,
        {
            assert(files@.take(i + 1).drop_last() =~= files@.take(i as int));
            let name: String = entry_name(files[i].0.as_str());
            let content: String = files[i].1.clone();
            request.insert(name, content);
            i = i + 1;
        }
        assert(files@.take(files@.len() as int) =~= files@);
        request
    }

    /// The names of the files, each once.
    pub fn file_paths(&self) -> (names: Vec<String>)
        ensures
            string_views(names@) == self@.file_paths,
            self@.wf(),
    {
        proof {
            use_type_invariant(self);
            self.lemma_view_wf();
        }
        let mut names: Vec<String> = Vec::new();
        let mut i: usize = 0;
        while i < self.entries.len()
            invariant
                i <= self.entries@.len(),
                string_views(names@) == entry_names(self.entries@).take(i as int),
            decreases self.entries@.len() - i,
        {
            let ghost before = string_views(names@);
            let name: String = self.entries[i].0.clone();
            names.push(name);
            assert(string_views(names@) =~= before.push(self.entries@[i as int].0@));
            assert(entry_names(self.entries@).take(i + 1) =~= entry_names(self.entries@).take(
                i as int,
            ).push(self.entries@[i as int].0@));
            i = i + 1;
        }
        assert(entry_names(self.entries@).take(self.entries@.len() as int) =~= entry_names(
            self.entries@,
        ));
        names
    }

    /// The content under `name`, if the request has one.
    pub fn content_of(&self, name: &str) -> (content: Option<&String>)
        ensures
            match content {
                Some(text) => self@.file_contents.dom().contains(name@)
                    && self@.file_contents[name@] == text@,
                None => !self@.file_contents.dom().contains(name@),
            },
    {
        proof {
            use_type_invariant(self);
        }
        let ghost names = entry_names(self.entries@);
        let ghost contents = entry_contents(self.entries@);
        let mut i: usize = 0;
        while i < self.entries.len()
            invariant
                i <= self.entries@.len(),
                names == entry_names(self.entries@),
                contents == entry_contents(self.entries@),
                distinct(names),
                forall|j: int| 0 <= j < i ==> names[j] != name@,
            decreases self.entries@.len() - i,
        {
            if str_equal(self.entries[i].0.as_str(), name) {
                proof {
                    lemma_among_lookup(names, contents, names.len(), i as int);
                }
                return Some(&self.entries[i].1);
            }
            i = i + 1;
        }
        proof {
            lemma_among_dom(names, contents, names.len());
            assert(names.take(names.len() as int) =~= names);
            assert(!names.contains(name@));
        }
        None
    }

    /// The free text about the repository, if there is any.
    pub fn repository_context(&self) -> (context: &Option<String>)
        ensures
            self@.repository_context == match *context {
                Some(text) => Some(text@),
                None => None,
            },
    {
        &self.repository_context
    }
}

fn str_equal(a: &str, b: &str) -> (r: bool)
    ensures
        r == (a@ == b@),
{
    let left: Vec<char> = chars_of(a);
    let right: Vec<char> = chars_of(b);
    chars_equal(left.as_slice(), right.as_slice())
}

/// The name under which the file at `path` is sent.
pub fn entry_name(path: &str) -> (name: String)
    ensures
        name@ == request_name(path@),
{
    match file_name_of(path) {
        Some(name) => name,
        None => "unknown".to_owned(),
    }
}

} // verus!
