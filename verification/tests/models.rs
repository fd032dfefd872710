use skynet_review::models::{
    entry_name, summarize, AnalysisRequest, AnalysisResult, FindingsSummary, SecurityFinding,
    Severity,
};

fn finding(level: u8) -> SecurityFinding {
    SecurityFinding {
        id: "SEC-1".to_string(),
        title: "SQL injection".to_string(),
        description: "query built from input".to_string(),
        severity_level: level,
        file_path: "src/db.rs".to_string(),
        line_number: Some(42),
        code_snippet: None,
        remediation: "use parameters".to_string(),
    }
}

fn result(success: bool, findings: Vec<SecurityFinding>, error: Option<&str>) -> AnalysisResult {
    AnalysisResult {
        agent_type: "Security".to_string(),
        findings,
        duration: "1.5s".to_string(),
        success,
        error_message: error.map(str::to_string),
    }
}

fn pair(path: &str, content: &str) -> (String, String) {
    (path.to_string(), content.to_string())
}

#[test]
fn severity_levels() {
    assert_eq!(finding(0).severity(), Severity::Critical);
    assert_eq!(finding(1).severity(), Severity::High);
    assert_eq!(finding(2).severity(), Severity::Medium);
    assert_eq!(finding(3).severity(), Severity::Low);
    assert_eq!(finding(4).severity(), Severity::Info);
    assert_eq!(finding(17).severity(), Severity::Info);
    assert_eq!(finding(255).severity(), Severity::Info);
}

#[test]
fn severity_words() {
    assert_eq!(Severity::Critical.label(), "CRITICAL");
    assert_eq!(Severity::High.label(), "HIGH");
    assert_eq!(Severity::Medium.label(), "MEDIUM");
    assert_eq!(Severity::Low.label(), "LOW");
    assert_eq!(Severity::Info.label(), "INFO");
}

#[test]
fn summaries_of_counts() {
    assert_eq!(summarize(0), FindingsSummary::Clean);
    assert_eq!(summarize(1), FindingsSummary::Issues(1));
    assert_eq!(summarize(12), FindingsSummary::Issues(12));
    assert_eq!(summarize(usize::MAX), FindingsSummary::Issues(usize::MAX));
}

#[test]
fn reports_of_results() {
    assert_eq!(result(true, vec![], None).report(), Ok(FindingsSummary::Clean));
    assert_eq!(
        result(true, vec![finding(0), finding(3)], None).report(),
        Ok(FindingsSummary::Issues(2))
    );
    assert_eq!(
        result(true, vec![], Some("ignored when successful")).report(),
        Ok(FindingsSummary::Clean)
    );
    assert_eq!(
        result(false, vec![finding(0)], Some("agent timed out")).report(),
        Err("agent timed out".to_string())
    );
    assert_eq!(result(false, vec![], None).report(), Err("Unknown error".to_string()));
}

#[test]
fn entry_names_are_file_names() {
    assert_eq!(entry_name("/repo/src/main.rs"), "main.rs");
    assert_eq!(entry_name("main.rs"), "main.rs");
    assert_eq!(entry_name("dir/sub/"), "sub");
    assert_eq!(entry_name("/"), "unknown");
    assert_eq!(entry_name(""), "unknown");
    assert_eq!(entry_name("a/.."), "unknown");
    assert_eq!(entry_name(".."), "unknown");
}

#[test]
fn empty_request() {
    let request = AnalysisRequest::new(None);
    assert!(request.file_paths().is_empty());
    assert_eq!(request.content_of("a.rs"), None);
    assert_eq!(request.repository_context(), &None);
    let with_context = AnalysisRequest::new(Some("monorepo".to_string()));
    assert_eq!(with_context.repository_context(), &Some("monorepo".to_string()));
}

#[test]
fn insert_adds_and_replaces() {
    let mut request = AnalysisRequest::new(None);
    request.insert("a.rs".to_string(), "one".to_string());
    request.insert("b.rs".to_string(), "two".to_string());
    assert_eq!(request.file_paths(), vec!["a.rs".to_string(), "b.rs".to_string()]);
    assert_eq!(request.content_of("a.rs"), Some(&"one".to_string()));
    assert_eq!(request.content_of("b.rs"), Some(&"two".to_string()));
    assert_eq!(request.content_of("c.rs"), None);
    request.insert("a.rs".to_string(), "three".to_string());
    assert_eq!(request.file_paths(), vec!["a.rs".to_string(), "b.rs".to_string()]);
    assert_eq!(request.content_of("a.rs"), Some(&"three".to_string()));
    assert_eq!(request.content_of("b.rs"), Some(&"two".to_string()));
    assert_eq!(request.content_of("A.rs"), None);
}

#[test]
fn request_from_files_keys_by_file_name() {
    let files = vec![
        pair("/repo/src/main.rs", "fn main() {}"),
        pair("/repo/src/lib.rs", "pub mod a;"),
        pair("/repo/tests/main.py", "print()"),
    ];
    let request = AnalysisRequest::from_files(&files, None);
    assert_eq!(
        request.file_paths(),
        vec!["main.rs".to_string(), "lib.rs".to_string(), "main.py".to_string()]
    );
    assert_eq!(request.content_of("main.rs"), Some(&"fn main() {}".to_string()));
    assert_eq!(request.content_of("lib.rs"), Some(&"pub mod a;".to_string()));
    assert_eq!(request.content_of("main.py"), Some(&"print()".to_string()));
    assert_eq!(request.content_of("/repo/src/main.rs"), None);
}

#[test]
fn colliding_names_keep_the_last_content() {
    let files = vec![
        pair("/repo/a/mod.rs", "first"),
        pair("/repo/b/other.rs", "other"),
        pair("/repo/c/mod.rs", "second"),
        pair("/", "rootless"),
        pair("", "empty"),
    ];
    let request = AnalysisRequest::from_files(&files, Some("ctx".to_string()));
    assert_eq!(
        request.file_paths(),
        vec!["mod.rs".to_string(), "other.rs".to_string(), "unknown".to_string()]
    );
    assert_eq!(request.content_of("mod.rs"), Some(&"second".to_string()));
    assert_eq!(request.content_of("other.rs"), Some(&"other".to_string()));
    assert_eq!(request.content_of("unknown"), Some(&"empty".to_string()));
    assert_eq!(request.repository_context(), &Some("ctx".to_string()));
}

#[test]
fn request_from_no_files() {
    let request = AnalysisRequest::from_files(&Vec::new(), None);
    assert!(request.file_paths().is_empty());
}
