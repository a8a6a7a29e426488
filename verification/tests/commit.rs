use dep_sync::git::{
    commit_file, CheckoutVcs, CommitError, CommitResult, CommitStrategy, RemoteCommitApi,
};

/// Remote API that always fails, as when the network or the CLI is down.
struct DownApi {
    fetches: usize,
    puts: usize,
}

impl RemoteCommitApi for DownApi {
    fn fetch_blob_id(&mut self, _repo: &str, _file_path: &str) -> Result<String, String> {
        self.fetches += 1;
        Err("connection refused".to_string())
    }

    fn put_content(
        &mut self,
        _repo: &str,
        _file_path: &str,
        _message: &str,
        _content_b64: &str,
        _blob_id: &str,
    ) -> Result<String, String> {
        self.puts += 1;
        Err("connection refused".to_string())
    }
}

/// Remote API that succeeds and records what it was handed.
struct RecordingApi {
    seen_repo: Option<String>,
    seen_b64: Option<String>,
    seen_blob_id: Option<String>,
}

impl RemoteCommitApi for RecordingApi {
    fn fetch_blob_id(&mut self, repo: &str, _file_path: &str) -> Result<String, String> {
        self.seen_repo = Some(repo.to_string());
        Ok("blob42".to_string())
    }

    fn put_content(
        &mut self,
        _repo: &str,
        _file_path: &str,
        _message: &str,
        content_b64: &str,
        blob_id: &str,
    ) -> Result<String, String> {
        self.seen_b64 = Some(content_b64.to_string());
        self.seen_blob_id = Some(blob_id.to_string());
        Ok("commitsha99".to_string())
    }
}

/// In-memory checkout whose steps all work.
struct WorkingVcs {
    files: Vec<(String, String)>,
    staged: Vec<String>,
    committed: Vec<String>,
    pushed: usize,
}

impl WorkingVcs {
    fn new() -> Self {
        WorkingVcs { files: Vec::new(), staged: Vec::new(), committed: Vec::new(), pushed: 0 }
    }
}

impl CheckoutVcs for WorkingVcs {
    fn write_file(&mut self, file_path: &str, content: &str) -> bool {
        self.files.push((file_path.to_string(), content.to_string()));
        true
    }

    fn add(&mut self, file_path: &str) -> bool {
        self.staged.push(file_path.to_string());
        true
    }

    fn commit(&mut self, message: &str) -> bool {
        self.committed.push(message.to_string());
        true
    }

    fn push(&mut self) -> bool {
        self.pushed += 1;
        true
    }

    fn head_id(&mut self) -> Option<String> {
        Some("abc1234".to_string())
    }
}

/// Checkout whose commit step fails, after which nothing further runs.
struct BrokenVcs {
    pushed: usize,
}

impl CheckoutVcs for BrokenVcs {
    fn write_file(&mut self, _file_path: &str, _content: &str) -> bool {
        true
    }

    fn add(&mut self, _file_path: &str) -> bool {
        true
    }

    fn commit(&mut self, _message: &str) -> bool {
        false
    }

    fn push(&mut self) -> bool {
        self.pushed += 1;
        true
    }

    fn head_id(&mut self) -> Option<String> {
        Some("abc1234".to_string())
    }
}

#[test]
fn test_commit_remote_success() {
    let mut api = RecordingApi { seen_repo: None, seen_b64: None, seen_blob_id: None };
    let result = commit_file(
        &mut api,
        "my-org",
        "evo-king",
        "Cargo.toml",
        "[package]\nname = \"x\"\n",
        "chore: update",
        None::<WorkingVcs>,
    );
    let record: CommitResult = result.unwrap();
    assert_eq!(record.repo, "my-org/evo-king");
    assert_eq!(record.file_path, "Cargo.toml");
    assert!(record.strategy == CommitStrategy::RemoteApi);
    assert_eq!(record.sha, "commitsha99");
    assert_eq!(api.seen_repo.as_deref(), Some("my-org/evo-king"));
    // The blob id read first is handed back as the concurrency token.
    assert_eq!(api.seen_blob_id.as_deref(), Some("blob42"));
}

#[test]
fn test_commit_content_is_base64_encoded() {
    let mut api = RecordingApi { seen_repo: None, seen_b64: None, seen_blob_id: None };
    let _ = commit_file(
        &mut api,
        "o",
        "r",
        "f",
        "hello",
        "m",
        None::<WorkingVcs>,
    );
    assert_eq!(api.seen_b64.as_deref(), Some("aGVsbG8="));
}

#[test]
fn test_commit_no_fallback_available() {
    let mut api = DownApi { fetches: 0, puts: 0 };
    let result = commit_file(
        &mut api,
        "my-org",
        "evo-king",
        "Cargo.toml",
        "content",
        "msg",
        None::<WorkingVcs>,
    );
    match result {
        Err(CommitError::NoFallbackAvailable { repo, file_path }) => {
            assert_eq!(repo, "my-org/evo-king");
            assert_eq!(file_path, "Cargo.toml");
        }
        other => panic!("expected NoFallbackAvailable, got {other:?}"),
    }
    assert_eq!(api.fetches, 1);
    // After the read failed, no update was submitted.
    assert_eq!(api.puts, 0);
}

#[test]
fn test_commit_falls_back_to_local() {
    let mut api = DownApi { fetches: 0, puts: 0 };
    let result = commit_file(
        &mut api,
        "my-org",
        "evo-king",
        "Cargo.toml",
        "version = \"0.2\"",
        "bump version",
        Some(WorkingVcs::new()),
    );
    let record = result.unwrap();
    assert!(record.strategy == CommitStrategy::LocalCheckout);
    assert_eq!(record.repo, "my-org/evo-king");
    assert_eq!(record.file_path, "Cargo.toml");
    assert!(!record.sha.is_empty());
    assert_eq!(record.sha, "abc1234");
}

#[test]
fn test_commit_local_failure_is_terminal() {
    let mut api = DownApi { fetches: 0, puts: 0 };
    let result = commit_file(
        &mut api,
        "my-org",
        "evo-king",
        "Cargo.toml",
        "content",
        "msg",
        Some(BrokenVcs { pushed: 0 }),
    );
    match result {
        Err(CommitError::LocalCommitFailed { repo, file_path }) => {
            assert_eq!(repo, "my-org/evo-king");
            assert_eq!(file_path, "Cargo.toml");
        }
        other => panic!("expected LocalCommitFailed, got {other:?}"),
    }
}

/// Checkout that appends each step it performs to a shared log.
struct LoggingVcs {
    log: std::rc::Rc<std::cell::RefCell<Vec<String>>>,
}

impl CheckoutVcs for LoggingVcs {
    fn write_file(&mut self, file_path: &str, content: &str) -> bool {
        self.log.borrow_mut().push(format!("write {file_path} {content}"));
        true
    }

    fn add(&mut self, file_path: &str) -> bool {
        self.log.borrow_mut().push(format!("add {file_path}"));
        true
    }

    fn commit(&mut self, message: &str) -> bool {
        self.log.borrow_mut().push(format!("commit {message}"));
        true
    }

    fn push(&mut self) -> bool {
        self.log.borrow_mut().push("push".to_string());
        true
    }

    fn head_id(&mut self) -> Option<String> {
        self.log.borrow_mut().push("head_id".to_string());
        Some("feed123".to_string())
    }
}

#[test]
fn test_commit_local_steps_run_in_order() {
    let mut api = DownApi { fetches: 0, puts: 0 };
    let log = std::rc::Rc::new(std::cell::RefCell::new(Vec::new()));
    let vcs = LoggingVcs { log: log.clone() };
    let result = commit_file(&mut api, "o", "r", "dir/file.yml", "body", "msg", Some(vcs));
    assert!(result.is_ok());
    let steps = log.borrow().clone();
    assert_eq!(
        steps,
        vec![
            "write dir/file.yml body".to_string(),
            "add dir/file.yml".to_string(),
            "commit msg".to_string(),
            "push".to_string(),
            "head_id".to_string(),
        ]
    );
}
