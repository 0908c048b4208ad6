use tah::cli::{dispatch, message_text, Action, HistoryFlags, Invocation};
use tah::gist::{
    check_status, retry_after_conflict, retry_after_server_error, FileContent, GistError, GistFile,
    GistResponse, RetryStep,
};
use tah::view::MessageFilter;

fn inv(init: bool, config: bool, history: Option<(bool, bool)>, text: &[&str]) -> Invocation {
    Invocation {
        init,
        config,
        history: history.map(|(sent, received)| HistoryFlags { sent, received }),
        text: text.iter().map(|s| s.to_string()).collect(),
    }
}

#[test]
fn dispatch_resolves_actions() {
    assert!(matches!(dispatch(&inv(true, false, None, &[])), Ok(Action::Init)));
    assert!(matches!(dispatch(&inv(false, true, None, &[])), Ok(Action::EditConfig)));
    match dispatch(&inv(false, false, None, &[])) {
        Ok(Action::View(v)) => assert!(!v.full && v.filter == MessageFilter::All),
        _ => panic!(),
    }
    match dispatch(&inv(false, false, Some((false, true)), &[])) {
        Ok(Action::View(v)) => assert!(v.full && v.filter == MessageFilter::Received),
        _ => panic!(),
    }
    match dispatch(&inv(false, false, None, &["hello", "there"])) {
        Ok(Action::Send(t)) => assert_eq!(t, "hello there"),
        _ => panic!(),
    }
}

#[test]
fn dispatch_refuses_combinations() {
    let err = |i: Invocation| match dispatch(&i) {
        Err(e) => e,
        _ => panic!(),
    };
    assert_eq!(err(inv(true, true, None, &[])), "error: '--init' cannot be combined with other arguments");
    assert_eq!(err(inv(true, false, None, &["x"])), "error: '--init' cannot be combined with other arguments");
    assert_eq!(err(inv(false, true, Some((false, false)), &[])), "error: '--config' cannot be combined with other arguments");
    assert_eq!(err(inv(false, false, Some((true, false)), &["x"])), "error: 'history' does not accept a message");
}

#[test]
fn message_text_is_trimmed_and_not_empty() {
    assert_eq!(message_text("  hi  ").unwrap(), "hi");
    assert_eq!(message_text(" \n ").unwrap_err(), "error: message cannot be empty");
}

#[test]
fn status_classification() {
    assert!(check_status(200).is_ok());
    assert!(matches!(check_status(401), Err(GistError::InvalidToken)));
    assert!(matches!(check_status(404), Err(GistError::GistNotFound)));
    assert!(matches!(check_status(502), Err(GistError::Http(502))));
}

#[test]
fn retries_are_bounded_and_back_off() {
    assert_eq!(
        retry_after_server_error(&GistError::Http(503), 0),
        RetryStep::Retry { attempts: 1, delay_ms: 500 }
    );
    assert_eq!(
        retry_after_server_error(&GistError::Http(500), 2),
        RetryStep::Retry { attempts: 3, delay_ms: 1500 }
    );
    assert_eq!(retry_after_server_error(&GistError::Http(599), 3), RetryStep::Stop);
    assert_eq!(retry_after_server_error(&GistError::Http(409), 0), RetryStep::Stop);
    assert_eq!(retry_after_server_error(&GistError::InvalidToken, 0), RetryStep::Stop);
    assert_eq!(
        retry_after_conflict(&GistError::Http(409), 1),
        RetryStep::Retry { attempts: 2, delay_ms: 400 }
    );
    assert_eq!(retry_after_conflict(&GistError::Http(500), 0), RetryStep::Stop);
    assert_eq!(retry_after_conflict(&GistError::Http(409), 3), RetryStep::Stop);
}

fn file(content: Option<&str>, truncated: Option<bool>, raw: Option<&str>) -> GistFile {
    GistFile {
        content: content.map(String::from),
        truncated,
        raw_url: raw.map(String::from),
    }
}

#[test]
fn file_content_sources() {
    let gist = GistResponse {
        files: vec![
            ("inline.jsonl".to_string(), file(Some("a\n"), Some(false), Some("u1"))),
            ("big.jsonl".to_string(), file(Some("cut"), Some(true), Some("u2"))),
            ("broken.jsonl".to_string(), file(Some("cut"), Some(true), None)),
            ("raw.jsonl".to_string(), file(None, None, Some("u3"))),
            ("nothing.jsonl".to_string(), file(None, None, None)),
        ],
    };
    assert!(matches!(gist.file_content("inline.jsonl"), Ok(FileContent::Text(t)) if t == "a\n"));
    assert!(matches!(gist.file_content("big.jsonl"), Ok(FileContent::FetchRaw(u)) if u == "u2"));
    assert!(matches!(gist.file_content("broken.jsonl"), Err(GistError::Parse)));
    assert!(matches!(gist.file_content("raw.jsonl"), Ok(FileContent::FetchRaw(u)) if u == "u3"));
    assert!(matches!(gist.file_content("nothing.jsonl"), Ok(FileContent::Text(t)) if t.is_empty()));
    assert!(matches!(gist.file_content("missing.jsonl"), Ok(FileContent::Text(t)) if t.is_empty()));
    assert!(gist.has_file("raw.jsonl"));
    assert!(!gist.has_file("missing.jsonl"));
}

#[test]
fn gist_error_messages() {
    assert_eq!(GistError::Network("timeout".into()).message(), "error: could not reach GitHub API: timeout");
    assert_eq!(GistError::Parse.message(), "error: could not parse response");
    assert_eq!(GistError::InvalidToken.message(), "error: invalid token. Re-run 'tah --init'");
    assert_eq!(GistError::GistNotFound.message(), "error: gist not found. Check your gist ID.");
    assert_eq!(GistError::Http(409).message(), "error: HTTP 409");
}

#[test]
fn from_entries_keeps_first_file_of_each_name() {
    let gist = GistResponse::from_entries(vec![
        ("a.jsonl".to_string(), file(Some("first"), None, None)),
        ("b.jsonl".to_string(), file(Some("b"), None, None)),
        ("a.jsonl".to_string(), file(Some("second"), None, None)),
    ]);
    assert_eq!(gist.files.len(), 2);
    assert!(matches!(gist.file_content("a.jsonl"), Ok(FileContent::Text(t)) if t == "first"));
    assert!(matches!(gist.file_content("b.jsonl"), Ok(FileContent::Text(t)) if t == "b"));
}
