//! The gist as the API returns it, the errors of the API, and the
//! decisions taken on its answers: which status is an error, when a
//! request is tried again, and where a file's text comes from.

use vstd::prelude::*;
use crate::decimal::{digits_of, render_u64};

verus! {

/// How many times a failed request is tried again.
pub const MAX_RETRIES: u32 = 3;

/// A file of the gist as the API describes it.
#[derive(Debug)]
pub struct GistFile {
    pub content: Option<String>,
    pub truncated: Option<bool>,
    pub raw_url: Option<String>,
}

/// A gist: its files by name.
#[derive(Debug)]
pub struct GistResponse {
    pub files: Vec<(String, GistFile)>,
}

/// Why a request to the API failed. `Network` holds the message of the
/// transport error.
#[derive(Debug)]
pub enum GistError {
    Network(String),
    Parse,
    InvalidToken,
    GistNotFound,
    Http(u16),
}

/// Where the text of a file comes from: the gist itself, or its raw URL.
#[derive(Debug)]
pub enum FileContent {
    Text(String),
    FetchRaw(String),
}

/// What to do after a failed attempt: try again as attempt `attempts`
/// after waiting `delay_ms` milliseconds, or give up.
#[derive(Debug, Clone, Copy, PartialEq, Eq, Structural)]
pub enum RetryStep {
    Retry { attempts: u32, delay_ms: u64 },
    Stop,
}

/// The first file of `files` named `name`.
pub open spec fn file_named(files: Seq<(String, GistFile)>, name: Seq<char>) -> Option<GistFile>
    decreases files.len(),
{
    if files.len() == 0 {
        None
    } else if files[0].0@ == name {
        Some(files[0].1)
    } else {
        file_named(files.drop_first(), name)
    }
}

impl GistResponse {
    /// No two files have the same name, as in the map the API returns.
    pub open spec fn wf(&self) -> bool {
        forall|i: int, j: int|
            0 <= i < j < self.files@.len() ==> self.files@[i].0@ != self.files@[j].0@
    }

    /// A gist of the files `entries`, each name kept once: where a name
    /// occurs again, the first file with it stands. Finding a file by name
    /// gives what it gives in `entries`.
    pub fn from_entries(entries: Vec<(String, GistFile)>) -> (r: GistResponse)
        ensures
            r.wf(),
            forall|name: Seq<char>| file_named(r.files@, name) == file_named(entries@, name),
    {
        let n = entries.len();
        let mut out: Vec<(String, GistFile)> = Vec::new();
        assert(entries@.take(0) =~= Seq::<(String, GistFile)>::empty());
        for k in 0..n
            invariant
                n == entries@.len(),
                forall|a: int, b: int| 0 <= a < b < out@.len() ==> out@[a].0@ != out@[b].0@,
                forall|name: Seq<char>|
                    #![trigger file_named(out@, name)]
                    file_named(out@, name) == file_named(entries@.take(k as int), name),
        {
            let entry = copy_entry(&entries[k]);
            let ghost pre = entries@.take(k as int);
            proof {
                assert(entries@.take(k + 1) =~= pre.push(entry));
                assert forall|name: Seq<char>| #[trigger] file_named(pre.push(entry), name) == match file_named(pre, name) {
                    Some(f) => Some(f),
                    None => if entry.0@ == name { Some(entry.1) } else { None },
                } by {
                    lemma_file_named_push(pre, entry, name);
                }
                lemma_file_named_some(out@, entry.0@);
                assert(file_named(out@, entry.0@) == file_named(pre, entry.0@));
            }
            let mut present = false;
            let m = out.len();
            for i in 0..m
                invariant
                    m == out@.len(),
                    present == exists|j: int| 0 <= j < i && out@[j].0@ == entry.0@,
            {
                if out[i].0 == entry.0 {
                    present = true;
                }
            }
            if !present {
                proof {
                    assert forall|name: Seq<char>| #[trigger] file_named(out@.push(entry), name) == match file_named(out@, name) {
                        Some(f) => Some(f),
                        None => if entry.0@ == name { Some(entry.1) } else { None },
                    } by {
                        lemma_file_named_push(out@, entry, name);
                    }
                }
                out.push(entry);
            }
        }
        assert(entries@.take(n as int) =~= entries@);
        GistResponse { files: out }
    }

    /// The gist has a file named `name`.
    pub fn has_file(&self, name: &str) -> (r: bool)
        ensures
            r == (file_named(self.files@, name@) is Some),
    {
        match self.find(name) {
            Some(_) => true,
            None => false,
        }
    }

    fn find(&self, name: &str) -> (r: Option<usize>)
        ensures
            match r {
                Some(i) => i < self.files@.len() && file_named(self.files@, name@) == Some(
                    self.files@[i as int].1,
                ),
                None => file_named(self.files@, name@) is None,
            },
    {
        let n = self.files.len();
        let ghost f = self.files@;
        let target = name.to_owned();
        assert(f.skip(0) =~= f);
        for i in 0..n
            invariant
                n == f.len(),
                f == self.files@,
                target@ == name@,
                file_named(f, name@) == file_named(f.skip(i as int), name@),
        {
            assert(f.skip(i as int)[0] == f[i as int]);
            assert(f.skip(i as int).drop_first() =~= f.skip(i + 1));
            if self.files[i].0 == target {
                return Some(i);
            }
        }
        None
    }

    /// Where the text of the file `filename` comes from, as the client reads
    /// it: a file that is not there reads as empty; a truncated file is read
    /// from its raw URL, and is an error without one; otherwise the content
    /// in the gist, else the raw URL, else empty.
    pub fn file_content(&self, filename: &str) -> (r: Result<FileContent, GistError>)
        ensures
            match file_named(self.files@, filename@) {
                None => r matches Ok(FileContent::Text(t)) && t@.len() == 0,
                Some(f) => if f.truncated == Some(true) {
                    match f.raw_url {
                        Some(u) => r matches Ok(FileContent::FetchRaw(v)) && v@ == u@,
                        None => r matches Err(GistError::Parse),
                    }
                } else {
                    match (f.content, f.raw_url) {
                        (Some(c), _) => r matches Ok(FileContent::Text(t)) && t@ == c@,
                        (None, Some(u)) => r matches Ok(FileContent::FetchRaw(v)) && v@ == u@,
                        (None, None) => r matches Ok(FileContent::Text(t)) && t@.len() == 0,
                    }
                },
            },
    {
        let i = match self.find(filename) {
            None => return Ok(FileContent::Text(String::new())),
            Some(i) => i,
        };
        let file = &self.files[i].1;
        let truncated = match file.truncated {
            Some(b) => b,
            None => false,
        };
        if truncated {
            return match &file.raw_url {
                Some(u) => Ok(FileContent::FetchRaw(u.clone())),
                None => Err(GistError::Parse),
            };
        }
        if let Some(c) = &file.content {
            return Ok(FileContent::Text(c.clone()));
        }
        if let Some(u) = &file.raw_url {
            return Ok(FileContent::FetchRaw(u.clone()));
        }
        Ok(FileContent::Text(String::new()))
    }
}

/// In a well-formed gist the file found by name is the one file with that
/// name, wherever it stands in the list.
pub proof fn lemma_file_named_unique(g: GistResponse, i: int)
    requires
        g.wf(),
        0 <= i < g.files@.len(),
    ensures
        file_named(g.files@, g.files@[i].0@) == Some(g.files@[i].1),
{
    lemma_file_named_at(g.files@, i);
}

proof fn lemma_file_named_at(files: Seq<(String, GistFile)>, i: int)
    requires
        0 <= i < files.len(),
        forall|a: int, b: int| 0 <= a < b < files.len() ==> files[a].0@ != files[b].0@,
    ensures
        file_named(files, files[i].0@) == Some(files[i].1),
    decreases files.len(),
{
    if i > 0 {
        let rest = files.drop_first();
        assert(files[0].0@ != files[i].0@);
        assert(rest[i - 1] == files[i]);
        assert forall|a: int, b: int| 0 <= a < b < rest.len() implies rest[a].0@ != rest[b].0@ by {
            assert(rest[a] == files[a + 1]);
            assert(rest[b] == files[b + 1]);
        }
        lemma_file_named_at(rest, i - 1);
    }
}

fn copy_text(o: &Option<String>) -> (r: Option<String>)
    ensures
        r == *o,
{
    match o {
        Some(s) => Some(s.clone()),
        None => None,
    }
}

fn copy_entry(e: &(String, GistFile)) -> (r: (String, GistFile))
    ensures
        r == *e,
{
    (
        e.0.clone(),
        GistFile {
            content: copy_text(&e.1.content),
            truncated: e.1.truncated,
            raw_url: copy_text(&e.1.raw_url),
        },
    )
}

proof fn lemma_file_named_push(s: Seq<(String, GistFile)>, x: (String, GistFile), name: Seq<char>)
    ensures
        file_named(s.push(x), name) == match file_named(s, name) {
            Some(f) => Some(f),
            None => if x.0@ == name {
                Some(x.1)
            } else {
                None
            },
        },
    decreases s.len(),
{
    if s.len() == 0 {
        assert(s.push(x).drop_first() =~= Seq::<(String, GistFile)>::empty());
        assert(s.push(x)[0] == x);
        assert(file_named(Seq::<(String, GistFile)>::empty(), name) is None);
        assert(file_named(s, name) is None);
    } else {
        assert(s.push(x).drop_first() =~= s.drop_first().push(x));
        assert(s.push(x)[0] == s[0]);
        lemma_file_named_push(s.drop_first(), x, name);
    }
}

proof fn lemma_file_named_some(s: Seq<(String, GistFile)>, name: Seq<char>)
    ensures
        (file_named(s, name) is Some) == (exists|j: int| 0 <= j < s.len() && s[j].0@ == name),
    decreases s.len(),
{
    if s.len() > 0 {
        lemma_file_named_some(s.drop_first(), name);
        if exists|j: int| 0 <= j < s.len() && s[j].0@ == name {
            let j = choose|j: int| 0 <= j < s.len() && s[j].0@ == name;
            if j > 0 {
                assert(s.drop_first()[j - 1] == s[j]);
            }
        }
        if exists|j: int| 0 <= j < s.drop_first().len() && s.drop_first()[j].0@ == name {
            let j = choose|j: int| 0 <= j < s.drop_first().len() && s.drop_first()[j].0@ == name;
            assert(s[j + 1] == s.drop_first()[j]);
        }
    }
}

/// The outcome of a response with HTTP status `status`.
pub open spec fn status_outcome(status: u16) -> Result<(), GistError> {
    if status == 200 {
        Ok(())
    } else if status == 401 {
        Err(GistError::InvalidToken)
    } else if status == 404 {
        Err(GistError::GistNotFound)
    } else {
        Err(GistError::Http(status))
    }
}

/// Classifies the status of a response: 200 is success, 401 a bad token,
/// 404 a missing gist, anything else an HTTP error with that code.
pub fn check_status(status: u16) -> (r: Result<(), GistError>)
    ensures
        r == status_outcome(status),
{
    if status == 200 {
        Ok(())
    } else if status == 401 {
        Err(GistError::InvalidToken)
    } else if status == 404 {
        Err(GistError::GistNotFound)
    } else {
        Err(GistError::Http(status))
    }
}

/// The step after attempt `attempts` failed with `error`, when errors that
/// `retryable` accepts are tried again after `base_ms` times the new
/// attempt number milliseconds, at most `MAX_RETRIES` times.
pub open spec fn retry_step(retryable: bool, attempts: u32, base_ms: u64) -> RetryStep {
    if retryable && attempts < MAX_RETRIES {
        RetryStep::Retry {
            attempts: (attempts + 1) as u32,
            delay_ms: (base_ms * (attempts + 1)) as u64,
        }
    } else {
        RetryStep::Stop
    }
}

/// A server error (status 500 to 599).
pub open spec fn is_server_error(error: GistError) -> bool {
    error matches GistError::Http(s) && 500 <= s <= 599
}

/// The write was refused because the gist changed meanwhile (status 409).
pub open spec fn is_conflict(error: GistError) -> bool {
    error matches GistError::Http(s) && s == 409
}

/// After a request failed with `error` on attempt `attempts` (0 for the
/// first try): server errors are tried again, up to `MAX_RETRIES` times,
/// after 500 ms times the new attempt number.
pub fn retry_after_server_error(error: &GistError, attempts: u32) -> (r: RetryStep)
    ensures
        r == retry_step(is_server_error(*error), attempts, 500),
{
    let retryable = match error {
        GistError::Http(s) => 500 <= *s && *s <= 599,
        _ => false,
    };
    if retryable && attempts < MAX_RETRIES {
        RetryStep::Retry { attempts: attempts + 1, delay_ms: 500 * (attempts as u64 + 1) }
    } else {
        RetryStep::Stop
    }
}

/// After appending failed with `error` on attempt `attempts`: a conflict
/// is tried again (re-reading the file first), up to `MAX_RETRIES` times,
/// after 200 ms times the new attempt number.
pub fn retry_after_conflict(error: &GistError, attempts: u32) -> (r: RetryStep)
    ensures
        r == retry_step(is_conflict(*error), attempts, 200),
{
    let retryable = match error {
        GistError::Http(s) => *s == 409,
        _ => false,
    };
    if retryable && attempts < MAX_RETRIES {
        RetryStep::Retry { attempts: attempts + 1, delay_ms: 200 * (attempts as u64 + 1) }
    } else {
        RetryStep::Stop
    }
}

/// Starting from the first try, a request is tried again at most
/// `MAX_RETRIES` times: each retry counts one more attempt, and none is
/// granted once `MAX_RETRIES` attempts were retried.
pub proof fn lemma_retries_are_bounded(retryable: bool, attempts: u32, base_ms: u64)
    ensures
        match retry_step(retryable, attempts, base_ms) {
            RetryStep::Retry { attempts: next, .. } => next == attempts + 1 && next <= MAX_RETRIES,
            RetryStep::Stop => true,
        },
        attempts >= MAX_RETRIES ==> retry_step(retryable, attempts, base_ms) == RetryStep::Stop,
{
}

/// The message an API error is shown with.
pub open spec fn gist_error_text(e: GistError) -> Seq<char> {
    match e {
        GistError::Network(m) => "error: could not reach GitHub API: "@ + m@,
        GistError::Parse => "error: could not parse response"@,
        GistError::InvalidToken => "error: invalid token. Re-run 'tah --init'"@,
        GistError::GistNotFound => "error: gist not found. Check your gist ID."@,
        GistError::Http(code) => "error: HTTP "@ + digits_of(code as nat),
    }
}

impl GistError {
    /// The message this error is shown with.
    pub fn message(&self) -> (r: String)
        ensures
            r@ == gist_error_text(*self),
    {
        match self {
            GistError::Network(m) => String::from_str("error: could not reach GitHub API: ").concat(
                m.as_str(),
            ),
            GistError::Parse => String::from_str("error: could not parse response"),
            GistError::InvalidToken => String::from_str("error: invalid token. Re-run 'tah --init'"),
            GistError::GistNotFound => String::from_str(
                "error: gist not found. Check your gist ID.",
            ),
            GistError::Http(code) => {
                let digits = render_u64(*code as u64);
                String::from_str("error: HTTP ").concat(digits.as_str())
            },
        }
    }
}

} // verus!
