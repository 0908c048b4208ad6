//! The user's configuration: its validation, the interactive answers it is
//! built from, where it is found, and the "last read" timestamp file.

use vstd::prelude::*;
use std::path::PathBuf;
use crate::decimal::{decimal_text, lemma_parse_decimal_text, parse_i64, parse_i64_spec, render_i64, digits_of, lemma_digits_of, is_digit};
use crate::text::{is_white_space, trim, trim_end, trim_start, trim_str};

verus! {

/// `std::path::PathBuf`, carried through as an opaque value: nothing is
/// assumed of what a path holds.
#[verifier::external_type_specification]
#[verifier::external_body]
pub struct ExPathBuf(PathBuf);

/// Credentials and the two participants of the conversation.
#[derive(Debug)]
pub struct Config {
    pub token: String,
    pub gist_id: String,
    pub identity: String,
    pub peer: String,
}

/// Why a configuration could not be used. The payloads of `Io`, `Parse`
/// and `Serialize` are the messages of the underlying errors.
#[derive(Debug)]
pub enum ConfigError {
    NotInitialized,
    Validation(String),
    Io(String),
    Parse(String),
    Serialize(String),
}

/// The first problem of a configuration with these fields, in the order
/// in which they are checked, or `None` when it is usable.
pub open spec fn config_problem(
    token: Seq<char>,
    gist_id: Seq<char>,
    identity: Seq<char>,
    peer: Seq<char>,
) -> Option<Seq<char>> {
    if token.len() == 0 {
        Some("token cannot be empty"@)
    } else if gist_id.len() == 0 {
        Some("gist_id cannot be empty"@)
    } else if identity.len() == 0 {
        Some("identity cannot be empty"@)
    } else if peer.len() == 0 {
        Some("peer cannot be empty"@)
    } else if identity == peer {
        Some("identity and peer must be different"@)
    } else {
        None
    }
}

/// The message that the error is shown with.
pub open spec fn config_error_text(e: ConfigError) -> Seq<char> {
    match e {
        ConfigError::NotInitialized => "error: not initialized. Run 'tah --init'"@,
        ConfigError::Validation(m) => "error: "@ + m@,
        ConfigError::Io(m) => "error: could not access config: "@ + m@,
        ConfigError::Parse(m) => "error: could not parse config: "@ + m@,
        ConfigError::Serialize(m) => "error: could not save config: "@ + m@,
    }
}

/// The timestamp that the text of a "last read" file holds, if any.
pub open spec fn last_read_value(content: Seq<char>) -> Option<i64> {
    parse_i64_spec(trim(content))
}

/// The text written to the "last read" file for `timestamp`.
pub open spec fn last_read_text(timestamp: i64) -> Seq<char> {
    decimal_text(timestamp as int).push('\n')
}

/// The timestamp of the first candidate file that could be read and holds
/// one, or 0.
pub open spec fn first_last_read(candidates: Seq<Option<String>>) -> i64
    decreases candidates.len(),
{
    if candidates.len() == 0 {
        0
    } else {
        match candidates[0] {
            Some(content) => match last_read_value(content@) {
                Some(t) => t,
                None => first_last_read(candidates.drop_first()),
            },
            None => first_last_read(candidates.drop_first()),
        }
    }
}

impl Config {
    /// The first problem of this configuration, or `None`.
    pub open spec fn problem(&self) -> Option<Seq<char>> {
        config_problem(self.token@, self.gist_id@, self.identity@, self.peer@)
    }

    /// Checks that every field is set and that the two participants differ.
    pub fn validate(&self) -> (r: Result<(), ConfigError>)
        ensures
            match r {
                Ok(()) => self.problem() is None,
                Err(ConfigError::Validation(m)) => self.problem() == Some(m@),
                Err(_) => false,
            },
    {
        if self.token.as_str().is_empty() {
            return Err(ConfigError::Validation(String::from_str("token cannot be empty")));
        }
        if self.gist_id.as_str().is_empty() {
            return Err(ConfigError::Validation(String::from_str("gist_id cannot be empty")));
        }
        if self.identity.as_str().is_empty() {
            return Err(ConfigError::Validation(String::from_str("identity cannot be empty")));
        }
        if self.peer.as_str().is_empty() {
            return Err(ConfigError::Validation(String::from_str("peer cannot be empty")));
        }
        if self.identity == self.peer {
            return Err(
                ConfigError::Validation(String::from_str("identity and peer must be different")),
            );
        }
        Ok(())
    }

    /// Builds the configuration from the four answers of the setup dialog
    /// (token, gist ID, own name, peer's name), each trimmed, and checks it.
    pub fn interactive_init(
        token_line: &str,
        gist_id_line: &str,
        identity_line: &str,
        peer_line: &str,
    ) -> (r: Result<Config, ConfigError>)
        ensures
            match r {
                Ok(c) => {
                    &&& c.token@ == trim(token_line@)
                    &&& c.gist_id@ == trim(gist_id_line@)
                    &&& c.identity@ == trim(identity_line@)
                    &&& c.peer@ == trim(peer_line@)
                    &&& c.problem() is None
                },
                Err(ConfigError::Validation(m)) => config_problem(
                    trim(token_line@),
                    trim(gist_id_line@),
                    trim(identity_line@),
                    trim(peer_line@),
                ) == Some(m@),
                Err(_) => false,
            },
    {
        let config = Config {
            token: trim_str(token_line),
            gist_id: trim_str(gist_id_line),
            identity: trim_str(identity_line),
            peer: trim_str(peer_line),
        };
        match config.validate() {
            Ok(()) => Ok(config),
            Err(e) => Err(e),
        }
    }

    /// The configuration file to use: the current location when a file is
    /// there, else the legacy location when a file is there, else none.
    pub fn existing_config_path(
        config_path: PathBuf,
        config_exists: bool,
        legacy_path: PathBuf,
        legacy_exists: bool,
    ) -> (r: Option<PathBuf>)
        ensures
            r == (if config_exists {
                Some(config_path)
            } else if legacy_exists {
                Some(legacy_path)
            } else {
                None
            }),
    {
        if config_exists {
            Some(config_path)
        } else if legacy_exists {
            Some(legacy_path)
        } else {
            None
        }
    }

    /// The timestamp held by the text of a "last read" file: an integer
    /// surrounded by optional whitespace.
    pub fn parse_last_read(content: &str) -> (r: Option<i64>)
        ensures
            r == last_read_value(content@),
    {
        let t = trim_str(content);
        parse_i64(t.as_str())
    }

    /// The "last read" timestamp from the candidate files in order of
    /// preference (`None` for a file that could not be read): the first
    /// one that holds a timestamp, or 0.
    pub fn load_last_read(candidates: &Vec<Option<String>>) -> (r: i64)
        ensures
            r == first_last_read(candidates@),
    {
        let n = candidates.len();
        let mut i: usize = 0;
        assert(candidates@.skip(0) =~= candidates@);
        while i < n
            invariant
                n == candidates@.len(),
                i <= n,
                first_last_read(candidates@) == first_last_read(candidates@.skip(i as int)),
            decreases n - i,
        {
            assert(candidates@.skip(i as int).drop_first() =~= candidates@.skip(i + 1));
            assert(candidates@.skip(i as int)[0] == candidates@[i as int]);
            match &candidates[i] {
                Some(content) => {
                    if let Some(t) = Self::parse_last_read(content.as_str()) {
                        return t;
                    }
                },
                None => {},
            }
            i += 1;
        }
        0
    }

    /// The text to store in the "last read" file for `timestamp`.
    pub fn last_read_file_contents(timestamp: i64) -> (r: String)
        ensures
            r@ == last_read_text(timestamp),
    {
        let mut r = render_i64(timestamp);
        proof {
            reveal_strlit("\n");
        }
        r.append("\n");
        r
    }
}

impl ConfigError {
    /// The message this error is shown with.
    pub fn message(&self) -> (r: String)
        ensures
            r@ == config_error_text(*self),
    {
        match self {
            ConfigError::NotInitialized => String::from_str(
                "error: not initialized. Run 'tah --init'",
            ),
            ConfigError::Validation(m) => String::from_str("error: ").concat(m.as_str()),
            ConfigError::Io(m) => String::from_str("error: could not access config: ").concat(
                m.as_str(),
            ),
            ConfigError::Parse(m) => String::from_str("error: could not parse config: ").concat(
                m.as_str(),
            ),
            ConfigError::Serialize(m) => String::from_str(
                "error: could not save config: ",
            ).concat(m.as_str()),
        }
    }
}

/// Trimming the text of a "last read" file leaves the decimal text.
proof fn lemma_trim_last_read_text(timestamp: i64)
    ensures
        trim(last_read_text(timestamp)) == decimal_text(timestamp as int),
{
    let d = decimal_text(timestamp as int);
    let s = d.push('\n');
    let m: nat = if timestamp < 0 {
        (-timestamp) as nat
    } else {
        timestamp as nat
    };
    lemma_digits_of(m);
    assert(d.len() > 0);
    assert(!is_white_space(d[0])) by {
        if timestamp >= 0 {
            assert(is_digit(digits_of(m)[0]));
        }
    }
    assert(!is_white_space(d.last())) by {
        let dm = digits_of(m);
        assert(is_digit(dm[dm.len() - 1]));
        if timestamp < 0 {
            assert(d.last() == dm[dm.len() - 1]);
        }
    }
    assert(trim_start(s) == s);
    assert(s.drop_last() =~= d);
    assert(trim_end(s) == trim_end(d));
    assert(trim_end(d) == d);
}

/// Reading back a stored "last read" timestamp gives that timestamp.
pub proof fn lemma_last_read_round_trip(timestamp: i64)
    ensures
        last_read_value(last_read_text(timestamp)) == Some(timestamp),
{
    lemma_trim_last_read_text(timestamp);
    lemma_parse_decimal_text(timestamp);
}

/// When the preferred "last read" file holds the text written for a
/// timestamp, loading gives that timestamp, whatever the other files hold.
pub proof fn lemma_load_after_save(timestamp: i64, candidates: Seq<Option<String>>, saved: String)
    requires
        candidates.len() > 0,
        candidates[0] == Some(saved),
        saved@ == last_read_text(timestamp),
    ensures
        first_last_read(candidates) == timestamp,
{
    lemma_last_read_round_trip(timestamp);
}

} // verus!
