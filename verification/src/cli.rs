//! What an invocation of the tool asks for: the command-line flags
//! resolved into one action, and the text of a message to send.

use vstd::prelude::*;
use crate::text::{trim, trim_str};
use crate::view::{do_history, do_show, MessageFilter, ViewRequest};

verus! {

/// The `history` subcommand and its flags.
#[derive(Debug, Clone, Copy)]
pub struct HistoryFlags {
    pub sent: bool,
    pub received: bool,
}

/// The command line as parsed: `--init`, `--config`, the optional
/// `history` subcommand, and the words of a message.
#[derive(Debug)]
pub struct Invocation {
    pub init: bool,
    pub config: bool,
    pub history: Option<HistoryFlags>,
    pub text: Vec<String>,
}

/// What the invocation does.
#[derive(Debug)]
pub enum Action {
    /// The interactive setup.
    Init,
    /// Open the configuration file in an editor.
    EditConfig,
    /// Show the conversation.
    View(ViewRequest),
    /// Send a message with this text (the words joined by spaces).
    Send(String),
}

/// The words joined with single spaces, as `[String]::join(" ")` does.
pub open spec fn joined(words: Seq<Seq<char>>) -> Seq<char>
    decreases words.len(),
{
    if words.len() == 0 {
        seq![]
    } else if words.len() == 1 {
        words[0]
    } else {
        joined(words.drop_last()) + seq![' '] + words.last()
    }
}

/// One word is itself; joining two non-empty runs of words puts exactly
/// one space between them, so every pair of neighbouring words is
/// separated by a single space and nothing else is added.
pub proof fn lemma_joined_concat(a: Seq<Seq<char>>, b: Seq<Seq<char>>)
    requires
        a.len() > 0,
        b.len() > 0,
    ensures
        joined(a + b) == joined(a) + seq![' '] + joined(b),
    decreases b.len(),
{
    if b.len() == 1 {
        assert((a + b).drop_last() =~= a);
        assert((a + b).last() == b[0]);
    } else {
        lemma_joined_concat(a, b.drop_last());
        assert((a + b).drop_last() =~= a + b.drop_last());
        assert((a + b).last() == b.last());
        assert(joined(a) + seq![' '] + joined(b.drop_last()) + seq![' '] + b.last() =~= joined(a)
            + seq![' '] + (joined(b.drop_last()) + seq![' '] + b.last()));
    }
}

/// The joined text of `n` words is as long as the words together plus
/// `n - 1` spaces.
pub proof fn lemma_joined_len(words: Seq<Seq<char>>)
    requires
        words.len() > 0,
    ensures
        joined(words).len() == words.fold_left(0int, |acc: int, w: Seq<char>| acc + w.len())
            + words.len() - 1,
    decreases words.len(),
{
    if words.len() == 1 {
        assert(words.drop_last() =~= Seq::<Seq<char>>::empty());
        assert(words.fold_left(0int, |acc: int, w: Seq<char>| acc + w.len()) == words.drop_last().fold_left(0int, |acc: int, w: Seq<char>| acc + w.len()) + words.last().len());
    } else {
        lemma_joined_len(words.drop_last());
    }
}

pub open spec fn word_views(words: Seq<String>) -> Seq<Seq<char>> {
    words.map_values(|w: String| w@)
}

/// The error text for a flag combined with other arguments.
pub open spec fn init_conflict_text() -> Seq<char> {
    "error: '--init' cannot be combined with other arguments"@
}

pub open spec fn config_conflict_text() -> Seq<char> {
    "error: '--config' cannot be combined with other arguments"@
}

pub open spec fn history_text_error_text() -> Seq<char> {
    "error: 'history' does not accept a message"@
}

pub open spec fn empty_message_text() -> Seq<char> {
    "error: message cannot be empty"@
}

/// `r` is what the invocation asks for: the action, or the message of a
/// refused combination.
pub open spec fn is_dispatch(inv: Invocation, r: Result<Action, String>) -> bool {
    let has_text = inv.text@.len() > 0;
    if inv.init {
        if inv.config || inv.history is Some || has_text {
            r matches Err(e) && e@ == init_conflict_text()
        } else {
            r matches Ok(Action::Init)
        }
    } else if inv.config {
        if inv.history is Some || has_text {
            r matches Err(e) && e@ == config_conflict_text()
        } else {
            r matches Ok(Action::EditConfig)
        }
    } else {
        match inv.history {
            Some(h) => if has_text {
                r matches Err(e) && e@ == history_text_error_text()
            } else {
                r matches Ok(Action::View(v)) && v == ViewRequest {
                    full: true,
                    filter: if h.sent {
                        MessageFilter::Sent
                    } else if h.received {
                        MessageFilter::Received
                    } else {
                        MessageFilter::All
                    },
                }
            },
            None => if has_text {
                r matches Ok(Action::Send(t)) && t@ == joined(word_views(inv.text@))
            } else {
                r matches Ok(Action::View(v)) && v == ViewRequest {
                    full: false,
                    filter: MessageFilter::All,
                }
            },
        }
    }
}

/// Joins words with single spaces.
pub fn join_words(words: &Vec<String>) -> (r: String)
    ensures
        r@ == joined(word_views(words@)),
{
    let n = words.len();
    let mut r = String::new();
    for i in 0..n
        invariant
            n == words@.len(),
            r@ == joined(word_views(words@.take(i as int))),
    {
        let ghost ws = word_views(words@.take(i + 1));
        assert(word_views(words@.take(i as int)) =~= ws.drop_last());
        assert(ws.last() == words@[i as int]@);
        proof {
            reveal_strlit(" ");
        }
        if i > 0 {
            r.append(" ");
        } else {
            assert(ws.len() == 1);
        }
        r.append(words[i].as_str());
        assert(r@ =~= joined(ws));
    }
    assert(words@.take(n as int) =~= words@);
    r
}

/// Resolves the command line into the action it asks for: `--init` and
/// `--config` each stand alone; `history` shows every message, filtered
/// by its flags, and takes no message; without a subcommand the words
/// are a message to send, and none means the default view.
pub fn dispatch(inv: &Invocation) -> (r: Result<Action, String>)
    ensures
        is_dispatch(*inv, r),
{
    let has_text = inv.text.len() > 0;
    if inv.init {
        if inv.config || inv.history.is_some() || has_text {
            return Err(String::from_str("error: '--init' cannot be combined with other arguments"));
        }
        return Ok(Action::Init);
    }
    if inv.config {
        if inv.history.is_some() || has_text {
            return Err(
                String::from_str("error: '--config' cannot be combined with other arguments"),
            );
        }
        return Ok(Action::EditConfig);
    }
    match inv.history {
        Some(h) => {
            if has_text {
                return Err(String::from_str("error: 'history' does not accept a message"));
            }
            Ok(Action::View(do_history(h.sent, h.received)))
        },
        None => {
            if !has_text {
                Ok(Action::View(do_show(false)))
            } else {
                Ok(Action::Send(join_words(&inv.text)))
            }
        },
    }
}

/// The text of a message to send: the given text trimmed, refused when
/// nothing is left.
pub fn message_text(text: &str) -> (r: Result<String, String>)
    ensures
        match r {
            Ok(t) => t@ == trim(text@) && t@.len() > 0,
            Err(e) => trim(text@).len() == 0 && e@ == empty_message_text(),
        },
{
    let t = trim_str(text);
    if t.as_str().is_empty() {
        Err(String::from_str("error: message cannot be empty"))
    } else {
        Ok(t)
    }
}

} // verus!
