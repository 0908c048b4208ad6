//! A chat message as stored in a participant's file, and the name of
//! that file.

use vstd::prelude::*;

verus! {

/// One message: a unique id, the Unix time it was sent at, and its text.
#[derive(Debug)]
pub struct Message {
    pub id: String,
    pub ts: i64,
    pub text: String,
}

pub open spec fn is_lower_hex(c: char) -> bool {
    ('0' <= c && c <= '9') || ('a' <= c && c <= 'f')
}

/// Positions of the hyphens in the hyphenated form of a UUID.
pub open spec fn is_hyphen_position(i: int) -> bool {
    i == 8 || i == 13 || i == 18 || i == 23
}

/// `s` is the lower-case hyphenated text of a random (version 4, RFC 4122
/// variant) UUID, such as `67e55044-10b1-426f-9247-bb680e5fe0c8`.
pub open spec fn is_v4_uuid_text(s: Seq<char>) -> bool {
    &&& s.len() == 36
    &&& forall|i: int|
        0 <= i < 36 ==> if is_hyphen_position(i) {
            s[i] == '-'
        } else {
            is_lower_hex(#[trigger] s[i])
        }
    &&& s[14] == '4'
    &&& (s[19] == '8' || s[19] == '9' || s[19] == 'a' || s[19] == 'b')
}

/// A fresh id from `uuid::Uuid::new_v4`, in the hyphenated lower-case form
/// that its `Display` writes. The value is random; what is stated is the
/// shape that every such text has (`new_v4` fixes the version and variant
/// bits).
#[verifier::external_body]
fn new_message_id() -> (id: String)
    ensures
        is_v4_uuid_text(id@),
{
    uuid::Uuid::new_v4().to_string()
}

/// The current Unix time in seconds, from `chrono::Utc::now().timestamp()`.
/// The value depends on the clock; what is stated is that it is not
/// negative: on a clock set before 1970, `Utc::now` panics ("system time
/// before Unix epoch") instead of returning.
#[verifier::external_body]
fn current_unix_time() -> (t: i64)
    ensures
        t >= 0,
{
    chrono::Utc::now().timestamp()
}

/// `t` is a value that reading the clock (`current_unix_time`) returned.
pub closed spec fn is_clock_reading(t: i64) -> bool {
    call_ensures(current_unix_time, (), t)
}

/// A clock reading is a Unix time at or after 1970.
pub proof fn lemma_clock_reading_not_negative(t: i64)
    requires
        is_clock_reading(t),
    ensures
        t >= 0,
{
}

impl Message {
    /// A message with the given parts.
    pub fn from_parts(id: String, ts: i64, text: String) -> (m: Message)
        ensures
            m.id == id,
            m.ts == ts,
            m.text == text,
    {
        Message { id, ts, text }
    }

    /// A new message with `text`, a fresh random id and the current time.
    pub fn new(text: String) -> (m: Message)
        ensures
            m.text == text,
            m.ts >= 0,
            is_clock_reading(m.ts),
            is_v4_uuid_text(m.id@),
    {
        let id = new_message_id();
        let clock = current_unix_time;
        let ts = clock();
        Message::from_parts(id, ts, text)
    }
}

/// The name of the gist file that `participant` writes to.
pub open spec fn message_file_name_text(participant: Seq<char>) -> Seq<char> {
    participant + ".jsonl"@
}

/// The name of the gist file that `participant` writes to:
/// `<participant>.jsonl`.
pub fn message_file_name(participant: &str) -> (r: String)
    ensures
        r@ == message_file_name_text(participant@),
{
    participant.to_owned().concat(".jsonl")
}

} // verus!
