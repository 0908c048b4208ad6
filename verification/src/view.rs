//! Which part of the conversation is shown, and what showing it does to
//! the unread state: the window of the default view, the sent/received
//! filters, the unread marker, the bell, and the new "last read" time.

use vstd::prelude::*;
use crate::chat::{copy_chat_message, ChatMessage};
use crate::config::Config;
use crate::display::{divider_count, is_marked_unread, lemma_render_items_summary, marked_before, render_items};

verus! {

/// How many messages the default view shows at least.
pub const DEFAULT_MESSAGE_LIMIT: usize = 20;

/// Which messages a view keeps.
#[derive(Debug, Clone, Copy, PartialEq, Eq, Structural)]
pub enum MessageFilter {
    All,
    Sent,
    Received,
}

/// A request to show the conversation: all of it (`full`) or the default
/// window, through a filter.
#[derive(Debug, Clone, Copy)]
pub struct ViewRequest {
    pub full: bool,
    pub filter: MessageFilter,
}

/// What to do to show a view: the messages to show, the time after which
/// the other participant's messages are marked unread (if any), whether
/// to ring the bell, and the new "last read" time to store (if any).
#[derive(Debug)]
pub struct ViewPlan {
    pub messages: Vec<ChatMessage>,
    pub unread_marker: Option<i64>,
    pub ring_bell: bool,
    pub mark_read: Option<i64>,
}

/// The message passes the filter.
pub open spec fn passes(filter: MessageFilter, config: Config, c: ChatMessage) -> bool {
    match filter {
        MessageFilter::All => true,
        MessageFilter::Sent => c.sender@ == config.identity@,
        MessageFilter::Received => c.sender@ == config.peer@,
    }
}

/// The messages that pass the filter, in order.
pub open spec fn selected(msgs: Seq<ChatMessage>, config: Config, filter: MessageFilter) -> Seq<
    ChatMessage,
> {
    msgs.filter(|c: ChatMessage| passes(filter, config, c))
}

/// A message from the other participant sent after `last_read`.
pub open spec fn is_unread(c: ChatMessage, config: Config, last_read: i64) -> bool {
    c.sender@ == config.peer@ && c.message.ts > last_read
}

/// Where the default window starts when only the limit counts.
pub open spec fn default_start(len: int) -> int {
    if len > DEFAULT_MESSAGE_LIMIT {
        len - DEFAULT_MESSAGE_LIMIT
    } else {
        0
    }
}

/// The first unread message at or after `i` and before `stop`, or `stop`.
pub open spec fn first_unread_from(
    s: Seq<ChatMessage>,
    config: Config,
    last_read: i64,
    i: int,
    stop: int,
) -> int
    decreases stop - i,
{
    if i >= stop {
        stop
    } else if is_unread(s[i], config, last_read) {
        i
    } else {
        first_unread_from(s, config, last_read, i + 1, stop)
    }
}

/// Where the default window starts: at the limit from the end, or earlier
/// at the first unread message.
pub open spec fn window_start(s: Seq<ChatMessage>, config: Config, last_read: i64) -> int {
    first_unread_from(s, config, last_read, 0, default_start(s.len() as int))
}

/// The messages a view shows.
pub open spec fn shown(
    msgs: Seq<ChatMessage>,
    config: Config,
    request: ViewRequest,
    last_read: i64,
) -> Seq<ChatMessage> {
    let s = selected(msgs, config, request.filter);
    if request.full {
        s
    } else {
        s.skip(window_start(s, config, last_read))
    }
}

/// The time of the latest message of `s` from the other participant.
pub open spec fn latest_peer_ts(s: Seq<ChatMessage>, config: Config) -> Option<i64>
    decreases s.len(),
{
    if s.len() == 0 {
        None
    } else {
        let p = latest_peer_ts(s.drop_last(), config);
        if s.last().sender@ == config.peer@ {
            match p {
                Some(t) => Some(
                    if t >= s.last().message.ts {
                        t
                    } else {
                        s.last().message.ts
                    },
                ),
                None => Some(s.last().message.ts),
            }
        } else {
            p
        }
    }
}

/// The view moves the "last read" time (only the sent-messages view does not).
pub open spec fn marks_read(filter: MessageFilter) -> bool {
    filter != MessageFilter::Sent
}

/// The new "last read" time: the latest shown time when it is later.
pub open spec fn read_mark(latest: Option<i64>, last_read: i64) -> Option<i64> {
    match latest {
        Some(t) => if t > last_read {
            Some(t)
        } else {
            None
        },
        None => None,
    }
}

/// The view shows unread messages and marks them read.
pub open spec fn has_unread(
    msgs: Seq<ChatMessage>,
    config: Config,
    request: ViewRequest,
    last_read: i64,
) -> bool {
    marks_read(request.filter) && read_mark(
        latest_peer_ts(shown(msgs, config, request, last_read), config),
        last_read,
    ) is Some
}

/// The plan for showing `msgs` as `request` asks.
pub open spec fn is_view_plan(
    p: ViewPlan,
    msgs: Seq<ChatMessage>,
    config: Config,
    request: ViewRequest,
    last_read: i64,
) -> bool {
    let s = shown(msgs, config, request, last_read);
    let unread = has_unread(msgs, config, request, last_read);
    &&& p.messages@ == s
    &&& p.ring_bell == unread
    &&& p.unread_marker == (if unread {
        Some(last_read)
    } else {
        None
    })
    &&& p.mark_read == (if marks_read(request.filter) {
        read_mark(latest_peer_ts(s, config), last_read)
    } else {
        None
    })
}

/// The plain view: the default window of all messages, or all of them.
pub fn do_show(full: bool) -> (r: ViewRequest)
    ensures
        r.full == full,
        r.filter == MessageFilter::All,
{
    ViewRequest { full, filter: MessageFilter::All }
}

/// The history view: every message, only own ones when `sent`, else only
/// the other participant's when `received`.
pub fn do_history(sent: bool, received: bool) -> (r: ViewRequest)
    ensures
        r.full,
        r.filter == (if sent {
            MessageFilter::Sent
        } else if received {
            MessageFilter::Received
        } else {
            MessageFilter::All
        }),
{
    let filter = if sent {
        MessageFilter::Sent
    } else if received {
        MessageFilter::Received
    } else {
        MessageFilter::All
    };
    ViewRequest { full: true, filter }
}

/// The "last read" time to store after showing messages whose latest one
/// from the other participant is at `latest`: that time when it is later
/// than `last_read`, else nothing.
pub fn mark_messages_read(latest: Option<i64>, last_read: i64) -> (r: Option<i64>)
    ensures
        r == read_mark(latest, last_read),
{
    match latest {
        Some(t) => if t > last_read {
            Some(t)
        } else {
            None
        },
        None => None,
    }
}

fn passes_exec(filter: MessageFilter, config: &Config, c: &ChatMessage) -> (r: bool)
    ensures
        r == passes(filter, *config, *c),
{
    match filter {
        MessageFilter::All => true,
        MessageFilter::Sent => c.sender == config.identity,
        MessageFilter::Received => c.sender == config.peer,
    }
}

fn select(msgs: &Vec<ChatMessage>, config: &Config, filter: MessageFilter) -> (r: Vec<ChatMessage>)
    ensures
        r@ == selected(msgs@, *config, filter),
{
    let n = msgs.len();
    let mut r: Vec<ChatMessage> = Vec::new();
    assert(msgs@.take(0) =~= Seq::<ChatMessage>::empty());
    assert(Seq::<ChatMessage>::empty().filter(|c: ChatMessage| passes(filter, *config, c))
        =~= Seq::<ChatMessage>::empty()) by {
        reveal(Seq::filter);
    }
    for k in 0..n
        invariant
            n == msgs@.len(),
            r@ == selected(msgs@.take(k as int), *config, filter),
    {
        proof {
            assert(msgs@.take(k + 1) =~= msgs@.take(k as int).push(msgs@[k as int]));
            msgs@.take(k as int).lemma_filter_push(
                msgs@[k as int],
                |c: ChatMessage| passes(filter, *config, c),
            );
        }
        if passes_exec(filter, config, &msgs[k]) {
            r.push(copy_chat_message(&msgs[k]));
        }
    }
    assert(msgs@.take(n as int) =~= msgs@);
    r
}

fn is_unread_exec(c: &ChatMessage, config: &Config, last_read: i64) -> (r: bool)
    ensures
        r == is_unread(*c, *config, last_read),
{
    c.sender == config.peer && c.message.ts > last_read
}

fn latest_from_peer(s: &Vec<ChatMessage>, config: &Config) -> (r: Option<i64>)
    ensures
        r == latest_peer_ts(s@, *config),
{
    let n = s.len();
    let mut latest: Option<i64> = None;
    assert(s@.take(0) =~= Seq::<ChatMessage>::empty());
    for k in 0..n
        invariant
            n == s@.len(),
            latest == latest_peer_ts(s@.take(k as int), *config),
    {
        assert(s@.take(k + 1).drop_last() =~= s@.take(k as int));
        assert(s@.take(k + 1).last() == s@[k as int]);
        if s[k].sender == config.peer {
            let ts = s[k].message.ts;
            latest = match latest {
                Some(t) => Some(
                    if t >= ts {
                        t
                    } else {
                        ts
                    },
                ),
                None => Some(ts),
            };
        }
    }
    assert(s@.take(n as int) =~= s@);
    latest
}

/// Plans showing the conversation `msgs` for `request`, given the stored
/// "last read" time: the filter, then (unless `full`) the window of the
/// last `DEFAULT_MESSAGE_LIMIT` messages, widened to start at the first
/// unread one; the unread marker and bell when a shown message of the
/// other participant is unread; and the new "last read" time.
pub fn plan_view(config: &Config, msgs: &Vec<ChatMessage>, request: ViewRequest, last_read: i64) -> (r:
    ViewPlan)
    ensures
        is_view_plan(r, msgs@, *config, request, last_read),
{
    let s = select(msgs, config, request.filter);
    let ghost sv = s@;
    let shown_msgs = if request.full {
        s
    } else {
        let n = s.len();
        let stop: usize = if n > DEFAULT_MESSAGE_LIMIT {
            n - DEFAULT_MESSAGE_LIMIT
        } else {
            0
        };
        let mut start: usize = 0;
        while start < stop && !is_unread_exec(&s[start], config, last_read)
            invariant
                n == s@.len(),
                s@ == sv,
                stop == default_start(n as int),
                start <= stop <= n,
                first_unread_from(sv, *config, last_read, start as int, stop as int)
                    == window_start(sv, *config, last_read),
            decreases stop - start,
        {
            start += 1;
        }
        let mut w: Vec<ChatMessage> = Vec::new();
        for k in start..n
            invariant
                n == s@.len(),
                s@ == sv,
                start <= n,
                start == window_start(sv, *config, last_read),
                w@ == sv.subrange(start as int, k as int),
        {
            w.push(copy_chat_message(&s[k]));
            assert(sv.subrange(start as int, k + 1) =~= sv.subrange(start as int, k as int).push(
                sv[k as int],
            ));
        }
        assert(sv.subrange(start as int, n as int) =~= sv.skip(start as int));
        w
    };
    let latest = latest_from_peer(&shown_msgs, config);
    let marks = match request.filter {
        MessageFilter::Sent => false,
        _ => true,
    };
    let mark = mark_messages_read(latest, last_read);
    let unread = marks && mark.is_some();
    ViewPlan {
        messages: shown_msgs,
        unread_marker: if unread {
            Some(last_read)
        } else {
            None
        },
        ring_bell: unread,
        mark_read: if marks {
            mark
        } else {
            None
        },
    }
}


proof fn lemma_first_unread_from(s: Seq<ChatMessage>, config: Config, last_read: i64, i: int, stop: int)
    requires
        0 <= i <= stop <= s.len(),
    ensures
        i <= first_unread_from(s, config, last_read, i, stop) <= stop,
        forall|j: int|
            i <= j < first_unread_from(s, config, last_read, i, stop) ==> !is_unread(
                #[trigger] s[j],
                config,
                last_read,
            ),
    decreases stop - i,
{
    if i < stop && !is_unread(s[i], config, last_read) {
        lemma_first_unread_from(s, config, last_read, i + 1, stop);
    }
}

/// The default window starts at most `DEFAULT_MESSAGE_LIMIT` messages from
/// the end, and no unread message comes before its start.
pub proof fn lemma_window_start(s: Seq<ChatMessage>, config: Config, last_read: i64)
    ensures
        0 <= window_start(s, config, last_read) <= default_start(s.len() as int),
        forall|j: int|
            0 <= j < window_start(s, config, last_read) ==> !is_unread(
                #[trigger] s[j],
                config,
                last_read,
            ),
{
    lemma_first_unread_from(s, config, last_read, 0, default_start(s.len() as int));
}

/// Every unread message that passes the filter is shown: the default view
/// widens its window so that none is left out.
pub proof fn lemma_unread_messages_are_shown(
    msgs: Seq<ChatMessage>,
    config: Config,
    request: ViewRequest,
    last_read: i64,
    i: int,
)
    requires
        0 <= i < selected(msgs, config, request.filter).len(),
        is_unread(selected(msgs, config, request.filter)[i], config, last_read),
    ensures
        shown(msgs, config, request, last_read).contains(
            selected(msgs, config, request.filter)[i],
        ),
{
    let s = selected(msgs, config, request.filter);
    if request.full {
        assert(shown(msgs, config, request, last_read)[i] == s[i]);
    } else {
        lemma_window_start(s, config, last_read);
        let start = window_start(s, config, last_read);
        assert(i >= start);
        assert(shown(msgs, config, request, last_read)[i - start] == s[i]);
    }
}

/// The default view shows the last `DEFAULT_MESSAGE_LIMIT` messages that
/// pass the filter (all of them when there are fewer), and possibly
/// earlier ones: always an unbroken run up to the latest message.
pub proof fn lemma_default_view_keeps_latest(
    msgs: Seq<ChatMessage>,
    config: Config,
    request: ViewRequest,
    last_read: i64,
)
    ensures
        ({
            let s = selected(msgs, config, request.filter);
            let v = shown(msgs, config, request, last_read);
            &&& v.len() <= s.len()
            &&& v.len() >= (if s.len() < DEFAULT_MESSAGE_LIMIT {
                s.len() as int
            } else {
                DEFAULT_MESSAGE_LIMIT as int
            })
            &&& v == s.skip(s.len() - v.len())
        }),
{
    let s = selected(msgs, config, request.filter);
    if request.full {
        assert(s.skip(0) =~= s);
    } else {
        lemma_window_start(s, config, last_read);
    }
}

proof fn lemma_latest_peer_ts(s: Seq<ChatMessage>, config: Config)
    ensures
        match latest_peer_ts(s, config) {
            Some(t) => {
                &&& exists|j: int|
                    0 <= j < s.len() && (#[trigger] s[j]).sender@ == config.peer@
                        && s[j].message.ts == t
                &&& forall|j: int|
                    0 <= j < s.len() && (#[trigger] s[j]).sender@ == config.peer@
                        ==> s[j].message.ts <= t
            },
            None => forall|j: int| 0 <= j < s.len() ==> (#[trigger] s[j]).sender@ != config.peer@,
        },
    decreases s.len(),
{
    if s.len() > 0 {
        let p = s.drop_last();
        let n = p.len() as int;
        lemma_latest_peer_ts(p, config);
        assert forall|j: int| 0 <= j < p.len() implies #[trigger] p[j] == s[j] by {}
        assert(s[n] == s.last());
        let last = s.last();
        match latest_peer_ts(p, config) {
            Some(t0) => {
                let j0 = choose|j: int|
                    0 <= j < p.len() && (#[trigger] p[j]).sender@ == config.peer@
                        && p[j].message.ts == t0;
                assert(s[j0] == p[j0]);
                if last.sender@ == config.peer@ {
                    let t = if t0 >= last.message.ts {
                        t0
                    } else {
                        last.message.ts
                    };
                    assert(latest_peer_ts(s, config) == Some(t));
                    assert forall|j: int|
                        0 <= j < s.len() && (#[trigger] s[j]).sender@ == config.peer@
                            implies s[j].message.ts <= t by {
                        if j < n {
                            assert(p[j] == s[j]);
                        }
                    }
                } else {
                    assert(latest_peer_ts(s, config) == Some(t0));
                    assert forall|j: int|
                        0 <= j < s.len() && (#[trigger] s[j]).sender@ == config.peer@
                            implies s[j].message.ts <= t0 by {
                        if j < n {
                            assert(p[j] == s[j]);
                        }
                    }
                }
            },
            None => {
                if last.sender@ == config.peer@ {
                    assert(latest_peer_ts(s, config) == Some(last.message.ts));
                    assert forall|j: int|
                        0 <= j < s.len() && (#[trigger] s[j]).sender@ == config.peer@
                            implies s[j].message.ts <= last.message.ts by {
                        if j < n {
                            assert(p[j] == s[j]);
                        }
                    }
                } else {
                    assert(latest_peer_ts(s, config) is None);
                    assert forall|j: int| 0 <= j < s.len() implies (#[trigger] s[j]).sender@
                        != config.peer@ by {
                        if j < n {
                            assert(p[j] == s[j]);
                        }
                    }
                }
            },
        }
    }
}

/// A view marks the other participant's messages read only up to a time
/// at which one of them is shown, later than the stored time, and only
/// when every message of theirs up to that time that passes the filter
/// is shown: nothing is marked read without being displayed.
pub proof fn lemma_marked_read_only_when_shown(
    msgs: Seq<ChatMessage>,
    config: Config,
    request: ViewRequest,
    last_read: i64,
    t: i64,
)
    requires
        marks_read(request.filter),
        read_mark(latest_peer_ts(shown(msgs, config, request, last_read), config), last_read)
            == Some(t),
    ensures
        t > last_read,
        exists|j: int|
            0 <= j < shown(msgs, config, request, last_read).len() && (#[trigger] shown(
                msgs,
                config,
                request,
                last_read,
            )[j]).sender@ == config.peer@ && shown(msgs, config, request, last_read)[j].message.ts
                == t,
        forall|i: int|
            0 <= i < selected(msgs, config, request.filter).len() && (#[trigger] selected(
                msgs,
                config,
                request.filter,
            )[i]).sender@ == config.peer@ && last_read < selected(
                msgs,
                config,
                request.filter,
            )[i].message.ts <= t ==> shown(msgs, config, request, last_read).contains(
                selected(msgs, config, request.filter)[i],
            ),
{
    let v = shown(msgs, config, request, last_read);
    lemma_latest_peer_ts(v, config);
    let s = selected(msgs, config, request.filter);
    assert forall|i: int|
        0 <= i < s.len() && (#[trigger] s[i]).sender@ == config.peer@ && last_read
            < s[i].message.ts <= t implies v.contains(s[i]) by {
        lemma_unread_messages_are_shown(msgs, config, request, last_read, i);
    }
}

/// The view of one's own sent messages never rings the bell, shows no
/// unread marker, and leaves the "last read" time as it is.
pub proof fn lemma_sent_view_marks_nothing(
    p: ViewPlan,
    msgs: Seq<ChatMessage>,
    config: Config,
    request: ViewRequest,
    last_read: i64,
)
    requires
        request.filter == MessageFilter::Sent,
        is_view_plan(p, msgs, config, request, last_read),
    ensures
        !p.ring_bell,
        p.unread_marker is None,
        p.mark_read is None,
{
}


/// The rendered view holds the unread divider exactly when the bell
/// rings: once when it does, never otherwise (the two participants being
/// different people).
pub proof fn lemma_divider_exactly_when_bell(
    p: ViewPlan,
    msgs: Seq<ChatMessage>,
    config: Config,
    request: ViewRequest,
    last_read: i64,
)
    requires
        is_view_plan(p, msgs, config, request, last_read),
        config.identity@ != config.peer@,
    ensures
        divider_count(
            render_items(p.messages@, config.identity@, p.unread_marker, p.messages@.len() as int),
        ) == if p.ring_bell {
            1nat
        } else {
            0nat
        },
{
    let v = p.messages@;
    lemma_render_items_summary(v, config.identity@, p.unread_marker, v.len() as int);
    if p.ring_bell {
        lemma_latest_peer_ts(v, config);
        let t = latest_peer_ts(v, config)->0;
        let j = choose|j: int|
            0 <= j < v.len() && (#[trigger] v[j]).sender@ == config.peer@ && v[j].message.ts == t;
        assert(is_marked_unread(v[j], config.identity@, p.unread_marker));
        assert(marked_before(v, config.identity@, p.unread_marker, v.len() as int));
    } else {
        assert(!marked_before(v, config.identity@, p.unread_marker, v.len() as int));
    }
}


/// Where the default window starts, in terms of the messages alone: at
/// the first message from the other participant later than `last_read`,
/// unless that comes after the start of the last `DEFAULT_MESSAGE_LIMIT`
/// messages, which is then the start. The reader's own messages never
/// move it.
pub proof fn lemma_default_window(
    p: ViewPlan,
    msgs: Seq<ChatMessage>,
    config: Config,
    request: ViewRequest,
    last_read: i64,
)
    requires
        is_view_plan(p, msgs, config, request, last_read),
        !request.full,
    ensures
        ({
            let s = selected(msgs, config, request.filter);
            let w = s.len() - p.messages@.len();
            let latest_start = if s.len() > 20 {
                s.len() - 20
            } else {
                0
            };
            &&& 0 <= w <= latest_start
            &&& p.messages@ == s.skip(w)
            &&& forall|j: int|
                0 <= j < w ==> !((#[trigger] s[j]).sender@ == config.peer@ && s[j].message.ts
                    > last_read)
            &&& w < latest_start ==> s[w].sender@ == config.peer@ && s[w].message.ts > last_read
        }),
{
    let s = selected(msgs, config, request.filter);
    lemma_window_start(s, config, last_read);
    let w = window_start(s, config, last_read);
    lemma_first_unread_is_unread(s, config, last_read, 0, default_start(s.len() as int));
    assert(p.messages@ == s.skip(w));
    assert(s.len() - p.messages@.len() == w);
}

proof fn lemma_first_unread_is_unread(s: Seq<ChatMessage>, config: Config, last_read: i64, i: int, stop: int)
    requires
        0 <= i <= stop <= s.len(),
    ensures
        first_unread_from(s, config, last_read, i, stop) < stop ==> is_unread(
            s[first_unread_from(s, config, last_read, i, stop)],
            config,
            last_read,
        ),
    decreases stop - i,
{
    if i < stop && !is_unread(s[i], config, last_read) {
        lemma_first_unread_is_unread(s, config, last_read, i + 1, stop);
    }
}

proof fn lemma_filter_all(s: Seq<ChatMessage>, config: Config)
    ensures
        selected(s, config, MessageFilter::All) == s,
    decreases s.len(),
{
    if s.len() == 0 {
        assert(s.filter(|c: ChatMessage| passes(MessageFilter::All, config, c)) =~= s) by {
            reveal(Seq::filter);
        }
    } else {
        let d = s.drop_last();
        lemma_filter_all(d, config);
        assert(d.push(s.last()) =~= s);
        d.lemma_filter_push(s.last(), |c: ChatMessage| passes(MessageFilter::All, config, c));
    }
}

/// With no message from the other participant later than `last_read`,
/// the default view of all messages is exactly the last
/// `DEFAULT_MESSAGE_LIMIT` of them (all of them when there are fewer),
/// whatever the times of the reader's own messages; nothing is marked.
pub proof fn lemma_default_view_without_unread(
    p: ViewPlan,
    msgs: Seq<ChatMessage>,
    config: Config,
    last_read: i64,
)
    requires
        is_view_plan(p, msgs, config, ViewRequest { full: false, filter: MessageFilter::All }, last_read),
        forall|i: int|
            0 <= i < msgs.len() ==> !((#[trigger] msgs[i]).sender@ == config.peer@
                && msgs[i].message.ts > last_read),
    ensures
        p.messages@ == msgs.skip(if msgs.len() > 20 { msgs.len() - 20 } else { 0 }),
        p.messages@.len() == if msgs.len() > 20 { 20 } else { msgs.len() as int },
        !p.ring_bell,
        p.unread_marker is None,
        p.mark_read is None,
{
    let request = ViewRequest { full: false, filter: MessageFilter::All };
    lemma_filter_all(msgs, config);
    lemma_default_window(p, msgs, config, request, last_read);
    let v = p.messages@;
    lemma_latest_peer_ts(v, config);
    match latest_peer_ts(v, config) {
        Some(t) => {
            let j = choose|j: int|
                0 <= j < v.len() && (#[trigger] v[j]).sender@ == config.peer@ && v[j].message.ts == t;
            let w = msgs.len() - v.len();
            assert(v[j] == msgs[j + w]);
        },
        None => {},
    }
}

} // verus!
