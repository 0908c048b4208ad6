//! The layout of the rendered conversation: blank lines at long pauses,
//! the unread divider, and one line per message.

use vstd::prelude::*;
use crate::chat::ChatMessage;

verus! {

/// A pause longer than this many seconds between two messages is shown as
/// a blank line.
pub const HOUR_SECONDS: i64 = 3600;

/// One element of the rendered conversation.
#[derive(Debug, Clone, Copy, PartialEq, Eq, Structural)]
pub enum RenderItem {
    /// An empty line.
    Blank,
    /// The `--- unread ---` divider.
    UnreadDivider,
    /// The line of message `index`; `own` when the reader sent it.
    Entry { index: usize, own: bool },
}

/// The reader sent the message.
pub open spec fn is_own(c: ChatMessage, identity: Seq<char>) -> bool {
    c.sender@ == identity
}

/// The message is from the other participant and later than the marker.
pub open spec fn is_marked_unread(c: ChatMessage, identity: Seq<char>, marker: Option<i64>) -> bool {
    !is_own(c, identity) && match marker {
        Some(t) => c.message.ts > t,
        None => false,
    }
}

/// Some message before position `k` is marked unread.
pub open spec fn marked_before(
    msgs: Seq<ChatMessage>,
    identity: Seq<char>,
    marker: Option<i64>,
    k: int,
) -> bool {
    exists|j: int| 0 <= j < k && is_marked_unread(#[trigger] msgs[j], identity, marker)
}

/// The items rendered for message `k`: a blank line after a pause of more
/// than an hour; before the first unread message the divider, preceded by
/// a blank line unless it is the first message; then the message's line.
pub open spec fn render_block(
    msgs: Seq<ChatMessage>,
    identity: Seq<char>,
    marker: Option<i64>,
    k: int,
) -> Seq<RenderItem> {
    let c = msgs[k];
    let pause = k > 0 && c.message.ts - msgs[k - 1].message.ts > HOUR_SECONDS;
    let divider = is_marked_unread(c, identity, marker) && !marked_before(
        msgs,
        identity,
        marker,
        k,
    );
    let gap: Seq<RenderItem> = if pause {
        seq![RenderItem::Blank]
    } else {
        seq![]
    };
    let head: Seq<RenderItem> = if divider {
        if k > 0 {
            seq![RenderItem::Blank, RenderItem::UnreadDivider]
        } else {
            seq![RenderItem::UnreadDivider]
        }
    } else {
        seq![]
    };
    gap + head + seq![RenderItem::Entry { index: k as usize, own: is_own(c, identity) }]
}

/// The items rendered for the first `k` messages.
pub open spec fn render_items(
    msgs: Seq<ChatMessage>,
    identity: Seq<char>,
    marker: Option<i64>,
    k: int,
) -> Seq<RenderItem>
    decreases k,
{
    if k <= 0 {
        seq![]
    } else {
        render_items(msgs, identity, marker, k - 1) + render_block(msgs, identity, marker, k - 1)
    }
}

/// Lays out `msgs` for a reader called `identity`, with the messages of
/// the other participant later than `unread_marker` (if any) marked unread.
pub fn render_plan(msgs: &Vec<ChatMessage>, identity: &String, unread_marker: Option<i64>) -> (r: Vec<
    RenderItem,
>)
    ensures
        r@ == render_items(msgs@, identity@, unread_marker, msgs@.len() as int),
{
    let n = msgs.len();
    let mut items: Vec<RenderItem> = Vec::new();
    let mut printed = false;
    for k in 0..n
        invariant
            n == msgs@.len(),
            items@ == render_items(msgs@, identity@, unread_marker, k as int),
            printed == marked_before(msgs@, identity@, unread_marker, k as int),
    {
        let c = &msgs[k];
        let ghost before = items@;
        if k > 0 && (c.message.ts as i128) - (msgs[k - 1].message.ts as i128) > HOUR_SECONDS as i128 {
            items.push(RenderItem::Blank);
        }
        let own = c.sender == *identity;
        let unread = !own && match unread_marker {
            Some(t) => c.message.ts > t,
            None => false,
        };
        if unread && !printed {
            if k > 0 {
                items.push(RenderItem::Blank);
            }
            items.push(RenderItem::UnreadDivider);
        }
        items.push(RenderItem::Entry { index: k, own });
        proof {
            let b = render_block(msgs@, identity@, unread_marker, k as int);
            assert(items@ =~= before + b);
            assert(render_items(msgs@, identity@, unread_marker, k + 1) == before + b);
            if unread && !printed {
                assert(is_marked_unread(msgs@[k as int], identity@, unread_marker));
            }
            if printed {
                let j = choose|j: int|
                    0 <= j < k && is_marked_unread(#[trigger] msgs@[j], identity@, unread_marker);
                assert(marked_before(msgs@, identity@, unread_marker, k + 1));
            }
            if unread {
                assert(marked_before(msgs@, identity@, unread_marker, k + 1));
            }
            if !printed && !unread {
                assert forall|j: int| 0 <= j < k + 1 implies !is_marked_unread(
                    #[trigger] msgs@[j],
                    identity@,
                    unread_marker,
                ) by {
                    if j < k {
                        assert(!is_marked_unread(msgs@[j], identity@, unread_marker));
                    }
                }
            }
        }
        printed = printed || unread;
    }
    items
}

/// The text of a message's line: `[<time>] <sender>: <text>`.
pub open spec fn entry_text(time_label: Seq<char>, sender: Seq<char>, text: Seq<char>) -> Seq<char> {
    "["@ + time_label + "] "@ + sender + ": "@ + text
}

/// The text of a message's line, given the label of its time.
pub fn format_entry(time_label: &str, sender: &str, text: &str) -> (r: String)
    ensures
        r@ == entry_text(time_label@, sender@, text@),
{
    String::from_str("[").concat(time_label).concat("] ").concat(sender).concat(": ").concat(text)
}


/// How many unread dividers `items` holds.
pub open spec fn divider_count(items: Seq<RenderItem>) -> nat
    decreases items.len(),
{
    if items.len() == 0 {
        0
    } else {
        divider_count(items.drop_last()) + if items.last() == RenderItem::UnreadDivider {
            1nat
        } else {
            0nat
        }
    }
}

/// The message lines of `items`, in order, as (message index, own) pairs.
pub open spec fn entries(items: Seq<RenderItem>) -> Seq<(usize, bool)>
    decreases items.len(),
{
    if items.len() == 0 {
        seq![]
    } else {
        let p = entries(items.drop_last());
        match items.last() {
            RenderItem::Entry { index, own } => p.push((index, own)),
            _ => p,
        }
    }
}

proof fn lemma_divider_count_add(a: Seq<RenderItem>, b: Seq<RenderItem>)
    ensures
        divider_count(a + b) == divider_count(a) + divider_count(b),
    decreases b.len(),
{
    if b.len() == 0 {
        assert(a + b =~= a);
    } else {
        lemma_divider_count_add(a, b.drop_last());
        assert((a + b).drop_last() =~= a + b.drop_last());
        assert((a + b).last() == b.last());
    }
}

proof fn lemma_entries_add(a: Seq<RenderItem>, b: Seq<RenderItem>)
    ensures
        entries(a + b) == entries(a) + entries(b),
    decreases b.len(),
{
    if b.len() == 0 {
        assert(a + b =~= a);
        assert(entries(a) + entries(b) =~= entries(a));
    } else {
        lemma_entries_add(a, b.drop_last());
        assert((a + b).drop_last() =~= a + b.drop_last());
        assert((a + b).last() == b.last());
        let e = entries(a) + entries(b.drop_last());
        match b.last() {
            RenderItem::Entry { index, own } => {
                assert(e.push((index, own)) =~= entries(a) + entries(b.drop_last()).push(
                    (index, own),
                ));
            },
            _ => {},
        }
    }
}

proof fn lemma_single_summary(x: RenderItem)
    ensures
        divider_count(seq![x]) == if x == RenderItem::UnreadDivider {
            1nat
        } else {
            0nat
        },
        entries(seq![x]) == match x {
            RenderItem::Entry { index, own } => seq![(index, own)],
            _ => Seq::<(usize, bool)>::empty(),
        },
{
    assert(seq![x].drop_last() =~= Seq::<RenderItem>::empty());
    assert(seq![x].last() == x);
    assert(divider_count(Seq::<RenderItem>::empty()) == 0);
    assert(entries(Seq::<RenderItem>::empty()) == Seq::<(usize, bool)>::empty());
    assert(Seq::<(usize, bool)>::empty().push((0usize, true)) =~= seq![(0usize, true)]);
    match x {
        RenderItem::Entry { index, own } => {
            assert(Seq::<(usize, bool)>::empty().push((index, own)) =~= seq![(index, own)]);
        },
        _ => {},
    }
}

proof fn lemma_block_summary(msgs: Seq<ChatMessage>, identity: Seq<char>, marker: Option<i64>, k: int)
    requires
        0 <= k < msgs.len(),
    ensures
        divider_count(render_block(msgs, identity, marker, k)) == if is_marked_unread(
            msgs[k],
            identity,
            marker,
        ) && !marked_before(msgs, identity, marker, k) {
            1nat
        } else {
            0nat
        },
        entries(render_block(msgs, identity, marker, k)) == seq![
            (k as usize, is_own(msgs[k], identity)),
        ],
{
    let c = msgs[k];
    let e = RenderItem::Entry { index: k as usize, own: is_own(c, identity) };
    let pause = k > 0 && c.message.ts - msgs[k - 1].message.ts > HOUR_SECONDS;
    let divider = is_marked_unread(c, identity, marker) && !marked_before(msgs, identity, marker, k);
    let gap: Seq<RenderItem> = if pause {
        seq![RenderItem::Blank]
    } else {
        seq![]
    };
    let head: Seq<RenderItem> = if divider {
        if k > 0 {
            seq![RenderItem::Blank, RenderItem::UnreadDivider]
        } else {
            seq![RenderItem::UnreadDivider]
        }
    } else {
        seq![]
    };
    let empty = Seq::<RenderItem>::empty();
    assert(divider_count(empty) == 0);
    assert(entries(empty) == Seq::<(usize, bool)>::empty());
    lemma_single_summary(RenderItem::Blank);
    lemma_single_summary(RenderItem::UnreadDivider);
    lemma_single_summary(e);
    assert(divider_count(gap) == 0 && entries(gap) == Seq::<(usize, bool)>::empty());
    if divider && k > 0 {
        assert(head =~= seq![RenderItem::Blank] + seq![RenderItem::UnreadDivider]);
        lemma_divider_count_add(seq![RenderItem::Blank], seq![RenderItem::UnreadDivider]);
        lemma_entries_add(seq![RenderItem::Blank], seq![RenderItem::UnreadDivider]);
        assert(Seq::<(usize, bool)>::empty() + Seq::<(usize, bool)>::empty() =~= Seq::<(usize, bool)>::empty());
    }
    assert(divider_count(head) == if divider { 1nat } else { 0nat });
    assert(entries(head) == Seq::<(usize, bool)>::empty());
    lemma_divider_count_add(gap, head);
    lemma_entries_add(gap, head);
    lemma_divider_count_add(gap + head, seq![e]);
    lemma_entries_add(gap + head, seq![e]);
    assert(Seq::<(usize, bool)>::empty() + Seq::<(usize, bool)>::empty() =~= Seq::<(usize, bool)>::empty());
    assert(Seq::<(usize, bool)>::empty() + seq![(k as usize, is_own(c, identity))] =~= seq![(k as usize, is_own(c, identity))]);
}

/// The rendering of the first `k` messages holds one unread divider when
/// one of them is marked unread, and none otherwise; and it holds one line
/// per message, in their order, own messages flagged as such.
pub proof fn lemma_render_items_summary(
    msgs: Seq<ChatMessage>,
    identity: Seq<char>,
    marker: Option<i64>,
    k: int,
)
    requires
        0 <= k <= msgs.len(),
    ensures
        divider_count(render_items(msgs, identity, marker, k)) == if marked_before(
            msgs,
            identity,
            marker,
            k,
        ) {
            1nat
        } else {
            0nat
        },
        entries(render_items(msgs, identity, marker, k)) == Seq::new(
            k as nat,
            |i: int| (i as usize, is_own(msgs[i], identity)),
        ),
    decreases k,
{
    if k == 0 {
        assert(entries(Seq::<RenderItem>::empty()) =~= Seq::new(
            0,
            |i: int| (i as usize, is_own(msgs[i], identity)),
        ));
    } else {
        let prev = render_items(msgs, identity, marker, k - 1);
        let b = render_block(msgs, identity, marker, k - 1);
        lemma_render_items_summary(msgs, identity, marker, k - 1);
        lemma_block_summary(msgs, identity, marker, k - 1);
        lemma_divider_count_add(prev, b);
        lemma_entries_add(prev, b);
        if marked_before(msgs, identity, marker, k - 1) {
            let j = choose|j: int|
                0 <= j < k - 1 && is_marked_unread(#[trigger] msgs[j], identity, marker);
            assert(marked_before(msgs, identity, marker, k));
        } else if is_marked_unread(msgs[k - 1], identity, marker) {
            assert(marked_before(msgs, identity, marker, k));
        } else {
            assert forall|j: int| 0 <= j < k implies !is_marked_unread(
                #[trigger] msgs[j],
                identity,
                marker,
            ) by {
                if j < k - 1 {
                    assert(!is_marked_unread(msgs[j], identity, marker));
                }
            }
        }
        assert(Seq::new((k - 1) as nat, |i: int| (i as usize, is_own(msgs[i], identity))) + seq![
            ((k - 1) as usize, is_own(msgs[k - 1], identity)),
        ] =~= Seq::new(k as nat, |i: int| (i as usize, is_own(msgs[i], identity))));
    }
}


/// In the items of one message, a divider is followed by that message's
/// line, which is someone else's, later than the marker, and the first such.
proof fn lemma_block_divider(msgs: Seq<ChatMessage>, identity: Seq<char>, marker: Option<i64>, k: int)
    requires
        0 <= k < msgs.len(),
        msgs.len() <= usize::MAX,
    ensures
        ({
            let b = render_block(msgs, identity, marker, k);
            forall|i: int|
                0 <= i < b.len() && #[trigger] b[i] == RenderItem::UnreadDivider ==> {
                    &&& i + 1 < b.len()
                    &&& b[i + 1] == RenderItem::Entry { index: k as usize, own: false }
                    &&& msgs[k].sender@ != identity
                    &&& marker is Some
                    &&& msgs[k].message.ts > marker->0
                    &&& forall|j: int|
                        0 <= j < k ==> !((#[trigger] msgs[j]).sender@ != identity
                            && msgs[j].message.ts > marker->0)
                }
        }),
{
    let c = msgs[k];
    let e = RenderItem::Entry { index: k as usize, own: is_own(c, identity) };
    let b = render_block(msgs, identity, marker, k);
    let pause = k > 0 && c.message.ts - msgs[k - 1].message.ts > HOUR_SECONDS;
    let divider = is_marked_unread(c, identity, marker) && !marked_before(msgs, identity, marker, k);
    if divider {
        assert(!is_own(c, identity));
        assert forall|j: int| 0 <= j < k implies !((#[trigger] msgs[j]).sender@ != identity
            && msgs[j].message.ts > marker->0) by {
            assert(!is_marked_unread(msgs[j], identity, marker));
        }
        if pause {
            if k > 0 {
                assert(b =~= seq![RenderItem::Blank, RenderItem::Blank, RenderItem::UnreadDivider, e]);
            }
        } else if k > 0 {
            assert(b =~= seq![RenderItem::Blank, RenderItem::UnreadDivider, e]);
        } else {
            assert(b =~= seq![RenderItem::UnreadDivider, e]);
        }
    } else {
        if pause {
            assert(b =~= seq![RenderItem::Blank, e]);
        } else {
            assert(b =~= seq![e]);
        }
    }
}

/// The unread divider stands only directly before the line of the first
/// message that someone other than the reader sent after the marker time:
/// never before one of the reader's own lines, never before a later
/// message of the other participant.
pub proof fn lemma_divider_before_first_unread(
    msgs: Seq<ChatMessage>,
    identity: Seq<char>,
    marker: Option<i64>,
    k: int,
)
    requires
        0 <= k <= msgs.len(),
        msgs.len() <= usize::MAX,
    ensures
        ({
            let items = render_items(msgs, identity, marker, k);
            forall|i: int|
                0 <= i < items.len() && #[trigger] items[i] == RenderItem::UnreadDivider ==> {
                    &&& i + 1 < items.len()
                    &&& items[i + 1] matches RenderItem::Entry { index, own }
                    &&& !own
                    &&& index < k
                    &&& msgs[index as int].sender@ != identity
                    &&& marker is Some
                    &&& msgs[index as int].message.ts > marker->0
                    &&& forall|j: int|
                        0 <= j < index ==> !((#[trigger] msgs[j]).sender@ != identity
                            && msgs[j].message.ts > marker->0)
                }
        }),
    decreases k,
{
    if k > 0 {
        lemma_divider_before_first_unread(msgs, identity, marker, k - 1);
        lemma_block_divider(msgs, identity, marker, k - 1);
        let prev = render_items(msgs, identity, marker, k - 1);
        let b = render_block(msgs, identity, marker, k - 1);
        let items = render_items(msgs, identity, marker, k);
        assert(items == prev + b);
        assert forall|i: int|
            0 <= i < items.len() && items[i] == RenderItem::UnreadDivider implies {
                &&& i + 1 < items.len()
                &&& items[i + 1] matches RenderItem::Entry { index, own }
                &&& !own
                &&& index < k
                &&& msgs[index as int].sender@ != identity
                &&& marker is Some
                &&& msgs[index as int].message.ts > marker->0
                &&& forall|j: int|
                    0 <= j < index ==> !((#[trigger] msgs[j]).sender@ != identity
                        && msgs[j].message.ts > marker->0)
            } by {
            if i < prev.len() {
                assert(items[i] == prev[i]);
                assert(items[i + 1] == prev[i + 1]);
            } else {
                let bi = i - prev.len();
                assert(items[i] == b[bi]);
                assert(items[i + 1] == b[bi + 1]);
            }
        }
    }
}

/// The conversation shows an unread divider exactly when some message
/// from someone other than the reader is later than the marker time.
pub proof fn lemma_divider_present_iff_unread(
    msgs: Seq<ChatMessage>,
    identity: Seq<char>,
    marker: Option<i64>,
)
    ensures
        divider_count(render_items(msgs, identity, marker, msgs.len() as int)) == if marker is Some
            && exists|j: int|
            0 <= j < msgs.len() && (#[trigger] msgs[j]).sender@ != identity && msgs[j].message.ts
                > marker->0 {
            1nat
        } else {
            0nat
        },
{
    lemma_render_items_summary(msgs, identity, marker, msgs.len() as int);
    if marker is Some && exists|j: int|
        0 <= j < msgs.len() && (#[trigger] msgs[j]).sender@ != identity && msgs[j].message.ts
            > marker->0 {
        let j = choose|j: int|
            0 <= j < msgs.len() && (#[trigger] msgs[j]).sender@ != identity && msgs[j].message.ts
                > marker->0;
        assert(is_marked_unread(msgs[j], identity, marker));
    } else {
        assert forall|j: int| 0 <= j < msgs.len() implies !is_marked_unread(
            #[trigger] msgs[j],
            identity,
            marker,
        ) by {}
    }
}

} // verus!
