//! The conversation: both participants' messages merged into one ordered
//! list without duplicates.

use vstd::prelude::*;
use crate::config::Config;
use crate::messages::Message;
use crate::text::chars_of;

verus! {

/// A message together with the participant who sent it.
#[derive(Debug)]
pub struct ChatMessage {
    pub sender: String,
    pub message: Message,
}

/// `a` comes before `b` in the order of `str`'s `Ord`: lexicographic by
/// character (the order of their UTF-8 bytes).
pub open spec fn seq_less(a: Seq<char>, b: Seq<char>) -> bool
    decreases a.len(),
{
    if a.len() == 0 {
        b.len() > 0
    } else if b.len() == 0 {
        false
    } else if a[0] != b[0] {
        a[0] < b[0]
    } else {
        seq_less(a.drop_first(), b.drop_first())
    }
}

pub proof fn lemma_seq_less_irreflexive(a: Seq<char>)
    ensures
        !seq_less(a, a),
    decreases a.len(),
{
    if a.len() > 0 {
        lemma_seq_less_irreflexive(a.drop_first());
    }
}

pub proof fn lemma_seq_less_asymmetric(a: Seq<char>, b: Seq<char>)
    requires
        seq_less(a, b),
    ensures
        !seq_less(b, a),
    decreases a.len(),
{
    if a.len() > 0 && b.len() > 0 && a[0] == b[0] {
        lemma_seq_less_asymmetric(a.drop_first(), b.drop_first());
    }
}

pub proof fn lemma_seq_less_transitive(a: Seq<char>, b: Seq<char>, c: Seq<char>)
    requires
        seq_less(a, b),
        seq_less(b, c),
    ensures
        seq_less(a, c),
    decreases a.len(),
{
    if a.len() > 0 && b.len() > 0 && c.len() > 0 && a[0] == b[0] && b[0] == c[0] {
        lemma_seq_less_transitive(a.drop_first(), b.drop_first(), c.drop_first());
    }
}

pub proof fn lemma_seq_less_total(a: Seq<char>, b: Seq<char>)
    requires
        a != b,
    ensures
        seq_less(a, b) || seq_less(b, a),
    decreases a.len(),
{
    if a.len() == 0 {
        assert(b.len() > 0) by {
            if b.len() == 0 {
                assert(a =~= b);
            }
        }
    } else if b.len() > 0 && a[0] == b[0] {
        if a.drop_first() == b.drop_first() {
            assert(a =~= seq![a[0]] + a.drop_first());
            assert(b =~= seq![b[0]] + b.drop_first());
        }
        lemma_seq_less_total(a.drop_first(), b.drop_first());
    }
}

/// Compares two strings as `str`'s `Ord` does.
pub fn str_less(a: &str, b: &str) -> (r: bool)
    ensures
        r == seq_less(a@, b@),
{
    let ca = chars_of(a);
    let cb = chars_of(b);
    let mut i: usize = 0;
    assert(a@.skip(0) =~= a@);
    assert(b@.skip(0) =~= b@);
    while i < ca.len() && i < cb.len()
        invariant
            ca@ == a@,
            cb@ == b@,
            i <= ca@.len(),
            i <= cb@.len(),
            seq_less(a@, b@) == seq_less(a@.skip(i as int), b@.skip(i as int)),
        decreases ca.len() - i,
    {
        if ca[i] != cb[i] {
            return ca[i] < cb[i];
        }
        assert(a@.skip(i as int).drop_first() =~= a@.skip(i + 1));
        assert(b@.skip(i as int).drop_first() =~= b@.skip(i + 1));
        i += 1;
    }
    i == ca.len() && i < cb.len()
}

/// The order of the conversation: by time, then by id.
pub open spec fn chat_before(x: ChatMessage, y: ChatMessage) -> bool {
    ||| x.message.ts < y.message.ts
    ||| (x.message.ts == y.message.ts && seq_less(x.message.id@, y.message.id@))
}

pub proof fn lemma_chat_before_transitive(x: ChatMessage, y: ChatMessage, z: ChatMessage)
    requires
        chat_before(x, y),
        chat_before(y, z),
    ensures
        chat_before(x, z),
{
    if x.message.ts == y.message.ts && y.message.ts == z.message.ts {
        lemma_seq_less_transitive(x.message.id@, y.message.id@, z.message.id@);
    }
}

pub proof fn lemma_chat_before_total(x: ChatMessage, y: ChatMessage)
    requires
        x.message.id@ != y.message.id@,
    ensures
        chat_before(x, y) || chat_before(y, x),
{
    lemma_seq_less_total(x.message.id@, y.message.id@);
}

pub proof fn lemma_chat_before_asymmetric(x: ChatMessage, y: ChatMessage)
    requires
        chat_before(x, y),
    ensures
        !chat_before(y, x),
{
    if x.message.ts == y.message.ts {
        lemma_seq_less_asymmetric(x.message.id@, y.message.id@);
    }
}

fn chat_less(x: &ChatMessage, y: &ChatMessage) -> (r: bool)
    ensures
        r == chat_before(*x, *y),
{
    x.message.ts < y.message.ts || (x.message.ts == y.message.ts && str_less(
        x.message.id.as_str(),
        y.message.id.as_str(),
    ))
}

/// Each message strictly before the next.
pub open spec fn chat_sorted(s: Seq<ChatMessage>) -> bool {
    forall|i: int, j: int| 0 <= i < j < s.len() ==> chat_before(s[i], s[j])
}

/// No id occurs twice.
pub open spec fn distinct_ids(s: Seq<ChatMessage>) -> bool {
    forall|i: int, j: int|
        0 <= i < s.len() && 0 <= j < s.len() && i != j ==> s[i].message.id@ != s[j].message.id@
}

/// Some message of `s` has the id `id`.
pub open spec fn has_id(s: Seq<ChatMessage>, id: Seq<char>) -> bool {
    exists|j: int| 0 <= j < s.len() && (#[trigger] s[j]).message.id@ == id
}

/// The messages of `s` whose id did not occur before them: the first
/// message with each id.
pub open spec fn first_of_each_id(s: Seq<ChatMessage>) -> Seq<ChatMessage>
    decreases s.len(),
{
    if s.len() == 0 {
        s
    } else {
        let p = first_of_each_id(s.drop_last());
        if has_id(s.drop_last(), s.last().message.id@) {
            p
        } else {
            p.push(s.last())
        }
    }
}

/// Messages attributed to `sender`.
pub open spec fn sent_by(sender: String, msgs: Seq<Message>) -> Seq<ChatMessage> {
    msgs.map_values(|m: Message| ChatMessage { sender: sender, message: m })
}

/// Both participants' messages, own first, each attributed to its sender.
pub open spec fn attributed(config: Config, own: Seq<Message>, peer: Seq<Message>) -> Seq<
    ChatMessage,
> {
    sent_by(config.identity, own) + sent_by(config.peer, peer)
}

/// The conversation of `own` and `peer` messages, as the merged view shows
/// it: the first message with each id, in the order of `chat_before`.
pub open spec fn is_conversation(
    r: Seq<ChatMessage>,
    config: Config,
    own: Seq<Message>,
    peer: Seq<Message>,
) -> bool {
    let kept = first_of_each_id(attributed(config, own, peer));
    &&& chat_sorted(r)
    &&& distinct_ids(r)
    &&& r.len() == kept.len()
    &&& forall|x: ChatMessage| r.contains(x) <==> kept.contains(x)
}

fn copy_message(m: &Message) -> (r: Message)
    ensures
        r == *m,
{
    Message::from_parts(m.id.clone(), m.ts, m.text.clone())
}

pub(crate) fn copy_chat_message(c: &ChatMessage) -> (r: ChatMessage)
    ensures
        r == *c,
{
    ChatMessage { sender: c.sender.clone(), message: copy_message(&c.message) }
}

fn attribute_all(sender: &String, msgs: &Vec<Message>, out: &mut Vec<ChatMessage>)
    ensures
        final(out)@ == old(out)@ + sent_by(*sender, msgs@),
{
    let n = msgs.len();
    let ghost start = out@;
    for i in 0..n
        invariant
            n == msgs@.len(),
            out@ == start + sent_by(*sender, msgs@.take(i as int)),
    {
        let c = ChatMessage { sender: sender.clone(), message: copy_message(&msgs[i]) };
        proof {
            assert(msgs@.take(i + 1) =~= msgs@.take(i as int).push(msgs@[i as int]));
            msgs@.take(i as int).lemma_push_map_commute(
                |m: Message| ChatMessage { sender: *sender, message: m },
                msgs@[i as int],
            );
        }
        out.push(c);
    }
    assert(msgs@.take(n as int) =~= msgs@);
}

/// Whether some message of `r` has the id of `c`.
fn contains_id(r: &Vec<ChatMessage>, c: &ChatMessage) -> (b: bool)
    ensures
        b == has_id(r@, c.message.id@),
{
    let n = r.len();
    for i in 0..n
        invariant
            n == r@.len(),
            forall|j: int| 0 <= j < i ==> r@[j].message.id@ != c.message.id@,
    {
        if r[i].message.id == c.message.id {
            return true;
        }
    }
    false
}

/// Puts `c`, whose id is new, at its place in the sorted `r`.
fn insert_sorted(r: &mut Vec<ChatMessage>, c: ChatMessage)
    requires
        chat_sorted(old(r)@),
        distinct_ids(old(r)@),
        !has_id(old(r)@, c.message.id@),
    ensures
        chat_sorted(final(r)@),
        distinct_ids(final(r)@),
        final(r)@.len() == old(r)@.len() + 1,
        forall|x: ChatMessage| final(r)@.contains(x) <==> (old(r)@.contains(x) || x == c),
        forall|id: Seq<char>| has_id(final(r)@, id) <==> (has_id(old(r)@, id) || id == c.message.id@),
{
    let n = r.len();
    let mut p: usize = 0;
    while p < n && !chat_less(&c, &r[p])
        invariant
            n == r@.len(),
            p <= n,
            r@ == old(r)@,
            forall|j: int| 0 <= j < p ==> !chat_before(c, #[trigger] r@[j]),
        decreases n - p,
    {
        p += 1;
    }
    let ghost s = r@;
    proof {
        assert forall|j: int| 0 <= j < p implies chat_before(s[j], c) by {
            assert(s[j].message.id@ != c.message.id@);
            lemma_chat_before_total(s[j], c);
        }
        assert forall|j: int| p <= j < n implies chat_before(c, s[j]) by {
            if j > p {
                lemma_chat_before_transitive(c, s[p as int], s[j]);
            }
        }
        s.insert_ensures(p as int, c);
    }
    r.insert(p, c);
    proof {
        let t = r@;
        assert(t == s.insert(p as int, c));
        assert forall|i: int, j: int| 0 <= i < j < t.len() implies chat_before(t[i], t[j]) by {
            if j < p {
            } else if j == p {
            } else if i < p {
                assert(t[j] == s[j - 1]);
                lemma_chat_before_transitive(t[i], c, t[j]);
            } else if i == p {
                assert(t[j] == s[j - 1]);
            } else {
                assert(t[i] == s[i - 1]);
                assert(t[j] == s[j - 1]);
            }
        }
        assert forall|i: int, j: int|
            0 <= i < t.len() && 0 <= j < t.len() && i != j implies t[i].message.id@
            != t[j].message.id@ by {
            if i != p && j != p {
                let i0 = if i < p { i } else { i - 1 };
                let j0 = if j < p { j } else { j - 1 };
                assert(t[i] == s[i0]);
                assert(t[j] == s[j0]);
            } else if i == p {
                let j0 = if j < p { j } else { j - 1 };
                assert(t[j] == s[j0]);
            } else {
                let i0 = if i < p { i } else { i - 1 };
                assert(t[i] == s[i0]);
            }
        }
        assert forall|x: ChatMessage| t.contains(x) <==> (s.contains(x) || x == c) by {
            if t.contains(x) {
                let i = choose|i: int| 0 <= i < t.len() && t[i] == x;
                if i < p {
                    assert(s[i] == x);
                } else if i > p {
                    assert(s[i - 1] == x);
                }
            }
            if s.contains(x) {
                let i = choose|i: int| 0 <= i < s.len() && s[i] == x;
                if i < p {
                    assert(t[i] == x);
                } else {
                    assert(t[i + 1] == x);
                }
            }
            if x == c {
                assert(t[p as int] == x);
            }
        }
        assert forall|id: Seq<char>| has_id(t, id) <==> (has_id(s, id) || id == c.message.id@) by {
            if has_id(t, id) {
                let i = choose|i: int| 0 <= i < t.len() && (#[trigger] t[i]).message.id@ == id;
                if i < p {
                    assert(s[i] == t[i]);
                } else if i > p {
                    assert(s[i - 1] == t[i]);
                }
            }
            if has_id(s, id) {
                let i = choose|i: int| 0 <= i < s.len() && (#[trigger] s[i]).message.id@ == id;
                if i < p {
                    assert(t[i] == s[i]);
                } else {
                    assert(t[i + 1] == s[i]);
                }
            }
            if id == c.message.id@ {
                assert(t[p as int] == c);
            }
        }
    }
}

/// Merges the two participants' messages into the conversation: each
/// message attributed to its sender, the first message with each id kept
/// (own messages counting first), ordered by time and then by id.
pub fn merge_messages(config: &Config, own: &Vec<Message>, peer: &Vec<Message>) -> (r: Vec<
    ChatMessage,
>)
    ensures
        is_conversation(r@, *config, own@, peer@),
{
    let mut all: Vec<ChatMessage> = Vec::new();
    attribute_all(&config.identity, own, &mut all);
    attribute_all(&config.peer, peer, &mut all);
    let ghost t = attributed(*config, own@, peer@);
    assert(all@ =~= t);
    let n = all.len();
    let mut r: Vec<ChatMessage> = Vec::new();
    assert(t.take(0) =~= Seq::<ChatMessage>::empty());
    for k in 0..n
        invariant
            n == t.len(),
            all@ == t,
            chat_sorted(r@),
            distinct_ids(r@),
            r@.len() == first_of_each_id(t.take(k as int)).len(),
            forall|x: ChatMessage| r@.contains(x) <==> first_of_each_id(t.take(k as int)).contains(x),
            forall|id: Seq<char>| has_id(t.take(k as int), id) <==> has_id(r@, id),
    {
        let c = copy_chat_message(&all[k]);
        let ghost pre = t.take(k as int);
        let ghost kept = first_of_each_id(pre);
        proof {
            assert(t.take(k + 1).drop_last() =~= pre);
            assert(t.take(k + 1).last() == c);
            assert forall|id: Seq<char>| has_id(t.take(k + 1), id) <==> (has_id(pre, id) || id
                == c.message.id@) by {
                let q = t.take(k + 1);
                if has_id(q, id) {
                    let j = choose|j: int| 0 <= j < q.len() && (#[trigger] q[j]).message.id@ == id;
                    if j < k {
                        assert(pre[j] == q[j]);
                    }
                }
                if has_id(pre, id) {
                    let j = choose|j: int| 0 <= j < pre.len() && (#[trigger] pre[j]).message.id@ == id;
                    assert(q[j] == pre[j]);
                }
                if id == c.message.id@ {
                    assert(q[k as int] == c);
                }
            }
        }
        if !contains_id(&r, &c) {
            proof {
                assert(first_of_each_id(t.take(k + 1)) == kept.push(c));
                assert forall|x: ChatMessage| kept.push(c).contains(x) <==> (kept.contains(x) || x == c) by {
                    if kept.push(c).contains(x) {
                        let i = choose|i: int| 0 <= i < kept.len() + 1 && kept.push(c)[i] == x;
                        if i < kept.len() {
                            assert(kept[i] == x);
                        }
                    }
                    if kept.contains(x) {
                        let i = choose|i: int| 0 <= i < kept.len() && kept[i] == x;
                        assert(kept.push(c)[i] == x);
                    }
                    if x == c {
                        assert(kept.push(c)[kept.len() as int] == x);
                    }
                }
            }
            insert_sorted(&mut r, c);
        } else {
            proof {
                assert(first_of_each_id(t.take(k + 1)) == kept);
            }
        }
    }
    assert(t.take(n as int) =~= t);
    r
}


proof fn lemma_chat_before_irreflexive(x: ChatMessage)
    ensures
        !chat_before(x, x),
{
    lemma_seq_less_irreflexive(x.message.id@);
}

/// Two sequences in strict `chat_before` order with the same elements are
/// the same sequence.
pub proof fn lemma_sorted_same_elements(a: Seq<ChatMessage>, b: Seq<ChatMessage>)
    requires
        chat_sorted(a),
        chat_sorted(b),
        a.len() == b.len(),
        forall|x: ChatMessage| a.contains(x) <==> b.contains(x),
    ensures
        a == b,
    decreases a.len(),
{
    if a.len() == 0 {
        assert(a =~= b);
    } else {
        assert(a.contains(a[0]));
        assert(b.contains(b[0]));
        let j = choose|j: int| 0 <= j < b.len() && b[j] == a[0];
        let m = choose|m: int| 0 <= m < a.len() && a[m] == b[0];
        if j > 0 {
            if m > 0 {
                lemma_chat_before_asymmetric(a[0], b[0]);
            } else {
                lemma_chat_before_irreflexive(b[0]);
            }
        }
        assert(a[0] == b[0]);
        let a1 = a.drop_first();
        let b1 = b.drop_first();
        assert forall|x: ChatMessage| a1.contains(x) <==> b1.contains(x) by {
            if a1.contains(x) {
                let i = choose|i: int| 0 <= i < a1.len() && a1[i] == x;
                assert(a[i + 1] == x);
                lemma_chat_before_irreflexive(a[0]);
                assert(b.contains(x));
                let k = choose|k: int| 0 <= k < b.len() && b[k] == x;
                assert(k != 0);
                assert(b1[k - 1] == x);
            }
            if b1.contains(x) {
                let i = choose|i: int| 0 <= i < b1.len() && b1[i] == x;
                assert(b[i + 1] == x);
                lemma_chat_before_irreflexive(b[0]);
                assert(a.contains(x));
                let k = choose|k: int| 0 <= k < a.len() && a[k] == x;
                assert(k != 0);
                assert(a1[k - 1] == x);
            }
        }
        lemma_sorted_same_elements(a1, b1);
        assert(a =~= seq![a[0]] + a1);
        assert(b =~= seq![b[0]] + b1);
    }
}

/// The conversation of two message lists is fully determined: whatever
/// meets the contract of `merge_messages` is the same sequence.
pub proof fn lemma_conversation_is_determined(
    r1: Seq<ChatMessage>,
    r2: Seq<ChatMessage>,
    config: Config,
    own: Seq<Message>,
    peer: Seq<Message>,
)
    requires
        is_conversation(r1, config, own, peer),
        is_conversation(r2, config, own, peer),
    ensures
        r1 == r2,
{
    lemma_sorted_same_elements(r1, r2);
}


proof fn lemma_first_of_each_id_ids(s: Seq<ChatMessage>)
    ensures
        forall|id: Seq<char>|
            #![trigger has_id(s, id)]
            #![trigger has_id(first_of_each_id(s), id)]
            has_id(s, id) <==> has_id(first_of_each_id(s), id),
    decreases s.len(),
{
    if s.len() > 0 {
        let p = s.drop_last();
        lemma_first_of_each_id_ids(p);
        let k = first_of_each_id(p);
        assert forall|id: Seq<char>| has_id(s, id) <==> has_id(first_of_each_id(s), id) by {
            let f = first_of_each_id(s);
            if has_id(s, id) {
                let j = choose|j: int| 0 <= j < s.len() && (#[trigger] s[j]).message.id@ == id;
                if j < p.len() {
                    assert(p[j] == s[j]);
                    assert(has_id(p, id));
                    let i = choose|i: int| 0 <= i < k.len() && (#[trigger] k[i]).message.id@ == id;
                    if !has_id(p, s.last().message.id@) {
                        assert(f[i] == k[i]);
                    }
                } else {
                    if has_id(p, s.last().message.id@) {
                        let i = choose|i: int|
                            0 <= i < k.len() && (#[trigger] k[i]).message.id@ == id;
                    } else {
                        assert(f[k.len() as int] == s.last());
                    }
                }
            }
            if has_id(f, id) {
                let i = choose|i: int| 0 <= i < f.len() && (#[trigger] f[i]).message.id@ == id;
                if has_id(p, s.last().message.id@) {
                    assert(has_id(k, id));
                    assert(has_id(p, id));
                    let j = choose|j: int| 0 <= j < p.len() && (#[trigger] p[j]).message.id@ == id;
                    assert(s[j] == p[j]);
                } else if i < k.len() {
                    assert(f[i] == k[i]);
                    assert(has_id(k, id));
                    assert(has_id(p, id));
                    let j = choose|j: int| 0 <= j < p.len() && (#[trigger] p[j]).message.id@ == id;
                    assert(s[j] == p[j]);
                } else {
                    assert(s[s.len() - 1] == s.last());
                }
            }
        }
    }
}

/// No message id is lost or repeated: the conversation holds exactly one
/// message for each id found in either participant's messages.
pub proof fn lemma_conversation_keeps_every_id(
    r: Seq<ChatMessage>,
    config: Config,
    own: Seq<Message>,
    peer: Seq<Message>,
)
    requires
        is_conversation(r, config, own, peer),
    ensures
        forall|id: Seq<char>| has_id(attributed(config, own, peer), id) <==> has_id(r, id),
        distinct_ids(r),
{
    let t = attributed(config, own, peer);
    let kept = first_of_each_id(t);
    lemma_first_of_each_id_ids(t);
    assert forall|id: Seq<char>| has_id(kept, id) <==> has_id(r, id) by {
        if has_id(kept, id) {
            let i = choose|i: int| 0 <= i < kept.len() && (#[trigger] kept[i]).message.id@ == id;
            assert(kept.contains(kept[i]));
            assert(r.contains(kept[i]));
            let j = choose|j: int| 0 <= j < r.len() && r[j] == kept[i];
            assert(r[j].message.id@ == id);
        }
        if has_id(r, id) {
            let i = choose|i: int| 0 <= i < r.len() && (#[trigger] r[i]).message.id@ == id;
            assert(r.contains(r[i]));
            assert(kept.contains(r[i]));
            let j = choose|j: int| 0 <= j < kept.len() && kept[j] == r[i];
            assert(kept[j].message.id@ == id);
        }
    }
}

} // verus!
