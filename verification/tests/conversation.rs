use tah::chat::{merge_messages, ChatMessage};
use tah::config::Config;
use tah::display::{format_entry, render_plan, RenderItem};
use tah::jsonl::{append_record, record_lines};
use tah::messages::{message_file_name, Message};
use tah::view::{do_history, do_show, mark_messages_read, plan_view, MessageFilter, ViewRequest};

fn cfg() -> Config {
    Config {
        token: "t".to_string(),
        gist_id: "g".to_string(),
        identity: "dma".to_string(),
        peer: "mayo".to_string(),
    }
}

fn msg(id: &str, ts: i64, text: &str) -> Message {
    Message::from_parts(id.to_string(), ts, text.to_string())
}

fn chat(sender: &str, id: &str, ts: i64) -> ChatMessage {
    ChatMessage { sender: sender.to_string(), message: msg(id, ts, "x") }
}

fn ids(v: &[ChatMessage]) -> Vec<String> {
    v.iter().map(|c| c.message.id.clone()).collect()
}

#[test]
fn record_lines_follow_str_lines_without_blank_lines() {
    assert_eq!(record_lines("a\n\n  \nb\r\nc\r"), vec!["a", "b", "c\r"]);
    assert_eq!(record_lines(""), Vec::<String>::new());
    assert_eq!(record_lines("\n\n"), Vec::<String>::new());
    assert_eq!(record_lines("{\"a\":1}\n{\"b\":2}\n"), vec!["{\"a\":1}", "{\"b\":2}"]);
    let text = "x\r\n\ty\n \u{a0}\nz";
    let expected: Vec<String> = text
        .lines()
        .filter(|l| !l.trim().is_empty())
        .map(|l| l.to_string())
        .collect();
    assert_eq!(record_lines(text), expected);
}

#[test]
fn append_record_starts_a_new_line() {
    assert_eq!(append_record("", "x"), "x");
    assert_eq!(append_record("a\n", "x"), "a\nx");
    assert_eq!(append_record("a", "x"), "a\nx");
    for current in ["", "a", "a\n", "a\nb", "a\n\n", "  \n"] {
        let mut expected = record_lines(current);
        expected.push("{\"id\":\"1\"}".to_string());
        assert_eq!(record_lines(&append_record(current, "{\"id\":\"1\"}")), expected, "{current:?}");
    }
}

#[test]
fn new_message_has_fresh_v4_id() {
    let m = Message::new("hello".to_string());
    assert_eq!(m.text, "hello");
    let id: Vec<char> = m.id.chars().collect();
    assert_eq!(id.len(), 36);
    for i in [8, 13, 18, 23] {
        assert_eq!(id[i], '-');
    }
    assert_eq!(id[14], '4');
    assert!("89ab".contains(id[19]));
    let other = Message::new("hello".to_string());
    assert_ne!(m.id, other.id);
}

#[test]
fn message_file_name_appends_extension() {
    assert_eq!(message_file_name("dma"), "dma.jsonl");
}

#[test]
fn merge_sorts_by_time_then_id_and_drops_repeated_ids() {
    let own = vec![msg("b", 20, "mine"), msg("dup", 5, "own copy"), msg("a", 20, "first")];
    let peer = vec![msg("c", 10, "theirs"), msg("dup", 1, "peer copy"), msg("z", 30, "late")];
    let merged = merge_messages(&cfg(), &own, &peer);
    assert_eq!(ids(&merged), vec!["dup", "c", "a", "b", "z"]);
    assert_eq!(merged[0].sender, "dma");
    assert_eq!(merged[0].message.text, "own copy");
    assert_eq!(merged[1].sender, "mayo");
    assert_eq!(merged[4].sender, "mayo");
}

#[test]
fn merge_of_nothing_is_empty() {
    assert!(merge_messages(&cfg(), &vec![], &vec![]).is_empty());
}

#[test]
fn requests_for_show_and_history() {
    let r = do_show(false);
    assert!(!r.full && r.filter == MessageFilter::All);
    assert!(do_history(true, false).filter == MessageFilter::Sent);
    assert!(do_history(false, true).filter == MessageFilter::Received);
    assert!(do_history(false, false).filter == MessageFilter::All && do_history(false, false).full);
}

fn conversation(n: i64) -> Vec<ChatMessage> {
    (0..n)
        .map(|i| chat(if i % 2 == 0 { "dma" } else { "mayo" }, &format!("{i:03}"), 100 + i))
        .collect()
}

#[test]
fn default_view_shows_last_twenty() {
    let msgs = conversation(30);
    let plan = plan_view(&cfg(), &msgs, do_show(false), 1000);
    assert_eq!(plan.messages.len(), 20);
    assert_eq!(plan.messages[0].message.id, "010");
    assert!(!plan.ring_bell);
    assert_eq!(plan.unread_marker, None);
    assert_eq!(plan.mark_read, None);
}

#[test]
fn default_view_widens_to_first_unread() {
    let msgs = conversation(30);
    // messages from mayo have odd i; ts = 100 + i; the first one after 102 is i = 3
    let plan = plan_view(&cfg(), &msgs, do_show(false), 102);
    assert_eq!(plan.messages.len(), 27);
    assert_eq!(plan.messages[0].message.id, "003");
    assert!(plan.ring_bell);
    assert_eq!(plan.unread_marker, Some(102));
    assert_eq!(plan.mark_read, Some(129));
}

#[test]
fn history_filters() {
    let msgs = conversation(5);
    let sent = plan_view(&cfg(), &msgs, do_history(true, false), 0);
    assert_eq!(ids(&sent.messages), vec!["000", "002", "004"]);
    assert!(!sent.ring_bell);
    assert_eq!(sent.mark_read, None);
    let received = plan_view(&cfg(), &msgs, do_history(false, true), 0);
    assert_eq!(ids(&received.messages), vec!["001", "003"]);
    assert_eq!(received.mark_read, Some(103));
    let all = plan_view(&cfg(), &msgs, ViewRequest { full: true, filter: MessageFilter::All }, 103);
    assert_eq!(all.messages.len(), 5);
    assert!(!all.ring_bell);
    assert_eq!(all.mark_read, None);
}

#[test]
fn mark_messages_read_only_moves_forward() {
    assert_eq!(mark_messages_read(Some(10), 5), Some(10));
    assert_eq!(mark_messages_read(Some(5), 5), None);
    assert_eq!(mark_messages_read(Some(3), 5), None);
    assert_eq!(mark_messages_read(None, 5), None);
}

#[test]
fn render_plan_places_pauses_and_divider() {
    let msgs = vec![
        chat("dma", "a", 0),
        chat("mayo", "b", 10),
        chat("mayo", "c", 5000),
        chat("mayo", "d", 5001),
    ];
    let items = render_plan(&msgs, &"dma".to_string(), Some(100));
    assert_eq!(
        items,
        vec![
            RenderItem::Entry { index: 0, own: true },
            RenderItem::Entry { index: 1, own: false },
            RenderItem::Blank,
            RenderItem::Blank,
            RenderItem::UnreadDivider,
            RenderItem::Entry { index: 2, own: false },
            RenderItem::Entry { index: 3, own: false },
        ]
    );
    let plain = render_plan(&msgs, &"dma".to_string(), None);
    assert_eq!(plain.iter().filter(|i| **i == RenderItem::UnreadDivider).count(), 0);
    let rest = vec![chat("mayo", "b", 10), chat("mayo", "c", 5000)];
    let first = render_plan(&rest, &"dma".to_string(), Some(0));
    assert_eq!(first[0], RenderItem::UnreadDivider);
}

#[test]
fn entry_text_layout() {
    assert_eq!(format_entry("14:32", "dma", "hey whats up"), "[14:32] dma: hey whats up");
}
