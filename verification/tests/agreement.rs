use tah::chat::{merge_messages, ChatMessage};
use tah::config::Config;
use tah::jsonl::record_lines;
use tah::messages::Message;
use tah::text::trim_str;
use std::collections::HashSet;

#[test]
fn whitespace_agrees_with_char_is_whitespace() {
    for code in 0u32..=0x10FFFF {
        if let Some(c) = char::from_u32(code) {
            let s = format!("a{c}b{c}");
            assert_eq!(trim_str(&s), s.trim(), "U+{code:04X}");
        }
    }
}

#[test]
fn record_lines_agree_with_lines_on_many_texts() {
    let pieces = ["", "a", "\n", "\r", "\r\n", " ", "\t", "{}", "x y", "\u{2028}"];
    for a in pieces {
        for b in pieces {
            for c in pieces {
                let text = format!("{a}{b}{c}");
                let expected: Vec<String> = text
                    .lines()
                    .filter(|l| !l.trim().is_empty())
                    .map(|l| l.to_string())
                    .collect();
                assert_eq!(record_lines(&text), expected, "{text:?}");
            }
        }
    }
}

fn reference_merge(config: &Config, own: &[Message], peer: &[Message]) -> Vec<(String, String, i64)> {
    let mut all: Vec<(String, String, i64)> = own
        .iter()
        .map(|m| (config.identity.clone(), m.id.clone(), m.ts))
        .chain(peer.iter().map(|m| (config.peer.clone(), m.id.clone(), m.ts)))
        .collect();
    let mut seen = HashSet::new();
    all.retain(|(_, id, _)| seen.insert(id.clone()));
    all.sort_by(|l, r| l.2.cmp(&r.2).then_with(|| l.1.cmp(&r.1)));
    all
}

#[test]
fn merge_agrees_with_sort_and_dedup() {
    let config = Config {
        token: "t".into(),
        gist_id: "g".into(),
        identity: "dma".into(),
        peer: "mayo".into(),
    };
    let ids = ["a", "b", "ab", "B", "é", "aa", "", "z"];
    let mut seed: u64 = 7;
    for round in 0..200 {
        let mut next = || {
            seed = seed.wrapping_mul(6364136223846793005).wrapping_add(1442695040888963407);
            seed >> 33
        };
        let own: Vec<Message> = (0..(round % 6))
            .map(|_| {
                let id = ids[(next() % ids.len() as u64) as usize];
                Message::from_parts(id.to_string(), (next() % 4) as i64, "o".into())
            })
            .collect();
        let peer: Vec<Message> = (0..(round % 5))
            .map(|_| {
                let id = ids[(next() % ids.len() as u64) as usize];
                Message::from_parts(id.to_string(), (next() % 4) as i64, "p".into())
            })
            .collect();
        let merged: Vec<ChatMessage> = merge_messages(&config, &own, &peer);
        let got: Vec<(String, String, i64)> = merged
            .iter()
            .map(|c| (c.sender.clone(), c.message.id.clone(), c.message.ts))
            .collect();
        assert_eq!(got, reference_merge(&config, &own, &peer));
    }
}
