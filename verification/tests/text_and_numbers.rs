use tah::config::{Config, ConfigError};
use tah::decimal::{parse_i64, render_i64, render_u64};
use std::path::PathBuf;
use tah::text::{chars_of, trim_str};

#[test]
fn trim_removes_ascii_and_unicode_whitespace() {
    assert_eq!(trim_str("  a b \n"), "a b");
    assert_eq!(trim_str("\u{3000}x\u{a0}"), "x");
    assert_eq!(trim_str(" \t\r\n "), "");
    assert_eq!(trim_str(""), "");
    assert_eq!(trim_str("inner  space"), "inner  space");
}

#[test]
fn chars_of_keeps_every_character() {
    assert_eq!(chars_of("héllo"), vec!['h', 'é', 'l', 'l', 'o']);
}

#[test]
fn parse_i64_accepts_what_str_parse_accepts() {
    for s in ["0", "123", "-42", "+5", "007", "-0", "9223372036854775807", "-9223372036854775808"] {
        assert_eq!(parse_i64(s), s.parse::<i64>().ok(), "{s}");
    }
    assert_eq!(parse_i64("-9223372036854775808"), Some(i64::MIN));
    assert_eq!(parse_i64("+5"), Some(5));
}

#[test]
fn parse_i64_refuses_what_str_parse_refuses() {
    for s in ["", "+", "-", "1a", " 1", "1 ", "9223372036854775808", "-9223372036854775809", "١", "--1", "99999999999999999999999"] {
        assert_eq!(parse_i64(s), None, "{s}");
        assert!(s.parse::<i64>().is_err(), "{s}");
    }
}

#[test]
fn render_matches_display() {
    for v in [0i64, 7, -42, 1700000000, i64::MAX, i64::MIN] {
        assert_eq!(render_i64(v), v.to_string());
    }
    assert_eq!(render_u64(409), "409");
    assert_eq!(render_u64(u64::MAX), u64::MAX.to_string());
}

#[test]
fn last_read_round_trip() {
    for v in [0i64, 1, -1, 1712345678, i64::MAX, i64::MIN] {
        let text = Config::last_read_file_contents(v);
        assert_eq!(text, format!("{v}\n"));
        assert_eq!(Config::parse_last_read(&text), Some(v));
        assert_eq!(Config::load_last_read(&vec![Some(text), Some("5".to_string())]), v);
    }
}

#[test]
fn parse_last_read_trims() {
    assert_eq!(Config::parse_last_read("  17\n"), Some(17));
    assert_eq!(Config::parse_last_read("seventeen"), None);
    assert_eq!(Config::parse_last_read(""), None);
}

#[test]
fn load_last_read_takes_first_usable_candidate() {
    assert_eq!(Config::load_last_read(&vec![None, Some("5".to_string())]), 5);
    assert_eq!(
        Config::load_last_read(&vec![Some("garbage".to_string()), Some("3\n".to_string())]),
        3
    );
    assert_eq!(Config::load_last_read(&vec![Some("8".to_string()), Some("3".to_string())]), 8);
    assert_eq!(Config::load_last_read(&vec![None, None]), 0);
    assert_eq!(Config::load_last_read(&vec![]), 0);
}

fn config(token: &str, gist: &str, identity: &str, peer: &str) -> Config {
    Config {
        token: token.to_string(),
        gist_id: gist.to_string(),
        identity: identity.to_string(),
        peer: peer.to_string(),
    }
}

fn validation_message(r: Result<(), ConfigError>) -> String {
    match r {
        Err(ConfigError::Validation(m)) => m,
        other => panic!("unexpected {:?}", other),
    }
}

#[test]
fn validate_reports_each_problem_in_order() {
    assert!(config("t", "g", "dma", "mayo").validate().is_ok());
    assert_eq!(validation_message(config("", "", "", "").validate()), "token cannot be empty");
    assert_eq!(validation_message(config("t", "", "a", "b").validate()), "gist_id cannot be empty");
    assert_eq!(validation_message(config("t", "g", "", "b").validate()), "identity cannot be empty");
    assert_eq!(validation_message(config("t", "g", "a", "").validate()), "peer cannot be empty");
    assert_eq!(
        validation_message(config("t", "g", "dma", "dma").validate()),
        "identity and peer must be different"
    );
}

#[test]
fn interactive_init_trims_answers() {
    let c = Config::interactive_init(" ghp_x \n", "abc123\n", " dma", "mayo ").unwrap();
    assert_eq!(c.token, "ghp_x");
    assert_eq!(c.gist_id, "abc123");
    assert_eq!(c.identity, "dma");
    assert_eq!(c.peer, "mayo");
    match Config::interactive_init("t", "g", " dma ", "dma") {
        Err(ConfigError::Validation(m)) => assert_eq!(m, "identity and peer must be different"),
        other => panic!("unexpected {:?}", other),
    }
    match Config::interactive_init("   ", "g", "a", "b") {
        Err(ConfigError::Validation(m)) => assert_eq!(m, "token cannot be empty"),
        other => panic!("unexpected {:?}", other),
    }
}

#[test]
fn existing_config_path_prefers_current_location() {
    let cur = PathBuf::from("/c/tah/config.toml");
    let old = PathBuf::from("/c/msg/config.toml");
    assert_eq!(Config::existing_config_path(cur.clone(), true, old.clone(), true), Some(cur.clone()));
    assert_eq!(Config::existing_config_path(cur.clone(), false, old.clone(), true), Some(old.clone()));
    assert_eq!(Config::existing_config_path(cur, false, old, false), None);
}

#[test]
fn config_error_messages() {
    assert_eq!(ConfigError::NotInitialized.message(), "error: not initialized. Run 'tah --init'");
    assert_eq!(ConfigError::Validation("peer cannot be empty".into()).message(), "error: peer cannot be empty");
    assert_eq!(ConfigError::Io("denied".into()).message(), "error: could not access config: denied");
    assert_eq!(ConfigError::Parse("bad".into()).message(), "error: could not parse config: bad");
    assert_eq!(ConfigError::Serialize("x".into()).message(), "error: could not save config: x");
}
