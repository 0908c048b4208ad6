use chrono::{Local, TimeZone};
use tah::clock::{label_format, pick_label, time_label, LabelFormat, LocalTime};
use tah::jsonl::record_lines;

#[test]
fn label_format_choices() {
    assert_eq!(label_format(Some((2024, 4, 5)), Some((2024, 4, 5))), LabelFormat::Clock);
    assert_eq!(label_format(Some((2024, 4, 4)), Some((2024, 4, 5))), LabelFormat::DayAndClock);
    assert_eq!(label_format(Some((2023, 4, 5)), Some((2024, 4, 5))), LabelFormat::DayAndClock);
    assert_eq!(label_format(None, Some((2024, 4, 5))), LabelFormat::NowClock);
}

#[test]
fn time_label_matches_local_formatting() {
    let now = Local::now();
    let now_ts = now.timestamp();
    let today = time_label(now_ts - 1, now_ts);
    let expected = Local.timestamp_opt(now_ts - 1, 0).single().unwrap();
    if expected.date_naive() == now.date_naive() {
        assert_eq!(today, expected.format("%H:%M").to_string());
    }
    let old_ts = now_ts - 10 * 24 * 3600;
    let old = time_label(old_ts, now_ts);
    assert_eq!(old, Local.timestamp_opt(old_ts, 0).single().unwrap().format("%a %H:%M").to_string());
    assert_eq!(old.len(), 9);
    // a time with no local representation shows the current time of day
    let none = time_label(i64::MAX, now_ts);
    assert_eq!(none, Local.timestamp_opt(now_ts, 0).single().unwrap().format("%H:%M").to_string());
}

#[test]
fn joined_files_join_their_records() {
    let texts = ["", "a", "a\n", "\n", " \n", "x\r\ny", "p\nq\n\n"];
    for a in texts {
        for b in texts {
            let joined = format!("{a}\n{b}");
            let mut expected = record_lines(a);
            expected.extend(record_lines(b));
            assert_eq!(record_lines(&joined), expected, "{a:?} + {b:?}");
        }
    }
    assert!(record_lines("").is_empty());
}

#[test]
fn pick_label_takes_the_chosen_text() {
    let t = |d: (i32, u32, u32), s: &str, l: &str| LocalTime { date: d, short_text: s.into(), long_text: l.into() };
    assert_eq!(pick_label(Some(t((2024, 4, 5), "14:32", "Fri 14:32")), Some(t((2024, 4, 5), "15:00", "Fri 15:00"))), "14:32");
    assert_eq!(pick_label(Some(t((2024, 4, 4), "14:32", "Thu 14:32")), Some(t((2024, 4, 5), "15:00", "Fri 15:00"))), "Thu 14:32");
    assert_eq!(pick_label(None, Some(t((2024, 4, 5), "15:00", "Fri 15:00"))), "15:00");
    assert_eq!(pick_label(None, None), "");
    assert_ne!(time_label(0, 0), "");
}

#[test]
fn joining_after_a_bare_carriage_return_terminates_that_line() {
    assert_eq!(record_lines("a\r"), vec!["a\r"]);
    assert_eq!(record_lines("a\r\nb"), vec!["a", "b"]);
    assert_eq!(record_lines("x\r\r\n \r\nb"), vec!["x\r", "b"]);
}
