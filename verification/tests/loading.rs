use option_filter::decimal::Price;
use option_filter::document::{into_entries, load_records, read_entries, render_records, WriteError};
use option_filter::loader::{
    failure_of, is_blank, is_space_char, parse_failure, preview_of, LoadError, LoadStep, Loader,
    RetryPolicy, DEFAULT_ATTEMPTS, DEFAULT_BACKOFF_SECONDS, PREVIEW_CHARS,
};
use option_filter::record::Record;

/// Runs a loader over the contents that successive reads give; the index of
/// the read that was parsed, or the step at which the loader gave up.
fn run(policy: RetryPolicy, exists: bool, reads: &[&str]) -> Result<usize, LoadStep> {
    let mut loader = Loader::new(policy);
    let mut step = loader.begin(exists);
    let mut at = 0;
    loop {
        match step {
            LoadStep::Read { .. } => {
                step = loader.after_read(reads[at]);
                if step == LoadStep::Parse {
                    return Ok(at);
                }
                at += 1;
            }
            other => return Err(other),
        }
    }
}

#[test]
fn content_that_is_not_blank_is_parsed_at_once() {
    assert_eq!(run(RetryPolicy::standard(), true, &["[]"]), Ok(0));
}

#[test]
fn file_that_is_blank_at_first_is_read_again() {
    let policy = RetryPolicy::standard();
    assert_eq!(run(policy, true, &["", "[]"]), Ok(1));
    assert_eq!(run(policy, true, &["", " \n", "\t", "[]"]), Ok(3));
    assert_eq!(run(policy, true, &["", "", "", "", "[1]"]), Ok(4));
}

#[test]
fn file_that_stays_blank_is_unreadable() {
    let policy = RetryPolicy::standard();
    assert_eq!(run(policy, true, &["", "", "", "", "", "[1]"]), Err(LoadStep::Unreadable));
    assert_eq!(run(policy, true, &[" ", "\n", "\t", "\r\n", "  "]), Err(LoadStep::Unreadable));
}

#[test]
fn missing_file_is_reported_without_a_read() {
    assert_eq!(run(RetryPolicy::standard(), false, &[]), Err(LoadStep::NotFound));
    let mut loader = Loader::new(RetryPolicy::standard());
    assert_eq!(loader.begin(false), LoadStep::NotFound);
    assert_eq!(loader.begin(true), LoadStep::Read { wait_seconds: 0 });
    assert_eq!(loader.after_read("x"), LoadStep::Parse);
}

#[test]
fn loader_waits_the_backoff_before_each_further_read() {
    let policy = RetryPolicy { attempts: 3, backoff_seconds: 7 };
    let mut loader = Loader::new(policy);
    assert_eq!(loader.reads_left, 3);
    assert_eq!(loader.begin(true), LoadStep::Read { wait_seconds: 0 });
    assert_eq!(loader.after_read(""), LoadStep::Read { wait_seconds: 7 });
    assert_eq!(loader.reads_left, 2);
    assert_eq!(loader.after_read("  "), LoadStep::Read { wait_seconds: 7 });
    assert_eq!(loader.reads_left, 1);
    assert_eq!(loader.after_read("\n"), LoadStep::Unreadable);
    assert_eq!(loader.reads_left, 0);
    assert_eq!(loader.after_read("[]"), LoadStep::Unreadable);
}

#[test]
fn content_that_is_not_blank_uses_up_no_read() {
    let mut loader = Loader::new(RetryPolicy { attempts: 1, backoff_seconds: 2 });
    assert_eq!(loader.after_read("{}"), LoadStep::Parse);
    assert_eq!(loader.reads_left, 1);
}

#[test]
fn policy_without_reads_gives_up_at_once() {
    let policy = RetryPolicy { attempts: 0, backoff_seconds: 2 };
    assert_eq!(run(policy, true, &["[]"]), Err(LoadStep::Unreadable));
    assert_eq!(run(policy, false, &["[]"]), Err(LoadStep::NotFound));
}

#[test]
fn standard_policy_reads_five_times_two_seconds_apart() {
    let policy = RetryPolicy::standard();
    assert_eq!(policy, RetryPolicy { attempts: 5, backoff_seconds: 2 });
    assert_eq!(DEFAULT_ATTEMPTS, 5);
    assert_eq!(DEFAULT_BACKOFF_SECONDS, 2);
}

#[test]
fn failure_of_names_the_error_of_a_step() {
    assert_eq!(failure_of(LoadStep::NotFound), Some(LoadError::NotFound));
    assert_eq!(failure_of(LoadStep::Unreadable), Some(LoadError::UnreadableInput));
    assert_eq!(failure_of(LoadStep::Parse), None);
    assert_eq!(failure_of(LoadStep::Read { wait_seconds: 2 }), None);
}

#[test]
fn blank_is_empty_or_white_space_only() {
    assert!(is_blank(""));
    assert!(is_blank(" "));
    assert!(is_blank(" \t\r\n\u{b}\u{c}"));
    assert!(is_blank("\u{85}\u{a0}\u{1680}\u{2000}\u{200a}\u{2028}\u{2029}\u{202f}\u{205f}\u{3000}"));
    assert!(!is_blank("a"));
    assert!(!is_blank("  [] "));
    assert!(!is_blank("\u{200b}"));
    assert!(!is_blank("\u{feff}"));
    assert!(!is_blank(" \u{0}"));
}

#[test]
fn white_space_is_what_the_standard_library_calls_so() {
    for code in 0..0x3100u32 {
        if let Some(c) = char::from_u32(code) {
            assert_eq!(is_space_char(c), c.is_whitespace(), "U+{:04X}", code);
        }
    }
    assert!(!is_space_char('\u{10FFFF}'));
}

#[test]
fn blank_agrees_with_trimming() {
    for text in ["", " ", "\n\n", " x ", "\u{a0}", "\u{a0}1", "\u{1c}", "\u{1f}"] {
        assert_eq!(is_blank(text), text.trim().is_empty(), "{:?}", text);
    }
}

#[test]
fn preview_is_the_beginning_of_the_content() {
    assert_eq!(preview_of("hello", 3), "hel");
    assert_eq!(preview_of("hello", 5), "hello");
    assert_eq!(preview_of("hello", 9), "hello");
    assert_eq!(preview_of("hello", 0), "");
    assert_eq!(preview_of("", 4), "");
    assert_eq!(preview_of("\u{e9}t\u{e9}", 2), "\u{e9}t");
}

#[test]
fn parse_failure_keeps_reason_and_preview() {
    let long = "x".repeat(PREVIEW_CHARS + 50);
    let error = parse_failure("expected value", &long);
    assert_eq!(
        error,
        LoadError::Parse { reason: "expected value".to_string(), preview: "x".repeat(PREVIEW_CHARS) }
    );
    assert_eq!(PREVIEW_CHARS, 200);
    let short = parse_failure("why", "{");
    assert_eq!(short, LoadError::Parse { reason: "why".to_string(), preview: "{".to_string() });
}

fn names_of(records: &[Record]) -> Vec<String> {
    records.iter().map(|r| r.name.clone()).collect()
}

#[test]
fn collection_may_be_a_bare_list() {
    let records = load_records("[{\"name\":\"A\"},{\"name\":\"B\"}]").unwrap();
    assert_eq!(names_of(&records), vec!["A", "B"]);
    assert!(load_records("[]").unwrap().is_empty());
}

#[test]
fn collection_may_be_wrapped_in_data() {
    let records = load_records("{\"status\":\"ok\",\"data\":[{\"name\":\"A\"},{\"name\":\"B\"}]}");
    assert_eq!(names_of(&records.unwrap()), vec!["A", "B"]);
    assert!(load_records("{\"data\":[]}").unwrap().is_empty());
}

#[test]
fn entry_is_read_field_by_field() {
    let text = "[{\"name\":\"BANKNIFTY\",\"expiry\":1714501800001,\"strike_price\":56000.0,\
                 \"lot_size\":15,\"weekly\":true}]";
    let records = load_records(text).unwrap();
    let all: serde_json::Value = serde_json::from_str(text).unwrap();
    assert_eq!(
        records,
        vec![Record {
            name: "BANKNIFTY".to_string(),
            expiry: Some(1_714_501_800_001),
            strike_price: Some(Price::of_steps(5_600_000)),
            entry: all[0].clone(),
        }]
    );
}

#[test]
fn entry_with_missing_or_odd_fields_is_read_without_them() {
    let text = "[{}, 7, {\"name\":5,\"expiry\":\"soon\",\"strike_price\":\"1\"},\
                 {\"name\":\"N\",\"expiry\":1.5,\"strike_price\":null},\
                 {\"expiry\":-3,\"strike_price\":12},\
                 {\"name\":\"U\",\"expiry\":18446744073709551615,\"strike_price\":1e30}]";
    let records = load_records(text).unwrap();
    let read: Vec<(String, Option<i64>, Option<Price>)> =
        records.iter().map(|r| (r.name.clone(), r.expiry, r.strike_price.clone())).collect();
    assert_eq!(
        read,
        vec![
            (String::new(), None, None),
            (String::new(), None, None),
            (String::new(), None, None),
            ("N".to_string(), None, None),
            (String::new(), Some(-3), Some(Price::of_steps(1200))),
            ("U".to_string(), None, None),
        ]
    );
    let all: serde_json::Value = serde_json::from_str(text).unwrap();
    for (i, record) in records.iter().enumerate() {
        assert_eq!(record.entry, all[i]);
    }
}

#[test]
fn from_entry_reads_what_load_reads() {
    let entry: serde_json::Value =
        serde_json::from_str("{\"name\":\"X\",\"expiry\":9,\"strike_price\":0.07}").unwrap();
    let record = Record::from_entry(entry.clone());
    assert_eq!(
        record,
        Record {
            name: "X".to_string(),
            expiry: Some(9),
            strike_price: Some(Price::of_steps(7)),
            entry,
        }
    );
    assert_eq!(record.clone(), record);
}

#[test]
fn text_that_is_no_json_fails_with_a_preview() {
    let said = serde_json::from_str::<serde_json::Value>("{\"data\": [").unwrap_err().to_string();
    assert_eq!(said, "EOF while parsing a list at line 1 column 10");
    assert_eq!(
        load_records("{\"data\": ["),
        Err(LoadError::Parse { reason: said, preview: "{\"data\": [".to_string() })
    );
    let long = format!("[{}", "1,".repeat(300));
    match load_records(&long) {
        Err(LoadError::Parse { preview, .. }) => {
            assert_eq!(preview, long.chars().take(200).collect::<String>());
        }
        other => panic!("{:?}", other),
    }
}

#[test]
fn document_that_is_no_collection_fails() {
    for text in ["{}", "7", "\"x\"", "null", "{\"data\":{}}", "{\"data\":7}", "{\"Data\":[]}"] {
        assert_eq!(
            load_records(text),
            Err(LoadError::Parse {
                reason: "neither a list of entries nor an object with one in `data`".to_string(),
                preview: text.to_string(),
            })
        );
    }
}

#[test]
fn into_entries_takes_the_list_out() {
    let bare: serde_json::Value = serde_json::from_str("[1,2]").unwrap();
    let wrapped: serde_json::Value = serde_json::from_str("{\"data\":[1,2],\"x\":[3]}").unwrap();
    let items = vec![serde_json::Value::from(1), serde_json::Value::from(2)];
    assert_eq!(into_entries(bare), Some(items.clone()));
    assert_eq!(into_entries(wrapped), Some(items));
    assert_eq!(into_entries(serde_json::Value::Null), None);
    let other: serde_json::Value = serde_json::from_str("{\"x\":[3]}").unwrap();
    assert_eq!(into_entries(other), None);
}

#[test]
fn read_entries_keeps_the_order() {
    let all: serde_json::Value =
        serde_json::from_str("[{\"name\":\"C\"},{\"name\":\"A\"},{\"name\":\"B\"}]").unwrap();
    let records = read_entries(into_entries(all).unwrap());
    assert_eq!(names_of(&records), vec!["C", "A", "B"]);
    assert!(read_entries(Vec::new()).is_empty());
}

#[test]
fn records_are_written_with_every_field_they_came_with() {
    let text = "[{\"name\":\"A\",\"expiry\":2,\"strike_price\":1.5,\"lot_size\":15,\
                 \"tick_size\":0.05,\"segment\":\"NSE_FO\",\"weekly\":false,\"deep\":{\"k\":[1,null]}},\
                 {\"name\":\"B\"}]";
    let records = load_records(text).unwrap();
    let written = render_records(records).unwrap();
    let back: serde_json::Value = serde_json::from_str(&written).unwrap();
    let all: serde_json::Value = serde_json::from_str(text).unwrap();
    assert_eq!(back, all);
    assert!(written.starts_with("[\n  {\n"));
    assert_eq!(written, serde_json::to_string_pretty(&all).unwrap());
}

#[test]
fn no_records_are_written_as_an_empty_list() {
    assert_eq!(render_records(Vec::new()), Ok::<String, WriteError>("[]".to_string()));
}
