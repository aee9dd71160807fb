use option_filter::band::StrikeBand;
use option_filter::calendar::{Moment, WindowError};
use option_filter::decimal::{price_of_text, Price};
use option_filter::document::{load_records, render_records};
use option_filter::filter::{admits_record, filter_in_window, filter_options, FilterSettings};
use option_filter::loader::LoadError;
use option_filter::order::sort_by_expiry;
use option_filter::pipeline::{select_from_content, select_in_window, Output, RunError};
use option_filter::record::Record;
use option_filter::window::ExpiryWindow;

const START: i64 = 1_714_501_800_000;
const END: i64 = 1_722_450_600_000;
const REFERENCE: i64 = 5_605_935;
const RADIUS: u64 = 300_000;

fn record(name: &str, expiry: Option<i64>, strike_price: Option<i64>, tag: u64) -> Record {
    Record {
        name: name.to_string(),
        expiry,
        strike_price: strike_price.map(Price::of_steps),
        entry: serde_json::Value::from(tag),
    }
}

fn names() -> Vec<String> {
    vec!["BANKNIFTY".to_string()]
}

fn window() -> ExpiryWindow {
    ExpiryWindow { start: START, end: END }
}

fn band() -> StrikeBand {
    StrikeBand::around(Price::of_steps(REFERENCE), RADIUS)
}

fn written(numeral: &str) -> Option<Price> {
    Some(price_of_text(numeral).unwrap())
}

fn priced(numeral: &str, tag: u64) -> Record {
    Record {
        name: "BANKNIFTY".to_string(),
        expiry: Some(START + 1),
        strike_price: written(numeral),
        entry: serde_json::Value::from(tag),
    }
}

fn tags(records: &[Record]) -> Vec<u64> {
    records.iter().map(|r| r.entry.as_u64().unwrap()).collect()
}

#[test]
fn keeps_exactly_the_records_that_meet_all_three_rules() {
    let given = vec![
        record("BANKNIFTY", Some(START + 10), Some(REFERENCE), 0),
        record("NIFTY", Some(START + 10), Some(REFERENCE), 1),
        record("BANKNIFTY", Some(END + 1), Some(REFERENCE), 2),
        record("BANKNIFTY", Some(START + 10), Some(REFERENCE + 300_001), 3),
        record("BANKNIFTY", None, Some(REFERENCE), 4),
        record("BANKNIFTY", Some(START + 10), None, 5),
        record("banknifty", Some(START + 5), Some(REFERENCE - 1), 6),
    ];
    let kept = filter_in_window(&given, &names(), window(), &band());
    assert_eq!(tags(&kept), vec![6, 0]);
    assert_eq!(kept[1], given[0]);
    assert_eq!(kept[0], given[6]);
}

#[test]
fn name_is_compared_without_regard_to_ascii_case() {
    let given = vec![
        record("BankNifty", Some(START + 1), Some(REFERENCE), 0),
        record("BANKNIFTY ", Some(START + 1), Some(REFERENCE), 1),
        record("", Some(START + 1), Some(REFERENCE), 2),
    ];
    let kept = filter_in_window(&given, &names(), window(), &band());
    assert_eq!(tags(&kept), vec![0]);
}

#[test]
fn any_of_several_accepted_names_is_enough() {
    let accepted = vec!["BANKNIFTY".to_string(), "nifty".to_string()];
    let given = vec![
        record("NIFTY", Some(START + 2), Some(REFERENCE), 0),
        record("FINNIFTY", Some(START + 2), Some(REFERENCE), 1),
        record("BANKNIFTY", Some(START + 1), Some(REFERENCE), 2),
    ];
    let kept = filter_in_window(&given, &accepted, window(), &band());
    assert_eq!(tags(&kept), vec![2, 0]);
}

#[test]
fn no_accepted_name_keeps_nothing() {
    let given = vec![record("BANKNIFTY", Some(START + 1), Some(REFERENCE), 0)];
    let kept = filter_in_window(&given, &Vec::new(), window(), &band());
    assert!(kept.is_empty());
}

#[test]
fn result_is_in_ascending_order_of_expiry() {
    let given = vec![
        record("BANKNIFTY", Some(START + 300), Some(REFERENCE), 0),
        record("BANKNIFTY", Some(START + 100), Some(REFERENCE), 1),
        record("BANKNIFTY", Some(END), Some(REFERENCE), 2),
        record("BANKNIFTY", Some(START + 200), Some(REFERENCE), 3),
    ];
    let kept = filter_in_window(&given, &names(), window(), &band());
    assert_eq!(tags(&kept), vec![1, 3, 0, 2]);
}

#[test]
fn records_of_equal_expiry_keep_the_order_of_the_input() {
    let given = vec![
        record("BANKNIFTY", Some(START + 50), Some(REFERENCE + 3), 0),
        record("BANKNIFTY", Some(START + 20), Some(REFERENCE + 2), 1),
        record("BANKNIFTY", Some(START + 50), Some(REFERENCE + 1), 2),
        record("BANKNIFTY", Some(START + 20), Some(REFERENCE), 3),
        record("BANKNIFTY", Some(START + 50), Some(REFERENCE - 1), 4),
    ];
    let kept = filter_in_window(&given, &names(), window(), &band());
    assert_eq!(tags(&kept), vec![1, 3, 0, 2, 4]);
}

#[test]
fn filtering_a_result_again_changes_nothing() {
    let given = vec![
        record("BANKNIFTY", Some(START + 50), Some(REFERENCE + 3), 0),
        record("NIFTY", Some(START + 20), Some(REFERENCE + 2), 1),
        record("BANKNIFTY", Some(START + 20), Some(REFERENCE + 1), 2),
        record("BANKNIFTY", Some(START + 50), Some(REFERENCE), 3),
        record("BANKNIFTY", Some(START), Some(REFERENCE), 4),
    ];
    let once = filter_in_window(&given, &names(), window(), &band());
    let twice = filter_in_window(&once, &names(), window(), &band());
    assert_eq!(tags(&once), vec![2, 0, 3]);
    assert_eq!(once, twice);
}

#[test]
fn window_is_open_at_its_start_and_closed_at_its_end() {
    let given = vec![
        record("BANKNIFTY", Some(END), Some(REFERENCE), 0),
        record("BANKNIFTY", Some(END + 1), Some(REFERENCE), 1),
        record("BANKNIFTY", Some(START), Some(REFERENCE), 2),
        record("BANKNIFTY", Some(START - 1), Some(REFERENCE), 3),
        record("BANKNIFTY", Some(START + 1), Some(REFERENCE), 4),
    ];
    let kept = filter_in_window(&given, &names(), window(), &band());
    assert_eq!(tags(&kept), vec![4, 0]);
    assert!(window().contains(Some(END)));
    assert!(!window().contains(Some(END + 1)));
    assert!(!window().contains(Some(START)));
    assert!(!window().contains(Some(START - 1)));
    assert!(!window().contains(None));
}

#[test]
fn band_is_closed_at_both_ends() {
    let given = vec![
        record("BANKNIFTY", Some(START + 1), Some(REFERENCE - 300_000), 0),
        record("BANKNIFTY", Some(START + 1), Some(REFERENCE + 300_000), 1),
        record("BANKNIFTY", Some(START + 1), Some(REFERENCE - 300_001), 2),
        record("BANKNIFTY", Some(START + 1), Some(REFERENCE + 300_001), 3),
    ];
    let kept = filter_in_window(&given, &names(), window(), &band());
    assert_eq!(tags(&kept), vec![0, 1]);
    assert!(band().contains(&Some(Price::of_steps(5_305_935))));
    assert!(band().contains(&Some(Price::of_steps(5_905_935))));
    assert!(!band().contains(&Some(Price::of_steps(5_305_934))));
    assert!(!band().contains(&Some(Price::of_steps(5_905_936))));
    assert!(!band().contains(&None));
}

#[test]
fn band_at_the_limits_of_the_price_range_does_not_wrap() {
    let wide = StrikeBand::around(Price::of_steps(i64::MAX), u64::MAX);
    assert!(wide.contains(&Some(Price::of_steps(i64::MAX))));
    assert!(wide.contains(&Some(Price::of_steps(0))));
    assert!(wide.contains(&Some(Price::of_steps(i64::MIN + 1))));
    let low = StrikeBand::around(Price::of_steps(i64::MIN), 5);
    assert!(low.contains(&Some(Price::of_steps(i64::MIN + 5))));
    assert!(!low.contains(&Some(Price::of_steps(i64::MIN + 6))));
}

#[test]
fn admits_record_agrees_with_each_rule() {
    let good = record("BANKNIFTY", Some(START + 1), Some(REFERENCE), 0);
    assert!(admits_record(&good, &names(), &window(), &band()));
    let late = record("BANKNIFTY", Some(END + 1), Some(REFERENCE), 0);
    assert!(!admits_record(&late, &names(), &window(), &band()));
    let far = record("BANKNIFTY", Some(START + 1), Some(0), 0);
    assert!(!admits_record(&far, &names(), &window(), &band()));
    let other = record("NIFTY", Some(START + 1), Some(REFERENCE), 0);
    assert!(!admits_record(&other, &names(), &window(), &band()));
}

#[test]
fn sort_puts_missing_expiry_first_and_is_stable() {
    let given = vec![
        record("A", Some(5), None, 0),
        record("B", None, None, 1),
        record("C", Some(-7), None, 2),
        record("D", Some(5), None, 3),
        record("E", None, None, 4),
        record("F", Some(i64::MIN), None, 5),
    ];
    let sorted = sort_by_expiry(&given);
    assert_eq!(tags(&sorted), vec![1, 4, 5, 2, 0, 3]);
    assert_eq!(sorted.len(), given.len());
}

#[test]
fn sort_of_nothing_is_nothing() {
    assert!(sort_by_expiry(&Vec::new()).is_empty());
}

#[test]
fn filter_options_uses_the_window_of_the_moment() {
    let settings = FilterSettings { accepted_names: names(), strike_radius: RADIUS };
    // 2024-05-15T10:00:00+05:30
    let now = Moment { epoch_millis: 1_715_747_400_000, utc_offset_seconds: 19_800 };
    let given = vec![
        record("BANKNIFTY", Some(END), Some(REFERENCE), 0),
        record("BANKNIFTY", Some(START), Some(REFERENCE), 1),
        record("BANKNIFTY", Some(START + 1), Some(REFERENCE), 2),
        record("BANKNIFTY", Some(END + 1), Some(REFERENCE), 3),
    ];
    let kept = filter_options(&given, &Price::of_steps(REFERENCE), now, &settings).unwrap();
    assert_eq!(tags(&kept), vec![2, 0]);
}

#[test]
fn filter_options_fails_without_a_window() {
    let settings = FilterSettings { accepted_names: names(), strike_radius: RADIUS };
    let now = Moment { epoch_millis: 0, utc_offset_seconds: 86_400 };
    let given = vec![record("BANKNIFTY", Some(1), Some(REFERENCE), 0)];
    assert_eq!(filter_options(&given, &Price::of_steps(REFERENCE), now, &settings), Err(WindowError::NoLocalDate));
}

#[test]
fn end_to_end_keeps_only_the_entry_with_the_accepted_name() {
    let text = format!(
        "[{{\"name\":\"BANKNIFTY\",\"expiry\":{e},\"strike_price\":56059.35,\"lot_size\":15}},\
          {{\"name\":\"NIFTY\",\"expiry\":{e},\"strike_price\":56059.35,\"lot_size\":25}}]",
        e = START + 1000
    );
    let records = load_records(&text).unwrap();
    assert_eq!(records.len(), 2);
    let settings = FilterSettings { accepted_names: names(), strike_radius: RADIUS };
    let now = Moment { epoch_millis: 1_715_747_400_000, utc_offset_seconds: 19_800 };
    let kept = filter_options(&records, &Price::of_steps(REFERENCE), now, &settings).unwrap();
    assert_eq!(kept.len(), 1);
    assert_eq!(kept[0], records[0]);
    let written = render_records(kept).unwrap();
    let back: serde_json::Value = serde_json::from_str(&written).unwrap();
    let all: serde_json::Value = serde_json::from_str(&text).unwrap();
    assert_eq!(back, serde_json::Value::Array(vec![all[0].clone()]));
}

#[test]
fn content_becomes_the_text_of_the_kept_entries() {
    let content = format!(
        "{{\"data\":[{{\"name\":\"BANKNIFTY\",\"expiry\":{late},\"strike_price\":56000.0,\"weekly\":true}},\
          {{\"name\":\"NIFTY\",\"expiry\":{soon},\"strike_price\":56000.0}},\
          {{\"name\":\"banknifty\",\"expiry\":{soon},\"strike_price\":53059.35,\"lot_size\":15}},\
          {{\"name\":\"BANKNIFTY\",\"expiry\":{soon},\"strike_price\":53059.34}},\
          {{\"name\":\"BANKNIFTY\",\"strike_price\":56000.0}}]}}",
        late = END,
        soon = START + 1
    );
    let settings = FilterSettings { accepted_names: names(), strike_radius: RADIUS };
    let now = Moment { epoch_millis: 1_715_747_400_000, utc_offset_seconds: 19_800 };
    let output = select_from_content(&content, &Price::of_steps(REFERENCE), now, &settings).unwrap();
    assert_eq!(output.loaded, 5);
    assert_eq!(output.kept, 2);
    let all: serde_json::Value = serde_json::from_str(&content).unwrap();
    let expected = serde_json::Value::Array(vec![all["data"][2].clone(), all["data"][0].clone()]);
    assert_eq!(output.text, serde_json::to_string_pretty(&expected).unwrap());
}

#[test]
fn content_without_matches_becomes_an_empty_list() {
    let settings = FilterSettings { accepted_names: names(), strike_radius: RADIUS };
    let now = Moment { epoch_millis: 1_715_747_400_000, utc_offset_seconds: 19_800 };
    assert_eq!(
        select_from_content("[{\"name\":\"NIFTY\"}]", &Price::of_steps(REFERENCE), now, &settings),
        Ok(Output { text: "[]".to_string(), loaded: 1, kept: 0 })
    );
}

#[test]
fn run_fails_on_content_first_and_on_the_moment_second() {
    let settings = FilterSettings { accepted_names: names(), strike_radius: RADIUS };
    let nowhere = Moment { epoch_millis: 0, utc_offset_seconds: 90_000 };
    assert_eq!(
        select_from_content("[]", &Price::of_steps(REFERENCE), nowhere, &settings),
        Err(RunError::Window(WindowError::NoLocalDate))
    );
    assert_eq!(
        select_from_content("{}", &Price::of_steps(REFERENCE), nowhere, &settings),
        Err(RunError::Load(LoadError::Parse {
            reason: "neither a list of entries nor an object with one in `data`".to_string(),
            preview: "{}".to_string(),
        }))
    );
}

#[test]
fn strike_beyond_the_band_by_less_than_a_step_is_kept_out() {
    let around = StrikeBand::around(price_of_text("56000.00").unwrap(), RADIUS);
    let given = vec![
        priced("59000", 0),
        priced("59000.004", 1),
        priced("59000.0000000001", 2),
        priced("58999.999", 3),
        priced("53000.0", 4),
        priced("52999.996", 5),
        priced("52999.9999999999", 6),
        priced("53000.001", 7),
    ];
    let kept = filter_in_window(&given, &names(), window(), &around);
    assert_eq!(tags(&kept), vec![0, 3, 4, 7]);
}

#[test]
fn band_around_a_price_between_two_steps_is_exact() {
    let around = StrikeBand::around(price_of_text("56000.004").unwrap(), RADIUS);
    assert!(around.contains(&written("59000.004")));
    assert!(around.contains(&written("59000.0039")));
    assert!(around.contains(&written("59000")));
    assert!(!around.contains(&written("59000.0041")));
    assert!(!around.contains(&written("59000.005")));
    assert!(!around.contains(&written("59000.01")));
    assert!(around.contains(&written("53000.004")));
    assert!(around.contains(&written("53000.0041")));
    assert!(around.contains(&written("53000.01")));
    assert!(!around.contains(&written("53000.0039")));
    assert!(!around.contains(&written("53000")));
}

#[test]
fn band_below_zero_is_exact() {
    let around = StrikeBand::around(price_of_text("-0.004").unwrap(), 1);
    assert!(around.contains(&written("0.006")));
    assert!(!around.contains(&written("0.0061")));
    assert!(around.contains(&written("-0.014")));
    assert!(!around.contains(&written("-0.0141")));
    assert!(around.contains(&written("0")));
    assert!(around.contains(&written("-0.004")));
}

#[test]
fn very_small_and_very_large_strikes_have_a_price() {
    let around = StrikeBand::around(Price::of_steps(0), 1);
    assert!(around.contains(&written("1e-7")));
    assert!(around.contains(&written("-1e-7")));
    assert!(around.contains(&written("5e-324")));
    assert!(around.contains(&written("1e-2")));
    assert!(!around.contains(&written("1.0000001e-2")));
    let high = StrikeBand::around(price_of_text("1e16").unwrap(), 0);
    assert!(high.contains(&written("10000000000000000")));
    assert!(high.contains(&written("1.0e+16")));
    assert!(!high.contains(&written("1.0000000000000002e16")));
}

#[test]
fn content_is_selected_in_a_given_window() {
    let content = format!(
        "[{{\"name\":\"BANKNIFTY\",\"expiry\":{e},\"strike_price\":59000.004}},\
          {{\"name\":\"BANKNIFTY\",\"expiry\":{e},\"strike_price\":59000.0}},\
          {{\"name\":\"BANKNIFTY\",\"expiry\":{e},\"strike_price\":1e-7}}]",
        e = START + 1
    );
    let settings = FilterSettings { accepted_names: names(), strike_radius: RADIUS };
    let reference = price_of_text("56000.0").unwrap();
    let output = select_in_window(&content, &reference, window(), &settings).unwrap();
    assert_eq!((output.loaded, output.kept), (3, 1));
    let all: serde_json::Value = serde_json::from_str(&content).unwrap();
    let expected = serde_json::Value::Array(vec![all[1].clone()]);
    assert_eq!(output.text, serde_json::to_string_pretty(&expected).unwrap());
    assert_eq!(
        select_in_window("7", &reference, window(), &settings),
        Err(RunError::Load(LoadError::Parse {
            reason: "neither a list of entries nor an object with one in `data`".to_string(),
            preview: "7".to_string(),
        }))
    );
}
