use yummy_indexing::config::{IndexSchedules, IndexSchedulesConfig};
use yummy_indexing::error::IndexingError;
use yummy_indexing::schedule::{is_due_at, parse_schedule, ScheduleTable, LAST_TIMESTAMP_SECONDS};

/// 2023-12-31T23:59:59Z, one second before the top of an hour (in UTC and in Korean time).
const BEFORE_HOUR: i64 = 1704067199;

fn entry(index_name: &str, function_name: &str, time: &str) -> IndexSchedules {
    IndexSchedules {
        index_name: index_name.to_string(),
        function_name: function_name.to_string(),
        time: time.to_string(),
        indexing_type: "static".to_string(),
        setting_path: None,
        sql_batch_size: 100,
        es_batch_size: 100,
    }
}

#[test]
fn parse_schedule_accepts_and_rejects() {
    assert!(parse_schedule("0 0 * * * *").is_some());
    assert!(parse_schedule("*/5 * * * * *").is_some());
    assert!(parse_schedule("bad").is_none());
    assert!(parse_schedule("").is_none());
}

#[test]
fn hourly_schedule_is_due_less_than_a_second_before_the_hour() {
    let s = parse_schedule("0 0 * * * *").unwrap();
    assert!(is_due_at(&s, BEFORE_HOUR, 500_000_000));
    assert!(!is_due_at(&s, BEFORE_HOUR, 0));
    assert!(!is_due_at(&s, BEFORE_HOUR - 1, 0));
    assert!(!is_due_at(&s, BEFORE_HOUR + 1, 0));
}

#[test]
fn schedule_table_names_first_bad_expression() {
    let config = IndexSchedulesConfig {
        index: vec![
            entry("a", "store_static_index", "0 0 * * * *"),
            entry("b", "store_static_index", "bad"),
            entry("c", "store_static_index", "also bad"),
        ],
    };
    match ScheduleTable::new(&config) {
        Err(e) => assert_eq!(e, IndexingError::InvalidCron("bad".to_string())),
        Ok(_) => panic!("a bad expression was accepted"),
    }
}

#[test]
fn due_flags_follow_last_entry_of_a_key() {
    let config = IndexSchedulesConfig {
        index: vec![
            entry("store", "store_static_index", "0 0 * * * *"),
            entry("store", "store_static_index", "0 30 * * * *"),
            entry("subway", "subway_static_index", "0 0 * * * *"),
        ],
    };
    let table = ScheduleTable::new(&config).unwrap();
    assert_eq!(table.due_flags(BEFORE_HOUR, 500_000_000), vec![false, false, true]);
    assert_eq!(table.due_flags(BEFORE_HOUR - 3600, 0), vec![false, false, false]);
}

#[test]
fn due_flags_of_empty_config() {
    let table = ScheduleTable::new(&IndexSchedulesConfig { index: vec![] }).unwrap();
    assert!(table.due_flags(BEFORE_HOUR, 0).is_empty());
}

#[test]
fn schedule_is_never_due_at_chronos_last_admitted_second() {
    let s = parse_schedule("* * * * * *").unwrap();
    assert!(!is_due_at(&s, LAST_TIMESTAMP_SECONDS - 1, 0));
    assert!(is_due_at(&s, BEFORE_HOUR, 500_000_000));
}
