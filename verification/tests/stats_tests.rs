use encstore::stats::{
    compute_daily_stats, get_date_range, now_millis, now_secs, AppData, StopwatchState, TodoItem,
};

// Midnight UTC of 2024-01-15.
const DAY_START: i64 = 1705276800;

fn task(id: u64, created_at: i64, completed_at: Option<i64>) -> TodoItem {
    TodoItem {
        id,
        text: format!("task {}", id),
        completed: completed_at.is_some(),
        created_at,
        completed_at,
    }
}

#[test]
fn date_range_spans_inclusive_days() {
    let dates = get_date_range("2024-01-15", "2024-01-17");
    assert_eq!(dates, vec!["2024-01-15", "2024-01-16", "2024-01-17"]);
}

#[test]
fn date_range_single_day() {
    assert_eq!(get_date_range("2024-01-15", "2024-01-15"), vec!["2024-01-15"]);
}

#[test]
fn date_range_empty_when_end_precedes_start() {
    assert!(get_date_range("2024-01-17", "2024-01-15").is_empty());
}

#[test]
fn date_range_handles_leap_day() {
    let dates = get_date_range("2024-02-28", "2024-03-01");
    assert_eq!(dates, vec!["2024-02-28", "2024-02-29", "2024-03-01"]);
    let dates = get_date_range("2023-02-28", "2023-03-01");
    assert_eq!(dates, vec!["2023-02-28", "2023-03-01"]);
}

#[test]
fn unparsable_dates_fall_back_to_the_epoch() {
    assert_eq!(get_date_range("nonsense", "also nonsense"), vec!["1970-01-01"]);
    assert_eq!(get_date_range("2024-13-01", "2024-13-01"), vec!["1970-01-01"]);
}

#[test]
fn unparsable_fields_fall_back_to_defaults() {
    // A field that is no plain number defaults: month to 1, day to 1,
    // year to 1970 — matching the store's lenient date handling.
    assert_eq!(get_date_range("2024-xx-05", "2024-01-06"), vec!["2024-01-05", "2024-01-06"]);
    assert_eq!(get_date_range("2024-02-??", "2024-02-02"), vec!["2024-02-01", "2024-02-02"]);
    assert_eq!(get_date_range("what-01-01", "1970-01-02"), vec!["1970-01-01", "1970-01-02"]);
}

#[test]
fn daily_stats_counts_exactly_the_day() {
    let data = AppData {
        v: 1,
        tasks: vec![
            task(1, DAY_START, Some(DAY_START + 3600)),
            task(2, DAY_START + 86399, None),
            task(3, DAY_START - 1, Some(DAY_START + 86399)),
            task(4, DAY_START + 86400, Some(DAY_START - 1)),
        ],
        stopwatch: None,
    };
    let stats = compute_daily_stats(&data, "2024-01-15");
    assert_eq!(stats.date, "2024-01-15");
    assert_eq!(stats.tasks_created, 2, "tasks 1 and 2 were created on the day");
    assert_eq!(stats.tasks_completed, 2, "tasks 1 and 3 were completed on the day");
    assert_eq!(stats.focus_time_ms, 0);
    assert_eq!(stats.lap_count, 0);
    assert_eq!(stats.avg_lap_time_ms, None);
}

#[test]
fn daily_stats_averages_laps() {
    let data = AppData {
        v: 1,
        tasks: vec![],
        stopwatch: Some(StopwatchState {
            elapsed_ms: 90000,
            lap_totals_ms: vec![1000, 2000, 3000],
        }),
    };
    let stats = compute_daily_stats(&data, "2024-01-15");
    assert_eq!(stats.focus_time_ms, 90000);
    assert_eq!(stats.lap_count, 3);
    assert_eq!(stats.avg_lap_time_ms, Some(2000));
}

#[test]
fn daily_stats_empty_laps_have_no_average() {
    let data = AppData {
        v: 1,
        tasks: vec![],
        stopwatch: Some(StopwatchState { elapsed_ms: 5, lap_totals_ms: vec![] }),
    };
    let stats = compute_daily_stats(&data, "2024-01-15");
    assert_eq!(stats.lap_count, 0);
    assert_eq!(stats.avg_lap_time_ms, None);
}

#[test]
fn default_app_data_is_empty() {
    let data = AppData::default();
    assert_eq!(data.v, 1);
    assert!(data.tasks.is_empty());
    assert!(data.stopwatch.is_none());
}

#[test]
fn clocks_read_after_the_twenty_twenties() {
    assert!(now_secs() > 1_700_000_000);
    assert!(now_millis() > 1_700_000_000_000);
}
