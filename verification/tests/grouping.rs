use weather_cli::group::group_by_day;
use weather_cli::model::{clamp_day_count, day_number, ForecastEntry, SelectionRequest};

const MIDNIGHT: i64 = 1_717_200_000;

fn entry(time_epoch: i64) -> ForecastEntry {
    ForecastEntry { time_epoch, temp_deci_c: 180, rain_tenths: 0, condition: "Clouds".to_string() }
}

#[test]
fn entries_split_into_one_bucket_per_calendar_date() {
    let entries = vec![
        entry(MIDNIGHT + 3600),
        entry(MIDNIGHT + 4 * 3600),
        entry(MIDNIGHT + 86400 + 3600),
        entry(MIDNIGHT + 86400 + 7 * 3600),
        entry(MIDNIGHT + 2 * 86400),
    ];
    let buckets = group_by_day(&entries, 0);
    assert_eq!(buckets.len(), 3);
    assert_eq!(buckets[0].entries.len(), 2);
    assert_eq!(buckets[1].entries.len(), 2);
    assert_eq!(buckets[2].entries.len(), 1);
    // Each bucket is dated by its first entry and keeps the order.
    assert_eq!(buckets[0].date_epoch, MIDNIGHT + 3600);
    assert_eq!(buckets[1].date_epoch, MIDNIGHT + 86400 + 3600);
    assert_eq!(buckets[0].entries[0].time_epoch, MIDNIGHT + 3600);
    assert_eq!(buckets[0].entries[1].time_epoch, MIDNIGHT + 4 * 3600);
}

#[test]
fn grouping_honours_the_local_offset() {
    // 23:30 and 00:30 UTC fall on different UTC dates, but with a -01:00
    // offset both are on the same local date.
    let entries = vec![entry(MIDNIGHT - 1800), entry(MIDNIGHT + 1800)];
    assert_eq!(group_by_day(&entries, 0).len(), 2);
    assert_eq!(group_by_day(&entries, -3600).len(), 1);
}

#[test]
fn empty_input_gives_no_buckets() {
    let buckets = group_by_day(&Vec::new(), 0);
    assert!(buckets.is_empty());
}

#[test]
fn day_number_floors_toward_earlier_days() {
    assert_eq!(day_number(0, 0), 0);
    assert_eq!(day_number(86399, 0), 0);
    assert_eq!(day_number(86400, 0), 1);
    assert_eq!(day_number(-1, 0), -1);
    assert_eq!(day_number(-86400, 0), -1);
    assert_eq!(day_number(-86401, 0), -2);
    assert_eq!(day_number(86399, 1), 1);
    assert_eq!(day_number(MIDNIGHT, 0), 19875);
    assert_eq!(day_number(MIDNIGHT, -1), 19874);
}

#[test]
fn selection_request_clamps_and_passes_location_through() {
    let r = SelectionRequest::new("Delhi".to_string(), 0, 5);
    assert_eq!(r.location, "Delhi");
    assert_eq!(r.requested_day_count, 1);
    let r = SelectionRequest::new("Oslo".to_string(), 9, 5);
    assert_eq!(r.requested_day_count, 5);
    let r = SelectionRequest::new("Pune".to_string(), 4, 14);
    assert_eq!(r.requested_day_count, 4);
}

#[test]
fn day_count_is_clamped_to_the_provider_bound() {
    assert_eq!(clamp_day_count(0, 14), 1);
    assert_eq!(clamp_day_count(1, 14), 1);
    assert_eq!(clamp_day_count(14, 14), 14);
    assert_eq!(clamp_day_count(15, 14), 14);
    assert_eq!(clamp_day_count(3, 5), 3);
    assert_eq!(clamp_day_count(200, 5), 5);
}
