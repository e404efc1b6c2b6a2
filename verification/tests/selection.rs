use weather_cli::model::{DayBucket, ForecastEntry};
use weather_cli::select::select_forecast;

// 2024-06-01 00:00 UTC; with a zero offset the local date is day 19875.
const MIDNIGHT: i64 = 1_717_200_000;

fn entry(time_epoch: i64, rain_tenths: u32, condition: &str) -> ForecastEntry {
    ForecastEntry { time_epoch, temp_deci_c: 215, rain_tenths, condition: condition.to_string() }
}

fn bucket(date_epoch: i64, times: &[i64]) -> DayBucket {
    DayBucket {
        date_epoch,
        entries: times.iter().map(|&t| entry(t, 0, "Clear")).collect(),
    }
}

#[test]
fn morning_filter_keeps_recent_past_hour() {
    // now = 08:30 local; entries at 06:00, 07:00, 09:00, 10:00.
    // The cutoff is 07:30, so 06:00 and 07:00 go, 09:00 and 10:00 stay.
    let now = MIDNIGHT + 8 * 3600 + 1800;
    let days = vec![bucket(
        MIDNIGHT,
        &[MIDNIGHT + 6 * 3600, MIDNIGHT + 7 * 3600, MIDNIGHT + 9 * 3600, MIDNIGHT + 10 * 3600],
    )];
    let out = select_forecast(&days, 1, now, 0);
    assert_eq!(out.len(), 1);
    assert!(out[0].is_today);
    assert_eq!(out[0].day, 19875);
    let times: Vec<i64> = out[0].entries.iter().map(|e| e.time_epoch).collect();
    assert_eq!(times, vec![MIDNIGHT + 9 * 3600, MIDNIGHT + 10 * 3600]);
    assert!(out[0].entries.iter().all(|e| !e.is_past));
}

#[test]
fn late_evening_falls_back_to_last_three_past_entries() {
    // Entries only at 01:00, 02:00, 03:00 and now = 23:00: everything is
    // filtered out, so the fallback shows all three, in order, marked past.
    let now = MIDNIGHT + 23 * 3600;
    let days = vec![bucket(MIDNIGHT, &[MIDNIGHT + 3600, MIDNIGHT + 2 * 3600, MIDNIGHT + 3 * 3600])];
    let out = select_forecast(&days, 1, now, 0);
    assert_eq!(out.len(), 1);
    let times: Vec<i64> = out[0].entries.iter().map(|e| e.time_epoch).collect();
    assert_eq!(times, vec![MIDNIGHT + 3600, MIDNIGHT + 2 * 3600, MIDNIGHT + 3 * 3600]);
    assert!(out[0].entries.iter().all(|e| e.is_past));
}

#[test]
fn fallback_takes_only_last_three_of_longer_bucket() {
    let now = MIDNIGHT + 23 * 3600;
    let times: Vec<i64> = (1..=5).map(|h| MIDNIGHT + h * 3600).collect();
    let days = vec![bucket(MIDNIGHT, &times)];
    let out = select_forecast(&days, 1, now, 0);
    assert_eq!(out.len(), 1);
    let got: Vec<i64> = out[0].entries.iter().map(|e| e.time_epoch).collect();
    assert_eq!(got, vec![MIDNIGHT + 3 * 3600, MIDNIGHT + 4 * 3600, MIDNIGHT + 5 * 3600]);
    assert!(out[0].entries.iter().all(|e| e.is_past));
}

#[test]
fn requested_count_caps_available_future_days() {
    // Five future days available, three requested: exactly the three
    // earliest come back.
    let now = MIDNIGHT + 12 * 3600;
    let days: Vec<DayBucket> =
        (0..5).map(|d| bucket(MIDNIGHT + d * 86400, &[MIDNIGHT + d * 86400 + 13 * 3600])).collect();
    let out = select_forecast(&days, 3, now, 0);
    assert_eq!(out.len(), 3);
    assert_eq!(out[0].day, 19875);
    assert_eq!(out[1].day, 19876);
    assert_eq!(out[2].day, 19877);
    assert!(out[0].is_today);
    assert!(!out[1].is_today);
    assert!(!out[2].is_today);
}

#[test]
fn only_past_days_yield_empty_output() {
    let now = MIDNIGHT + 12 * 3600;
    let days = vec![
        bucket(MIDNIGHT - 2 * 86400, &[MIDNIGHT - 2 * 86400 + 3600]),
        bucket(MIDNIGHT - 86400, &[MIDNIGHT - 86400 + 3600]),
    ];
    let out = select_forecast(&days, 3, now, 0);
    assert!(out.is_empty());
}

#[test]
fn past_days_are_skipped_without_consuming_the_budget() {
    let now = MIDNIGHT + 12 * 3600;
    let days = vec![
        bucket(MIDNIGHT - 86400, &[MIDNIGHT - 86400 + 3600]),
        bucket(MIDNIGHT, &[MIDNIGHT + 13 * 3600]),
        bucket(MIDNIGHT + 86400, &[MIDNIGHT + 86400 + 3600]),
    ];
    let out = select_forecast(&days, 2, now, 0);
    assert_eq!(out.len(), 2);
    assert_eq!(out[0].day, 19875);
    assert_eq!(out[1].day, 19876);
}

#[test]
fn high_precipitation_flag_follows_threshold() {
    // 40.0% is written as 400 tenths: 39.9% stays unflagged, 40.0% and
    // more are flagged, on today's and on future days alike.
    let now = MIDNIGHT + 6 * 3600;
    let today = DayBucket {
        date_epoch: MIDNIGHT,
        entries: vec![
            entry(MIDNIGHT + 7 * 3600, 399, "Drizzle"),
            entry(MIDNIGHT + 8 * 3600, 400, "Rain"),
        ],
    };
    let tomorrow = DayBucket {
        date_epoch: MIDNIGHT + 86400,
        entries: vec![
            entry(MIDNIGHT + 86400 + 3600, 1000, "Storm"),
            entry(MIDNIGHT + 86400 + 2 * 3600, 0, "Clear"),
        ],
    };
    let out = select_forecast(&vec![today, tomorrow], 2, now, 0);
    assert_eq!(out.len(), 2);
    assert!(!out[0].entries[0].is_high_rain);
    assert!(out[0].entries[1].is_high_rain);
    assert!(out[1].entries[0].is_high_rain);
    assert!(!out[1].entries[1].is_high_rain);
}

#[test]
fn empty_today_bucket_stays_empty_without_fallback() {
    // A degenerate bucket with no entries at all comes back empty: the
    // fallback only applies when entries existed and were filtered out.
    let now = MIDNIGHT + 23 * 3600;
    let days = vec![bucket(MIDNIGHT, &[])];
    let out = select_forecast(&days, 1, now, 0);
    assert_eq!(out.len(), 1);
    assert!(out[0].is_today);
    assert!(out[0].entries.is_empty());
}

#[test]
fn future_day_keeps_all_hours_even_old_looking_ones() {
    // The one-hour rule applies to today only; a future day keeps every
    // entry and none is marked past.
    let now = MIDNIGHT + 23 * 3600;
    let days = vec![bucket(MIDNIGHT + 86400, &[MIDNIGHT + 86400 + 3600, MIDNIGHT + 86400 + 2 * 3600])];
    let out = select_forecast(&days, 1, now, 0);
    assert_eq!(out.len(), 1);
    assert_eq!(out[0].entries.len(), 2);
    assert!(out[0].entries.iter().all(|e| !e.is_past));
}

#[test]
fn entry_data_passes_through_unchanged() {
    let now = MIDNIGHT + 6 * 3600;
    let days = vec![DayBucket {
        date_epoch: MIDNIGHT,
        entries: vec![entry(MIDNIGHT + 7 * 3600, 123, "Patchy rain nearby")],
    }];
    let out = select_forecast(&days, 1, now, 0);
    let e = &out[0].entries[0];
    assert_eq!(e.time_epoch, MIDNIGHT + 7 * 3600);
    assert_eq!(e.temp_deci_c, 215);
    assert_eq!(e.rain_tenths, 123);
    assert_eq!(e.condition, "Patchy rain nearby");
}

#[test]
fn entry_order_is_never_changed() {
    // Chronological input order survives the selection in every bucket,
    // today's filtered bucket included.
    let now = MIDNIGHT + 8 * 3600 + 1800;
    let days = vec![
        bucket(
            MIDNIGHT,
            &[MIDNIGHT + 6 * 3600, MIDNIGHT + 8 * 3600, MIDNIGHT + 9 * 3600, MIDNIGHT + 11 * 3600],
        ),
        bucket(MIDNIGHT + 86400, &[MIDNIGHT + 86400, MIDNIGHT + 86400 + 3600]),
    ];
    let out = select_forecast(&days, 2, now, 0);
    for day in &out {
        for pair in day.entries.windows(2) {
            assert!(pair[0].time_epoch <= pair[1].time_epoch);
        }
    }
}

#[test]
fn timezone_offset_shifts_the_day_boundary() {
    // At 23:30 UTC with a +01:00 offset the local date is already the
    // next day, so a bucket dated at that instant counts as today there.
    let now = MIDNIGHT + 23 * 3600 + 1800;
    let days = vec![bucket(now, &[now])];
    let out_utc = select_forecast(&days, 1, now, 0);
    let out_east = select_forecast(&days, 1, now, 3600);
    assert_eq!(out_utc[0].day, 19875);
    assert_eq!(out_east[0].day, 19876);
    assert!(out_utc[0].is_today);
    assert!(out_east[0].is_today);
}
