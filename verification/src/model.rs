//! The data model: forecast entries, day buckets, and the selected view,
//! together with the local-calendar-day arithmetic they share.

use vstd::prelude::*;
use vstd::arithmetic::div_mod::lemma_hoist_over_denominator;

verus! {

/// Precipitation chance at or above this threshold, in tenths of a percent,
/// is flagged as high.
pub const HIGH_RAIN_TENTHS: u32 = 400;

/// How many trailing entries today's bucket falls back to when every entry
/// has aged out.
pub const FALLBACK_HOURS: usize = 3;

/// Entries up to this many seconds before `now` are still shown for today.
pub const PAST_GRACE_SECS: i64 = 3600;

/// Seconds in one calendar day.
pub const SECS_PER_DAY: i64 = 86400;

/// Instants handled here stay within this many seconds of the epoch,
/// comfortably inside the range that calendar libraries accept.
pub const EPOCH_BOUND: i64 = 8_000_000_000_000;

/// A local-time offset is at most this many seconds away from UTC.
pub const OFFSET_BOUND: i64 = 93_600;

/// One hourly forecast data point, as the upstream API reports it:
/// an absolute instant, a temperature in tenths of a degree Celsius,
/// a precipitation chance in tenths of a percent, and a short condition text.
pub struct ForecastEntry {
    pub time_epoch: i64,
    pub temp_deci_c: i64,
    pub rain_tenths: u32,
    pub condition: String,
}

/// The forecast entries of one calendar day, tagged with a representative
/// instant of that day (the upstream `date_epoch`).
pub struct DayBucket {
    pub date_epoch: i64,
    pub entries: Vec<ForecastEntry>,
}

/// A forecast entry as the presentation layer receives it: the original
/// data plus the two display flags the selection rules compute.
pub struct SelectedEntry {
    pub time_epoch: i64,
    pub temp_deci_c: i64,
    pub rain_tenths: u32,
    pub condition: String,
    pub is_past: bool,
    pub is_high_rain: bool,
}

/// One day of the selected forecast: its local calendar date as a day
/// number (days since the epoch, in local time), whether that date is the
/// viewer's current date, and the selected entries in order.
pub struct ForecastDay {
    pub day: i64,
    pub is_today: bool,
    pub entries: Vec<SelectedEntry>,
}

/// Weather condition details in the shape the upstream API reports.
#[derive(Debug)]
pub struct Condition {
    pub main: String,
    pub description: String,
    pub icon: String,
}

/// The place a forecast applies to, as the upstream API reports it.
#[derive(Debug)]
pub struct City {
    pub name: String,
    pub country: String,
}

/// The place a forecast applies to, in the shape the presentation layer uses.
#[derive(Debug)]
pub struct LocationInfo {
    pub name: String,
    pub country: String,
}

/// Mathematical image of a `ForecastEntry`.
pub ghost struct EntryView {
    pub time: int,
    pub temp_deci: int,
    pub rain_tenths: int,
    pub condition: Seq<char>,
}

/// Mathematical image of a `SelectedEntry`.
pub ghost struct SelectedEntryView {
    pub time: int,
    pub temp_deci: int,
    pub rain_tenths: int,
    pub condition: Seq<char>,
    pub is_past: bool,
    pub is_high_rain: bool,
}

/// Mathematical image of a `DayBucket`.
pub ghost struct BucketView {
    pub date_epoch: int,
    pub entries: Seq<EntryView>,
}

/// Mathematical image of a `ForecastDay`.
pub ghost struct DayView {
    pub day: int,
    pub is_today: bool,
    pub entries: Seq<SelectedEntryView>,
}

impl View for ForecastEntry {
    type V = EntryView;

    open spec fn view(&self) -> EntryView {
        EntryView {
            time: self.time_epoch as int,
            temp_deci: self.temp_deci_c as int,
            rain_tenths: self.rain_tenths as int,
            condition: self.condition@,
        }
    }
}

impl View for SelectedEntry {
    type V = SelectedEntryView;

    open spec fn view(&self) -> SelectedEntryView {
        SelectedEntryView {
            time: self.time_epoch as int,
            temp_deci: self.temp_deci_c as int,
            rain_tenths: self.rain_tenths as int,
            condition: self.condition@,
            is_past: self.is_past,
            is_high_rain: self.is_high_rain,
        }
    }
}

/// The images of a sequence of forecast entries.
pub open spec fn entry_views(s: Seq<ForecastEntry>) -> Seq<EntryView> {
    s.map_values(|e: ForecastEntry| e@)
}

/// The images of a sequence of selected entries.
pub open spec fn selected_views(s: Seq<SelectedEntry>) -> Seq<SelectedEntryView> {
    s.map_values(|e: SelectedEntry| e@)
}

impl View for DayBucket {
    type V = BucketView;

    open spec fn view(&self) -> BucketView {
        BucketView { date_epoch: self.date_epoch as int, entries: entry_views(self.entries@) }
    }
}

impl View for ForecastDay {
    type V = DayView;

    open spec fn view(&self) -> DayView {
        DayView {
            day: self.day as int,
            is_today: self.is_today,
            entries: selected_views(self.entries@),
        }
    }
}

/// The images of a sequence of day buckets.
pub open spec fn bucket_views(s: Seq<DayBucket>) -> Seq<BucketView> {
    s.map_values(|b: DayBucket| b@)
}

/// The images of a sequence of selected forecast days.
pub open spec fn day_views(s: Seq<ForecastDay>) -> Seq<DayView> {
    s.map_values(|d: ForecastDay| d@)
}

impl Clone for ForecastEntry {
    fn clone(&self) -> (r: Self)
        ensures
            r == *self,
    {
        ForecastEntry {
            time_epoch: self.time_epoch,
            temp_deci_c: self.temp_deci_c,
            rain_tenths: self.rain_tenths,
            condition: self.condition.clone(),
        }
    }
}

/// The local calendar date, as a day number since the epoch, of the instant
/// `t` seconds after the epoch, in a time zone `tz` seconds ahead of UTC.
pub open spec fn local_day(t: int, tz: int) -> int {
    (t + tz) / (SECS_PER_DAY as int)
}

/// Computes `local_day` on machine integers; the shift keeps the dividend
/// non-negative so that machine division is flooring division.
pub fn day_number(t: i64, tz: i64) -> (d: i64)
    requires
        -EPOCH_BOUND <= t <= EPOCH_BOUND,
        -OFFSET_BOUND <= tz <= OFFSET_BOUND,
    ensures
        d == local_day(t as int, tz as int),
{
    let s: i64 = t + tz;
    let shifted: u64 = (s + 17_280_000_000_000) as u64;
    let q: u64 = shifted / 86400;
    let d: i64 = (q as i64) - 200_000_000;
    proof {
        let si = s as int;
        assert(shifted == si + 17_280_000_000_000);
        assert(200_000_000 * (SECS_PER_DAY as int) == 17_280_000_000_000);
        lemma_hoist_over_denominator(si, 200_000_000, SECS_PER_DAY as nat);
        assert(q == si / (SECS_PER_DAY as int) + 200_000_000);
    }
    d
}

/// What a caller asks for: a free-text location, opaque here and passed
/// through to the upstream API, and a day count within the provider's
/// accepted range.
pub struct SelectionRequest {
    pub location: String,
    pub requested_day_count: u8,
}

impl SelectionRequest {
    /// Builds a request, clamping the day count to `1..=max` — the caller
    /// contract every provider variant enforces before selecting.
    pub fn new(location: String, days: u8, max: u8) -> (r: SelectionRequest)
        requires
            1 <= max,
        ensures
            r.location == location,
            1 <= r.requested_day_count <= max,
            r.requested_day_count == if days < 1 {
                1u8
            } else if days > max {
                max
            } else {
                days
            },
    {
        SelectionRequest { location, requested_day_count: clamp_day_count(days, max) }
    }
}

/// Brings a requested day count into the provider's accepted range `1..=max`.
pub fn clamp_day_count(days: u8, max: u8) -> (r: u8)
    requires
        1 <= max,
    ensures
        1 <= r <= max,
        r == if days < 1 { 1u8 } else if days > max { max } else { days },
{
    if days < 1 {
        1
    } else if days > max {
        max
    } else {
        days
    }
}

} // verus!
