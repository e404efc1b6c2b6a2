//! The forecast selection rules.

use vstd::prelude::*;
use crate::model::{
    BucketView, DayBucket, DayView, EntryView, ForecastDay, ForecastEntry, SelectedEntry,
    SelectedEntryView, bucket_views, day_number, day_views, entry_views, local_day,
    selected_views, EPOCH_BOUND, FALLBACK_HOURS, HIGH_RAIN_TENTHS, OFFSET_BOUND, PAST_GRACE_SECS,
};

verus! {

/// An entry of today's bucket stays visible when it is at most one hour
/// older than `now`.
pub open spec fn keeps_for_today(e: EntryView, now: int) -> bool {
    e.time >= now - PAST_GRACE_SECS as int
}

/// The selected image of one entry: the data unchanged, the `is_past` flag
/// as given, and the high-precipitation flag from the fixed threshold.
pub open spec fn mark(e: EntryView, past: bool) -> SelectedEntryView {
    SelectedEntryView {
        time: e.time,
        temp_deci: e.temp_deci,
        rain_tenths: e.rain_tenths,
        condition: e.condition,
        is_past: past,
        is_high_rain: e.rain_tenths >= HIGH_RAIN_TENTHS as int,
    }
}

/// Every entry of `es` marked with the same `is_past` flag, in order.
pub open spec fn marked_all(es: Seq<EntryView>, past: bool) -> Seq<SelectedEntryView> {
    es.map_values(|e: EntryView| mark(e, past))
}

/// The entries of today's bucket that survive the one-hour rule, in order,
/// marked as current.
pub open spec fn kept_entries(es: Seq<EntryView>, now: int) -> Seq<SelectedEntryView>
    decreases es.len(),
{
    if es.len() == 0 {
        Seq::empty()
    } else {
        let init = kept_entries(es.drop_last(), now);
        if keeps_for_today(es.last(), now) {
            init.push(mark(es.last(), false))
        } else {
            init
        }
    }
}

/// How many entries the fallback shows out of a bucket of `n`: at most
/// `FALLBACK_HOURS`, and all of them when there are fewer.
pub open spec fn fallback_count(n: int) -> int {
    if n < FALLBACK_HOURS as int {
        n
    } else {
        FALLBACK_HOURS as int
    }
}

/// The chronologically last few entries of the bucket, in their original
/// order, each marked as past.
pub open spec fn fallback_entries(es: Seq<EntryView>) -> Seq<SelectedEntryView> {
    marked_all(es.subrange(es.len() - fallback_count(es.len() as int), es.len() as int), true)
}

/// What today's bucket shows: the entries within the one-hour window when
/// any survive, and otherwise — for a bucket that had entries at all — the
/// fallback tail.
pub open spec fn today_entries(es: Seq<EntryView>, now: int) -> Seq<SelectedEntryView> {
    let kept = kept_entries(es, now);
    if kept.len() == 0 && es.len() > 0 {
        fallback_entries(es)
    } else {
        kept
    }
}

/// One bucket turned into a day of the selected forecast: its local
/// calendar date, whether that date is the viewer's current date, and its
/// entries — filtered by the one-hour rule only when the day is today.
pub open spec fn selected_day(b: BucketView, now: int, tz: int) -> DayView {
    let d = local_day(b.date_epoch, tz);
    let today = local_day(now, tz);
    DayView {
        day: d,
        is_today: d == today,
        entries: if d == today {
            today_entries(b.entries, now)
        } else {
            marked_all(b.entries, false)
        },
    }
}

/// Walks the buckets in order, discarding days before the current local
/// date and keeping at most `budget` of the rest.
pub open spec fn selected_days_rec(days: Seq<BucketView>, budget: int, now: int, tz: int) -> Seq<
    DayView,
>
    decreases days.len(),
{
    if days.len() == 0 || budget <= 0 {
        Seq::empty()
    } else if local_day(days[0].date_epoch, tz) >= local_day(now, tz) {
        seq![selected_day(days[0], now, tz)] + selected_days_rec(days.drop_first(), budget - 1, now, tz)
    } else {
        selected_days_rec(days.drop_first(), budget, now, tz)
    }
}

/// The whole selection: what `select_forecast` returns, as a function of
/// the bucket images, the requested day count, the current instant, and
/// the local-time offset.
pub open spec fn selected_forecast(days: Seq<BucketView>, requested: int, now: int, tz: int) -> Seq<
    DayView,
> {
    selected_days_rec(days, requested, now, tz)
}

/// Copies one entry and computes its display flags.
fn mark_entry(e: &ForecastEntry, past: bool) -> (s: SelectedEntry)
    ensures
        s@ == mark(e@, past),
{
    SelectedEntry {
        time_epoch: e.time_epoch,
        temp_deci_c: e.temp_deci_c,
        rain_tenths: e.rain_tenths,
        condition: e.condition.clone(),
        is_past: past,
        is_high_rain: e.rain_tenths >= HIGH_RAIN_TENTHS,
    }
}

/// Marks every entry of a non-today bucket as current.
fn select_all_entries(entries: &Vec<ForecastEntry>) -> (out: Vec<SelectedEntry>)
    ensures
        selected_views(out@) == marked_all(entry_views(entries@), false),
{
    let ghost es = entry_views(entries@);
    let mut out: Vec<SelectedEntry> = Vec::new();
    let mut i: usize = 0;
    while i < entries.len()
        invariant
            0 <= i <= entries@.len(),
            es == entry_views(entries@),
            selected_views(out@) == marked_all(es.take(i as int), false),
        decreases entries@.len() - i,
    {
        let ghost prev = out@;
        out.push(mark_entry(&entries[i], false));
        proof {
            assert(es[i as int] == entries@[i as int]@);
            assert(es.take(i as int + 1) =~= es.take(i as int).push(es[i as int]));
            assert(selected_views(out@) =~= selected_views(prev).push(out@.last()@));
            assert(marked_all(es.take(i as int).push(es[i as int]), false) =~= marked_all(
                es.take(i as int),
                false,
            ).push(mark(es[i as int], false)));
        }
        i = i + 1;
    }
    proof {
        assert(es.take(entries@.len() as int) =~= es);
    }
    out
}

/// Applies the one-hour rule to today's bucket and, when nothing survives
/// of a bucket that had entries, falls back to its last few entries.
fn select_today_entries(entries: &Vec<ForecastEntry>, now: i64) -> (out: Vec<SelectedEntry>)
    requires
        -EPOCH_BOUND <= now <= EPOCH_BOUND,
    ensures
        selected_views(out@) == today_entries(entry_views(entries@), now as int),
{
    let ghost es = entry_views(entries@);
    let cutoff: i64 = now - PAST_GRACE_SECS;
    let mut out: Vec<SelectedEntry> = Vec::new();
    let mut i: usize = 0;
    while i < entries.len()
        invariant
            0 <= i <= entries@.len(),
            es == entry_views(entries@),
            cutoff == now - PAST_GRACE_SECS as int,
            selected_views(out@) == kept_entries(es.take(i as int), now as int),
        decreases entries@.len() - i,
    {
        let ghost prev = out@;
        proof {
            assert(es[i as int] == entries@[i as int]@);
            assert(es.take(i as int + 1).drop_last() =~= es.take(i as int));
            assert(es.take(i as int + 1).last() == es[i as int]);
        }
        if entries[i].time_epoch >= cutoff {
            out.push(mark_entry(&entries[i], false));
            proof {
                assert(selected_views(out@) =~= selected_views(prev).push(out@.last()@));
            }
        }
        i = i + 1;
    }
    proof {
        assert(es.take(entries@.len() as int) =~= es);
    }
    if out.len() == 0 && entries.len() > 0 {
        let start: usize = if entries.len() >= FALLBACK_HOURS {
            entries.len() - FALLBACK_HOURS
        } else {
            0
        };
        proof {
            assert(start as int == es.len() - fallback_count(es.len() as int));
        }
        let mut i: usize = start;
        while i < entries.len()
            invariant
                start <= i <= entries@.len(),
                es == entry_views(entries@),
                selected_views(out@) == marked_all(es.subrange(start as int, i as int), true),
            decreases entries@.len() - i,
        {
            let ghost prev = out@;
            out.push(mark_entry(&entries[i], true));
            proof {
                assert(es[i as int] == entries@[i as int]@);
                assert(es.subrange(start as int, i as int + 1) =~= es.subrange(
                    start as int,
                    i as int,
                ).push(es[i as int]));
                assert(selected_views(out@) =~= selected_views(prev).push(out@.last()@));
                assert(marked_all(es.subrange(start as int, i as int).push(es[i as int]), true)
                    =~= marked_all(es.subrange(start as int, i as int), true).push(
                    mark(es[i as int], true),
                ));
            }
            i = i + 1;
        }
        proof {
            assert(selected_views(out@) == fallback_entries(es));
        }
    }
    out
}

/// Turns one bucket into a day of the selected forecast.
fn select_day(b: &DayBucket, now: i64, tz_offset: i64) -> (d: ForecastDay)
    requires
        -EPOCH_BOUND <= b.date_epoch <= EPOCH_BOUND,
        -EPOCH_BOUND <= now <= EPOCH_BOUND,
        -OFFSET_BOUND <= tz_offset <= OFFSET_BOUND,
    ensures
        d@ == selected_day(b@, now as int, tz_offset as int),
{
    let day = day_number(b.date_epoch, tz_offset);
    let today = day_number(now, tz_offset);
    let is_today = day == today;
    let entries = if is_today {
        select_today_entries(&b.entries, now)
    } else {
        select_all_entries(&b.entries)
    };
    ForecastDay { day, is_today, entries }
}

/// Selects what the display shows: of the given day buckets, in their
/// order, the days whose local calendar date is not before the current
/// one, at most `requested` of them; within today's bucket only the
/// entries at most one hour old — or, when every entry of a non-empty
/// today bucket has aged out, its last few entries marked as past — and
/// every entry flagged when its precipitation chance reaches the fixed
/// threshold.
///
/// `now` is the current instant in epoch seconds and `tz_offset` the
/// viewer's local-time offset from UTC in seconds; both are parameters so
/// that the selection is a pure function of its inputs.
pub fn select_forecast(
    days: &Vec<DayBucket>,
    requested: usize,
    now: i64,
    tz_offset: i64,
) -> (out: Vec<ForecastDay>)
    requires
        1 <= requested,
        -EPOCH_BOUND <= now <= EPOCH_BOUND,
        -OFFSET_BOUND <= tz_offset <= OFFSET_BOUND,
        forall|i: int|
            0 <= i < days@.len() ==> -EPOCH_BOUND <= #[trigger] days@[i].date_epoch <= EPOCH_BOUND,
    ensures
        day_views(out@) == selected_forecast(
            bucket_views(days@),
            requested as int,
            now as int,
            tz_offset as int,
        ),
{
    let ghost dv = bucket_views(days@);
    let today = day_number(now, tz_offset);
    let mut out: Vec<ForecastDay> = Vec::new();
    let mut i: usize = 0;
    proof {
        assert(dv.skip(0) =~= dv);
        assert(day_views(out@) =~= Seq::<DayView>::empty());
        assert(Seq::<DayView>::empty() + selected_days_rec(
            dv,
            requested as int,
            now as int,
            tz_offset as int,
        ) =~= selected_days_rec(dv, requested as int, now as int, tz_offset as int));
    }
    while i < days.len() && out.len() < requested
        invariant
            0 <= i <= days@.len(),
            out@.len() <= requested,
            dv == bucket_views(days@),
            today == local_day(now as int, tz_offset as int),
            -EPOCH_BOUND <= now <= EPOCH_BOUND,
            -OFFSET_BOUND <= tz_offset <= OFFSET_BOUND,
            forall|j: int|
                0 <= j < days@.len() ==> -EPOCH_BOUND <= #[trigger] days@[j].date_epoch
                    <= EPOCH_BOUND,
            selected_days_rec(dv, requested as int, now as int, tz_offset as int) == day_views(out@)
                + selected_days_rec(
                dv.skip(i as int),
                requested - out@.len(),
                now as int,
                tz_offset as int,
            ),
        decreases days@.len() - i,
    {
        let ghost prev = out@;
        let ghost s = dv.skip(i as int);
        proof {
            assert(days@[i as int]@ == dv[i as int]);
            assert(s[0] == dv[i as int]);
            assert(s.drop_first() =~= dv.skip(i as int + 1));
        }
        let d = select_day(&days[i], now, tz_offset);
        if d.day >= today {
            out.push(d);
            proof {
                assert(day_views(out@) =~= day_views(prev).push(out@.last()@));
                assert(day_views(prev).push(selected_day(dv[i as int], now as int, tz_offset as int))
                    + selected_days_rec(
                    dv.skip(i as int + 1),
                    requested - out@.len(),
                    now as int,
                    tz_offset as int,
                ) =~= day_views(prev) + (seq![
                    selected_day(dv[i as int], now as int, tz_offset as int),
                ] + selected_days_rec(
                    dv.skip(i as int + 1),
                    requested - out@.len(),
                    now as int,
                    tz_offset as int,
                )));
            }
        }
        i = i + 1;
    }
    proof {
        if i == days@.len() {
            assert(dv.skip(i as int) =~= Seq::<BucketView>::empty());
        }
        assert(selected_days_rec(
            dv.skip(i as int),
            requested - out@.len(),
            now as int,
            tz_offset as int,
        ) =~= Seq::<DayView>::empty());
        assert(day_views(out@) + Seq::<DayView>::empty() =~= day_views(out@));
    }
    out
}

} // verus!

