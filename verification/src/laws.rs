//! The guarantees of the selection, each stated and proved over the
//! specification functions that `select_forecast`'s contract uses.

use vstd::prelude::*;
use crate::model::{BucketView, EntryView, SelectedEntryView, local_day, HIGH_RAIN_TENTHS};
use crate::select::{
    fallback_count, fallback_entries, keeps_for_today, kept_entries, mark, marked_all,
    selected_day, selected_forecast, today_entries,
};

verus! {

/// The timestamps of the entries never decrease along the sequence.
pub open spec fn times_ascending(es: Seq<EntryView>) -> bool {
    forall|a: int, b: int|
        0 <= a < b < es.len() ==> #[trigger] es[a].time <= #[trigger] es[b].time
}

/// The timestamps of the selected entries never decrease along the sequence.
pub open spec fn sel_times_ascending(es: Seq<SelectedEntryView>) -> bool {
    forall|a: int, b: int|
        0 <= a < b < es.len() ==> #[trigger] es[a].time <= #[trigger] es[b].time
}

/// The high-precipitation flag of a selected entry agrees with the fixed
/// threshold on its own precipitation chance.
pub open spec fn high_flag_correct(s: SelectedEntryView) -> bool {
    s.is_high_rain <==> s.rain_tenths >= HIGH_RAIN_TENTHS as int
}

/// How many buckets of `days` lie on or after the current local date.
pub open spec fn future_day_count(days: Seq<BucketView>, now: int, tz: int) -> int
    decreases days.len(),
{
    if days.len() == 0 {
        0
    } else {
        (if local_day(days[0].date_epoch, tz) >= local_day(now, tz) {
            1int
        } else {
            0int
        }) + future_day_count(days.drop_first(), now, tz)
    }
}

/// No selected day lies before the viewer's current calendar date.
pub proof fn lemma_no_day_before_today(days: Seq<BucketView>, requested: int, now: int, tz: int)
    ensures
        forall|i: int|
            0 <= i < selected_forecast(days, requested, now, tz).len()
                ==> (#[trigger] selected_forecast(days, requested, now, tz)[i]).day >= local_day(
                now,
                tz,
            ),
    decreases days.len(),
{
    if days.len() == 0 || requested <= 0 {
    } else {
        let sel = selected_forecast(days, requested, now, tz);
        let today = local_day(now, tz);
        if local_day(days[0].date_epoch, tz) >= today {
            let rest = selected_forecast(days.drop_first(), requested - 1, now, tz);
            lemma_no_day_before_today(days.drop_first(), requested - 1, now, tz);
            assert forall|i: int| 0 <= i < sel.len() implies (#[trigger] sel[i]).day >= today by {
                if i == 0 {
                    assert(sel[0] == selected_day(days[0], now, tz));
                } else {
                    assert(sel[i] == rest[i - 1]);
                }
            }
        } else {
            lemma_no_day_before_today(days.drop_first(), requested, now, tz);
            assert(sel == selected_forecast(days.drop_first(), requested, now, tz));
        }
    }
}

/// The selection never yields more days than were requested.
pub proof fn lemma_day_count_bounded(days: Seq<BucketView>, requested: int, now: int, tz: int)
    requires
        requested >= 0,
    ensures
        selected_forecast(days, requested, now, tz).len() <= requested,
    decreases days.len(),
{
    if days.len() == 0 || requested <= 0 {
    } else if local_day(days[0].date_epoch, tz) >= local_day(now, tz) {
        lemma_day_count_bounded(days.drop_first(), requested - 1, now, tz);
    } else {
        lemma_day_count_bounded(days.drop_first(), requested, now, tz);
    }
}

/// The selection yields exactly the requested number of days, or every
/// non-past day when fewer than requested are available.
pub proof fn lemma_day_count_exact(days: Seq<BucketView>, requested: int, now: int, tz: int)
    requires
        requested >= 0,
    ensures
        future_day_count(days, now, tz) >= 0,
        selected_forecast(days, requested, now, tz).len() == if requested <= future_day_count(
            days,
            now,
            tz,
        ) {
            requested
        } else {
            future_day_count(days, now, tz)
        },
    decreases days.len(),
{
    if days.len() == 0 {
    } else if requested <= 0 {
        lemma_day_count_exact(days.drop_first(), 0, now, tz);
    } else if local_day(days[0].date_epoch, tz) >= local_day(now, tz) {
        lemma_day_count_exact(days.drop_first(), requested - 1, now, tz);
    } else {
        lemma_day_count_exact(days.drop_first(), requested, now, tz);
    }
}

/// The selected days come out in ascending date order whenever the input
/// buckets are in ascending date order, the viewer's current date first.
pub proof fn lemma_days_ascending(days: Seq<BucketView>, requested: int, now: int, tz: int)
    requires
        forall|a: int, b: int|
            0 <= a < b < days.len() ==> local_day(#[trigger] days[a].date_epoch, tz) <= local_day(
                #[trigger] days[b].date_epoch,
                tz,
            ),
    ensures
        forall|a: int, b: int|
            0 <= a < b < selected_forecast(days, requested, now, tz).len() ==> (
            #[trigger] selected_forecast(days, requested, now, tz)[a]).day <= (
            #[trigger] selected_forecast(days, requested, now, tz)[b]).day,
        days.len() > 0 ==> forall|m: int|
            0 <= m < selected_forecast(days, requested, now, tz).len() ==> (
            #[trigger] selected_forecast(days, requested, now, tz)[m]).day >= local_day(
                days[0].date_epoch,
                tz,
            ),
    decreases days.len(),
{
    if days.len() == 0 || requested <= 0 {
    } else {
        let sel = selected_forecast(days, requested, now, tz);
        let today = local_day(now, tz);
        let tail = days.drop_first();
        assert forall|a: int, b: int| 0 <= a < b < tail.len() implies local_day(
            #[trigger] tail[a].date_epoch,
            tz,
        ) <= local_day(#[trigger] tail[b].date_epoch, tz) by {
            assert(tail[a] == days[a + 1]);
            assert(tail[b] == days[b + 1]);
        }
        if local_day(days[0].date_epoch, tz) >= today {
            let rest = selected_forecast(tail, requested - 1, now, tz);
            lemma_days_ascending(tail, requested - 1, now, tz);
            assert(sel[0] == selected_day(days[0], now, tz));
            assert forall|m: int| 0 <= m < sel.len() implies (#[trigger] sel[m]).day >= local_day(
                days[0].date_epoch,
                tz,
            ) by {
                if m > 0 {
                    assert(sel[m] == rest[m - 1]);
                    if tail.len() > 0 {
                        assert(tail[0] == days[1]);
                        assert(local_day(days[0].date_epoch, tz) <= local_day(
                            days[1].date_epoch,
                            tz,
                        ));
                    }
                }
            }
            assert forall|a: int, b: int| 0 <= a < b < sel.len() implies (
            #[trigger] sel[a]).day <= (#[trigger] sel[b]).day by {
                assert(sel[b] == rest[b - 1]);
                if a > 0 {
                    assert(sel[a] == rest[a - 1]);
                } else {
                    assert(tail[0] == days[1]);
                }
            }
        } else {
            lemma_days_ascending(tail, requested, now, tz);
            assert(sel == selected_forecast(tail, requested, now, tz));
            assert forall|m: int| 0 <= m < sel.len() implies (#[trigger] sel[m]).day >= local_day(
                days[0].date_epoch,
                tz,
            ) by {
                if tail.len() > 0 {
                    assert(tail[0] == days[1]);
                    assert(local_day(days[0].date_epoch, tz) <= local_day(days[1].date_epoch, tz));
                }
            }
        }
    }
}

proof fn lemma_kept_entries_ascending(es: Seq<EntryView>, now: int)
    requires
        times_ascending(es),
    ensures
        sel_times_ascending(kept_entries(es, now)),
        forall|k: int|
            0 <= k < kept_entries(es, now).len()
                ==> (#[trigger] kept_entries(es, now)[k]).time <= es.last().time,
    decreases es.len(),
{
    if es.len() == 0 {
    } else {
        let front = es.drop_last();
        assert forall|a: int, b: int| 0 <= a < b < front.len() implies #[trigger] front[a].time
            <= #[trigger] front[b].time by {
            assert(front[a] == es[a]);
            assert(front[b] == es[b]);
        }
        lemma_kept_entries_ascending(front, now);
        let init = kept_entries(front, now);
        let kept = kept_entries(es, now);
        assert forall|k: int| 0 <= k < init.len() implies init[k].time <= es.last().time by {
            assert(front.last() == es[es.len() - 2]);
            assert(es[es.len() - 2].time <= es[es.len() - 1].time);
        }
        if keeps_for_today(es.last(), now) {
            assert(kept == init.push(mark(es.last(), false)));
            assert forall|a: int, b: int| 0 <= a < b < kept.len() implies #[trigger] kept[a].time
                <= #[trigger] kept[b].time by {
                if b < init.len() {
                    assert(kept[a] == init[a]);
                    assert(kept[b] == init[b]);
                } else {
                    assert(kept[b] == mark(es.last(), false));
                    if a < init.len() {
                        assert(kept[a] == init[a]);
                    }
                }
            }
        }
    }
}

proof fn lemma_marked_all_ascending(es: Seq<EntryView>, past: bool)
    requires
        times_ascending(es),
    ensures
        sel_times_ascending(marked_all(es, past)),
{
    let m = marked_all(es, past);
    assert forall|a: int, b: int| 0 <= a < b < m.len() implies #[trigger] m[a].time
        <= #[trigger] m[b].time by {
        assert(m[a] == mark(es[a], past));
        assert(m[b] == mark(es[b], past));
    }
}

proof fn lemma_today_entries_ascending(es: Seq<EntryView>, now: int)
    requires
        times_ascending(es),
    ensures
        sel_times_ascending(today_entries(es, now)),
{
    lemma_kept_entries_ascending(es, now);
    if kept_entries(es, now).len() == 0 && es.len() > 0 {
        let start = es.len() - fallback_count(es.len() as int);
        let tail = es.subrange(start, es.len() as int);
        assert forall|a: int, b: int| 0 <= a < b < tail.len() implies #[trigger] tail[a].time
            <= #[trigger] tail[b].time by {
            assert(tail[a] == es[start + a]);
            assert(tail[b] == es[start + b]);
        }
        lemma_marked_all_ascending(tail, true);
    }
}

/// Within every selected day the entries keep their non-decreasing
/// timestamp order, provided each incoming bucket is ordered that way —
/// the selection never reorders entries.
pub proof fn lemma_order_kept(days: Seq<BucketView>, requested: int, now: int, tz: int)
    requires
        forall|i: int| 0 <= i < days.len() ==> times_ascending((#[trigger] days[i]).entries),
    ensures
        forall|i: int|
            0 <= i < selected_forecast(days, requested, now, tz).len() ==> sel_times_ascending(
                (#[trigger] selected_forecast(days, requested, now, tz)[i]).entries,
            ),
    decreases days.len(),
{
    if days.len() == 0 || requested <= 0 {
    } else {
        let sel = selected_forecast(days, requested, now, tz);
        let today = local_day(now, tz);
        assert forall|i: int| 0 <= i < days.drop_first().len() implies times_ascending(
            (#[trigger] days.drop_first()[i]).entries,
        ) by {
            assert(days.drop_first()[i] == days[i + 1]);
        }
        if local_day(days[0].date_epoch, tz) >= today {
            let rest = selected_forecast(days.drop_first(), requested - 1, now, tz);
            lemma_order_kept(days.drop_first(), requested - 1, now, tz);
            assert(times_ascending(days[0].entries));
            lemma_today_entries_ascending(days[0].entries, now);
            lemma_marked_all_ascending(days[0].entries, false);
            assert forall|i: int| 0 <= i < sel.len() implies sel_times_ascending(
                (#[trigger] sel[i]).entries,
            ) by {
                if i == 0 {
                    assert(sel[0] == selected_day(days[0], now, tz));
                } else {
                    assert(sel[i] == rest[i - 1]);
                }
            }
        } else {
            lemma_order_kept(days.drop_first(), requested, now, tz);
            assert(sel == selected_forecast(days.drop_first(), requested, now, tz));
        }
    }
}

proof fn lemma_kept_entries_empty(es: Seq<EntryView>, now: int)
    requires
        forall|i: int| 0 <= i < es.len() ==> !keeps_for_today(#[trigger] es[i], now),
    ensures
        kept_entries(es, now).len() == 0,
    decreases es.len(),
{
    if es.len() == 0 {
    } else {
        let front = es.drop_last();
        assert forall|i: int| 0 <= i < front.len() implies !keeps_for_today(
            #[trigger] front[i],
            now,
        ) by {
            assert(front[i] == es[i]);
        }
        lemma_kept_entries_empty(front, now);
        assert(es.last() == es[es.len() - 1]);
    }
}

/// The fallback: when today's bucket has at least one entry and every one
/// of them is more than one hour older than `now`, today shows exactly the
/// bucket's chronologically last `FALLBACK_HOURS` entries — all of them
/// when it had fewer — in their original order, each marked as past.
pub proof fn lemma_fallback_applies(es: Seq<EntryView>, now: int)
    requires
        es.len() >= 1,
        forall|i: int| 0 <= i < es.len() ==> !keeps_for_today(#[trigger] es[i], now),
    ensures
        today_entries(es, now) == fallback_entries(es),
        today_entries(es, now).len() == fallback_count(es.len() as int),
        forall|k: int|
            0 <= k < today_entries(es, now).len() ==> #[trigger] today_entries(es, now)[k] == mark(
                es[es.len() - fallback_count(es.len() as int) + k],
                true,
            ),
        forall|k: int|
            0 <= k < today_entries(es, now).len() ==> (#[trigger] today_entries(es, now)[k]).is_past,
{
    lemma_kept_entries_empty(es, now);
    let start = es.len() - fallback_count(es.len() as int);
    let tail = es.subrange(start, es.len() as int);
    assert(today_entries(es, now) == fallback_entries(es));
    assert forall|k: int| 0 <= k < today_entries(es, now).len() implies #[trigger] today_entries(
        es,
        now,
    )[k] == mark(es[start + k], true) by {
        assert(fallback_entries(es)[k] == mark(tail[k], true));
        assert(tail[k] == es[start + k]);
    }
}

/// A today bucket that had any entries at all never comes back empty:
/// either some entries survive the one-hour rule, or the fallback shows
/// the bucket's last few.
pub proof fn lemma_today_never_empty(es: Seq<EntryView>, now: int)
    requires
        es.len() >= 1,
    ensures
        today_entries(es, now).len() >= 1,
{
    if kept_entries(es, now).len() == 0 {
        let start = es.len() - fallback_count(es.len() as int);
        assert(fallback_entries(es).len() == es.subrange(start, es.len() as int).len());
    }
}

proof fn lemma_kept_entries_flags(es: Seq<EntryView>, now: int)
    ensures
        forall|k: int|
            0 <= k < kept_entries(es, now).len() ==> high_flag_correct(
                #[trigger] kept_entries(es, now)[k],
            ),
    decreases es.len(),
{
    if es.len() == 0 {
    } else {
        lemma_kept_entries_flags(es.drop_last(), now);
        let init = kept_entries(es.drop_last(), now);
        let kept = kept_entries(es, now);
        assert forall|k: int| 0 <= k < kept.len() implies high_flag_correct(
            #[trigger] kept[k],
        ) by {
            if k < init.len() {
                assert(kept[k] == init[k]);
            } else {
                assert(kept[k] == mark(es.last(), false));
            }
        }
    }
}

proof fn lemma_marked_all_flags(es: Seq<EntryView>, past: bool)
    ensures
        forall|k: int|
            0 <= k < marked_all(es, past).len() ==> high_flag_correct(
                #[trigger] marked_all(es, past)[k],
            ),
{
    let m = marked_all(es, past);
    assert forall|k: int| 0 <= k < m.len() implies high_flag_correct(#[trigger] m[k]) by {
        assert(m[k] == mark(es[k], past));
    }
}

proof fn lemma_today_entries_flags(es: Seq<EntryView>, now: int)
    ensures
        forall|k: int|
            0 <= k < today_entries(es, now).len() ==> high_flag_correct(
                #[trigger] today_entries(es, now)[k],
            ),
{
    lemma_kept_entries_flags(es, now);
    if kept_entries(es, now).len() == 0 && es.len() > 0 {
        let start = es.len() - fallback_count(es.len() as int);
        lemma_marked_all_flags(es.subrange(start, es.len() as int), true);
    }
}

/// Every selected entry is flagged as high precipitation exactly when its
/// own precipitation chance reaches the fixed threshold.
pub proof fn lemma_high_rain_flag(days: Seq<BucketView>, requested: int, now: int, tz: int)
    ensures
        forall|i: int, j: int|
            0 <= i < selected_forecast(days, requested, now, tz).len() && 0 <= j
                < selected_forecast(days, requested, now, tz)[i].entries.len()
                ==> high_flag_correct(
                #[trigger] selected_forecast(days, requested, now, tz)[i].entries[j],
            ),
    decreases days.len(),
{
    if days.len() == 0 || requested <= 0 {
    } else {
        let sel = selected_forecast(days, requested, now, tz);
        let today = local_day(now, tz);
        if local_day(days[0].date_epoch, tz) >= today {
            let rest = selected_forecast(days.drop_first(), requested - 1, now, tz);
            lemma_high_rain_flag(days.drop_first(), requested - 1, now, tz);
            lemma_today_entries_flags(days[0].entries, now);
            lemma_marked_all_flags(days[0].entries, false);
            assert forall|i: int, j: int|
                0 <= i < sel.len() && 0 <= j < sel[i].entries.len() implies high_flag_correct(
                #[trigger] sel[i].entries[j],
            ) by {
                if i == 0 {
                    assert(sel[0] == selected_day(days[0], now, tz));
                } else {
                    assert(sel[i] == rest[i - 1]);
                }
            }
        } else {
            lemma_high_rain_flag(days.drop_first(), requested, now, tz);
            assert(sel == selected_forecast(days.drop_first(), requested, now, tz));
        }
    }
}

} // verus!
