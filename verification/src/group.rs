//! Normalization of the flat forecast shape: a chronological list of
//! timestamped entries is folded into day buckets, one bucket per run of
//! entries sharing a local calendar date.

use vstd::prelude::*;
use crate::model::{
    BucketView, DayBucket, EntryView, ForecastEntry, bucket_views, day_number, entry_views,
    local_day, EPOCH_BOUND, OFFSET_BOUND,
};

verus! {

/// Folds one more entry into the buckets built so far: it joins the last
/// bucket when it shares that bucket's local calendar date, and otherwise
/// opens a new bucket dated by its own timestamp.
pub open spec fn grouped_step(acc: Seq<BucketView>, e: EntryView, tz: int) -> Seq<BucketView> {
    if acc.len() > 0 && local_day(acc.last().date_epoch, tz) == local_day(e.time, tz) {
        acc.update(
            acc.len() - 1,
            BucketView { date_epoch: acc.last().date_epoch, entries: acc.last().entries.push(e) },
        )
    } else {
        acc.push(BucketView { date_epoch: e.time, entries: seq![e] })
    }
}

/// The day buckets that folding every entry of `es`, in order, produces.
pub open spec fn grouped_by_day(es: Seq<EntryView>, tz: int) -> Seq<BucketView>
    decreases es.len(),
{
    if es.len() == 0 {
        Seq::empty()
    } else {
        grouped_step(grouped_by_day(es.drop_last(), tz), es.last(), tz)
    }
}

/// All entries of the buckets, concatenated in bucket order.
pub open spec fn flattened(bs: Seq<BucketView>) -> Seq<EntryView>
    decreases bs.len(),
{
    if bs.len() == 0 {
        Seq::empty()
    } else {
        flattened(bs.drop_last()) + bs.last().entries
    }
}

/// Normalization loses nothing and reorders nothing: reading the grouped
/// buckets' entries back in order gives exactly the input sequence.
pub proof fn lemma_grouping_keeps_entries(es: Seq<EntryView>, tz: int)
    ensures
        flattened(grouped_by_day(es, tz)) == es,
    decreases es.len(),
{
    if es.len() == 0 {
        assert(flattened(grouped_by_day(es, tz)) =~= es);
    } else {
        lemma_grouping_keeps_entries(es.drop_last(), tz);
        let acc = grouped_by_day(es.drop_last(), tz);
        let e = es.last();
        if acc.len() > 0 && local_day(acc.last().date_epoch, tz) == local_day(e.time, tz) {
            let joined = BucketView {
                date_epoch: acc.last().date_epoch,
                entries: acc.last().entries.push(e),
            };
            let upd = acc.update(acc.len() - 1, joined);
            assert(grouped_by_day(es, tz) == upd);
            assert(upd.drop_last() =~= acc.drop_last());
            assert(flattened(upd) == flattened(upd.drop_last()) + joined.entries);
            assert(flattened(acc) == flattened(acc.drop_last()) + acc.last().entries);
            assert(flattened(acc.drop_last()) + acc.last().entries.push(e) =~= (flattened(
                acc.drop_last(),
            ) + acc.last().entries).push(e));
            assert(es.drop_last().push(e) =~= es);
        } else {
            let fresh = BucketView { date_epoch: e.time, entries: seq![e] };
            let upd = acc.push(fresh);
            assert(grouped_by_day(es, tz) == upd);
            assert(upd.drop_last() =~= acc);
            assert(flattened(upd) == flattened(upd.drop_last()) + fresh.entries);
            assert(flattened(acc) + seq![e] =~= flattened(acc).push(e));
            assert(es.drop_last().push(e) =~= es);
        }
    }
}

/// Each bucket of the grouping holds entries of one local calendar date:
/// the date of the instant the bucket is tagged with.
pub proof fn lemma_grouping_single_day(es: Seq<EntryView>, tz: int)
    ensures
        forall|i: int, j: int|
            0 <= i < grouped_by_day(es, tz).len() && 0 <= j < grouped_by_day(
                es,
                tz,
            )[i].entries.len() ==> local_day(
                (#[trigger] grouped_by_day(es, tz)[i].entries[j]).time,
                tz,
            ) == local_day(grouped_by_day(es, tz)[i].date_epoch, tz),
    decreases es.len(),
{
    if es.len() == 0 {
    } else {
        lemma_grouping_single_day(es.drop_last(), tz);
        let acc = grouped_by_day(es.drop_last(), tz);
        let g = grouped_by_day(es, tz);
        let e = es.last();
        if acc.len() > 0 && local_day(acc.last().date_epoch, tz) == local_day(e.time, tz) {
            let joined = BucketView {
                date_epoch: acc.last().date_epoch,
                entries: acc.last().entries.push(e),
            };
            assert(g == acc.update(acc.len() - 1, joined));
            assert forall|i: int, j: int|
                0 <= i < g.len() && 0 <= j < g[i].entries.len() implies local_day(
                (#[trigger] g[i].entries[j]).time,
                tz,
            ) == local_day(g[i].date_epoch, tz) by {
                if i < acc.len() - 1 {
                    assert(g[i] == acc[i]);
                } else {
                    assert(g[i] == joined);
                    assert(acc.last() == acc[acc.len() - 1]);
                    if j < acc.last().entries.len() {
                        assert(joined.entries[j] == acc.last().entries[j]);
                    } else {
                        assert(joined.entries[j] == e);
                    }
                }
            }
        } else {
            let fresh = BucketView { date_epoch: e.time, entries: seq![e] };
            assert(g == acc.push(fresh));
            assert forall|i: int, j: int|
                0 <= i < g.len() && 0 <= j < g[i].entries.len() implies local_day(
                (#[trigger] g[i].entries[j]).time,
                tz,
            ) == local_day(g[i].date_epoch, tz) by {
                if i < acc.len() {
                    assert(g[i] == acc[i]);
                } else {
                    assert(g[i] == fresh);
                    assert(fresh.entries[j] == e);
                }
            }
        }
    }
}

/// Groups a flat, chronological list of entries into day buckets by local
/// calendar date, keeping the entries' order; each bucket is dated by its
/// first entry's timestamp.
pub fn group_by_day(entries: &Vec<ForecastEntry>, tz_offset: i64) -> (out: Vec<DayBucket>)
    requires
        -OFFSET_BOUND <= tz_offset <= OFFSET_BOUND,
        forall|i: int|
            0 <= i < entries@.len() ==> -EPOCH_BOUND <= #[trigger] entries@[i].time_epoch
                <= EPOCH_BOUND,
    ensures
        bucket_views(out@) == grouped_by_day(entry_views(entries@), tz_offset as int),
{
    let ghost es = entry_views(entries@);
    let mut out: Vec<DayBucket> = Vec::new();
    let mut i: usize = 0;
    proof {
        assert(bucket_views(out@) =~= Seq::<BucketView>::empty());
    }
    while i < entries.len()
        invariant
            0 <= i <= entries@.len(),
            es == entry_views(entries@),
            -OFFSET_BOUND <= tz_offset <= OFFSET_BOUND,
            forall|j: int|
                0 <= j < entries@.len() ==> -EPOCH_BOUND <= #[trigger] entries@[j].time_epoch
                    <= EPOCH_BOUND,
            forall|j: int|
                0 <= j < out@.len() ==> -EPOCH_BOUND <= #[trigger] out@[j].date_epoch
                    <= EPOCH_BOUND,
            bucket_views(out@) == grouped_by_day(es.take(i as int), tz_offset as int),
        decreases entries@.len() - i,
    {
        let ghost prev = out@;
        let ghost acc = bucket_views(prev);
        proof {
            assert(es[i as int] == entries@[i as int]@);
            assert(es.take(i as int + 1).drop_last() =~= es.take(i as int));
            assert(es.take(i as int + 1).last() == es[i as int]);
        }
        let e = entries[i].clone();
        let mut same_day = false;
        if out.len() > 0 {
            let last_date = out[out.len() - 1].date_epoch;
            proof {
                assert(acc.last() == prev.last()@);
            }
            if day_number(last_date, tz_offset) == day_number(e.time_epoch, tz_offset) {
                same_day = true;
            }
        }
        if same_day {
            let mut b = out.pop().unwrap();
            let ghost popped = b;
            b.entries.push(e);
            out.push(b);
            proof {
                assert(popped == prev.last());
                assert(entry_views(popped.entries@.push(entries@[i as int])) =~= entry_views(
                    popped.entries@,
                ).push(es[i as int]));
                assert(out@.last()@ == BucketView {
                    date_epoch: acc.last().date_epoch,
                    entries: acc.last().entries.push(es[i as int]),
                });
                assert(bucket_views(out@) =~= acc.update(acc.len() - 1, out@.last()@));
            }
        } else {
            let date_epoch = e.time_epoch;
            let mut v: Vec<ForecastEntry> = Vec::new();
            v.push(e);
            out.push(DayBucket { date_epoch, entries: v });
            proof {
                assert(entry_views(out@.last().entries@) =~= seq![es[i as int]]);
                assert(out@.last()@ == BucketView {
                    date_epoch: es[i as int].time,
                    entries: seq![es[i as int]],
                });
                assert(bucket_views(out@) =~= acc.push(out@.last()@));
            }
        }
        i = i + 1;
    }
    proof {
        assert(es.take(entries@.len() as int) =~= es);
    }
    out
}

} // verus!
