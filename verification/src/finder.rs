//! The next-instant finder: the first scheduled (day, hour, minute) strictly
//! after a query point. The query day's remaining buckets are searched first,
//! hours ascending; failing that, the following days are visited in calendar
//! order, each contributing its earliest bucket entry, wrapping around until
//! the walk comes back to the query day and takes its earliest entry; only a
//! schedule with no alarm at all yields nothing.

use crate::schedule::day_model;
use crate::schedule::sched_contains;
use crate::schedule::sched_empty;
use crate::schedule::sched_wf;
use crate::schedule::AlarmTime;
use crate::schedule::WeeklySchedule;
use crate::weekday::day_num;
use crate::weekday::day_of_num;
use crate::weekday::Weekday;
use vstd::prelude::*;

verus! {

/// The first minute in stored order strictly greater than `m0`.
pub open spec fn first_min_after(mins: Seq<usize>, m0: usize) -> Option<usize>
    decreases mins.len(),
{
    if mins.len() == 0 {
        None
    } else if mins[0] > m0 {
        Some(mins[0])
    } else {
        first_min_after(mins.drop_first(), m0)
    }
}

/// Searches one day's buckets from hour `h` upward: an hour past `h0` offers
/// its first stored minute, the hour `h0` itself only a minute past `m0`.
pub open spec fn day_search(ds: Seq<Seq<usize>>, h: int, h0: int, m0: usize) -> Option<
    (usize, usize),
>
    decreases ds.len() - h,
{
    if h < 0 || h >= ds.len() {
        None
    } else {
        let here: Option<usize> = if h > h0 {
            if ds[h].len() > 0 {
                Some(ds[h][0])
            } else {
                None
            }
        } else if h == h0 {
            first_min_after(ds[h], m0)
        } else {
            None
        };
        match here {
            Some(m) => Some(((h as usize), m)),
            None => day_search(ds, h + 1, h0, m0),
        }
    }
}

/// The first instant of the day strictly after hour `h0`, minute `m0`.
pub open spec fn day_next(ds: Seq<Seq<usize>>, h0: int, m0: usize) -> Option<(usize, usize)> {
    day_search(ds, 0, h0, m0)
}

/// The earliest bucket entry of the day, scanning from hour `h` upward.
pub open spec fn first_bucket(ds: Seq<Seq<usize>>, h: int) -> Option<(usize, usize)>
    decreases ds.len() - h,
{
    if h < 0 || h >= ds.len() {
        None
    } else if ds[h].len() > 0 {
        Some(((h as usize), ds[h][0]))
    } else {
        first_bucket(ds, h + 1)
    }
}

/// The first instant found on the days `off..=7` steps after day `d0`, in
/// calendar order; the seventh step is the query day itself, searched whole.
pub open spec fn find_other_days(s: Seq<Seq<Seq<usize>>>, d0: int, off: int) -> Option<AlarmTime>
    decreases 8 - off,
{
    if off < 1 || off >= 8 {
        None
    } else {
        let d = (d0 + off) % 7;
        match first_bucket(s[d], 0) {
            Some((h, m)) => Some(AlarmTime { day: day_of_num(d), hour: h, min: m }),
            None => find_other_days(s, d0, off + 1),
        }
    }
}

/// The next scheduled instant strictly after minute `m0` of hour `h0` on day
/// `d0`: a same-day candidate wins over every later day; with none, the first
/// entry of the nearest following day is taken; a schedule that offers
/// neither has no instant at all.
pub open spec fn find_next_spec(
    s: Seq<Seq<Seq<usize>>>,
    d0: int,
    h0: int,
    m0: usize,
) -> Option<AlarmTime> {
    match day_next(s[d0], h0, m0) {
        Some((h, m)) => Some(AlarmTime { day: day_of_num(d0), hour: h, min: m }),
        None => find_other_days(s, d0, 1),
    }
}

/// A found minute is a stored minute past `m0`.
proof fn lemma_first_min_after_in(mins: Seq<usize>, m0: usize)
    ensures
        first_min_after(mins, m0) matches Some(m) ==> mins.contains(m) && m > m0,
    decreases mins.len(),
{
    if mins.len() > 0 && !(mins[0] > m0) {
        lemma_first_min_after_in(mins.drop_first(), m0);
        if first_min_after(mins.drop_first(), m0) is Some {
            let m = first_min_after(mins.drop_first(), m0).unwrap();
            assert(mins.drop_first().contains(m));
            let q = choose|q: int|
                0 <= q < mins.drop_first().len() && mins.drop_first()[q] == m;
            assert(mins[q + 1] == m);
        }
    }
}

/// A day-search hit lies in the searched day, at or past `h`.
proof fn lemma_day_search_in(ds: Seq<Seq<usize>>, h: int, h0: int, m0: usize)
    requires
        ds.len() <= usize::MAX,
    ensures
        day_search(ds, h, h0, m0) matches Some(hm) ==> h <= hm.0 < ds.len() && ds[
            hm.0 as int
        ].contains(hm.1),
    decreases ds.len() - h,
{
    if 0 <= h < ds.len() {
        if h == h0 {
            lemma_first_min_after_in(ds[h], m0);
        }
        if h > h0 && ds[h].len() > 0 {
            let v = ds[h][0];
            assert(ds[h].contains(v));
        }
        lemma_day_search_in(ds, h + 1, h0, m0);
    }
}

/// A first-bucket hit lies in the searched day, at or past `h`.
proof fn lemma_first_bucket_in(ds: Seq<Seq<usize>>, h: int)
    requires
        ds.len() <= usize::MAX,
    ensures
        first_bucket(ds, h) matches Some(hm) ==> h <= hm.0 < ds.len() && ds[
            hm.0 as int
        ].contains(hm.1),
    decreases ds.len() - h,
{
    if 0 <= h < ds.len() {
        if ds[h].len() > 0 {
            let v = ds[h][0];
            assert(ds[h].contains(v));
        }
        lemma_first_bucket_in(ds, h + 1);
    }
}

/// What the finder returns is a scheduled instant on the clock face.
pub proof fn lemma_find_next_in_schedule(s: Seq<Seq<Seq<usize>>>, d0: int, h0: int, m0: usize)
    requires
        sched_wf(s),
        0 <= d0 < 7,
    ensures
        find_next_spec(s, d0, h0, m0) matches Some(a) ==> a.wf() && sched_contains(
            s,
            day_num(a.day),
            a.hour as int,
            a.min,
        ),
{
    lemma_day_search_in(s[d0], 0, h0, m0);
    lemma_other_days_in(s, d0, 1);
}

/// Every hit on a later day is a scheduled instant on the clock face.
proof fn lemma_other_days_in(s: Seq<Seq<Seq<usize>>>, d0: int, off: int)
    requires
        sched_wf(s),
        0 <= d0 < 7,
        1 <= off < 8,
    ensures
        find_other_days(s, d0, off) matches Some(a) ==> a.wf() && sched_contains(
            s,
            day_num(a.day),
            a.hour as int,
            a.min,
        ),
    decreases 8 - off,
{
    let d = (d0 + off) % 7;
    assert(0 <= d < 7);
    lemma_first_bucket_in(s[d], 0);
    if off + 1 < 8 {
        lemma_other_days_in(s, d0, off + 1);
    }
}

/// An empty schedule yields no next instant, whatever the query point.
pub proof fn lemma_find_next_empty(s: Seq<Seq<Seq<usize>>>, d0: int, h0: int, m0: usize)
    requires
        sched_wf(s),
        sched_empty(s),
        0 <= d0 < 7,
    ensures
        find_next_spec(s, d0, h0, m0) is None,
{
    lemma_day_search_none(s[d0], 0, h0, m0);
    lemma_other_days_none(s, d0, 1);
}

/// A day with no hit from `h` onward has only empty buckets there.
proof fn lemma_first_bucket_none(ds: Seq<Seq<usize>>, h: int)
    requires
        0 <= h,
        first_bucket(ds, h) is None,
    ensures
        forall|hh: int| h <= hh < ds.len() ==> #[trigger] ds[hh].len() == 0,
    decreases ds.len() - h,
{
    if h < ds.len() {
        lemma_first_bucket_none(ds, h + 1);
    }
}

/// A fruitless walk leaves every visited day without a first entry.
proof fn lemma_other_days_all_none(s: Seq<Seq<Seq<usize>>>, d0: int, off: int)
    requires
        1 <= off,
        find_other_days(s, d0, off) is None,
    ensures
        forall|o: int|
            off <= o < 8 ==> #[trigger] first_bucket(s[(d0 + o) % 7], 0) is None,
    decreases 8 - off,
{
    if off < 8 {
        lemma_other_days_all_none(s, d0, off + 1);
    }
}

/// A finder that comes back empty-handed was looking at an empty schedule.
pub proof fn lemma_find_next_none_means_empty(s: Seq<Seq<Seq<usize>>>, d0: int, h0: int, m0: usize)
    requires
        sched_wf(s),
        0 <= d0 < 7,
        find_next_spec(s, d0, h0, m0) is None,
    ensures
        sched_empty(s),
{
    lemma_other_days_all_none(s, d0, 1);
    assert forall|d: int, h: int| 0 <= d < 7 && 0 <= h < 24 implies #[trigger] s[d][h].len()
        == 0 by {
        let o = if d > d0 {
            d - d0
        } else {
            d - d0 + 7
        };
        assert(1 <= o < 8);
        assert((d0 + o) % 7 == d);
        assert(first_bucket(s[d], 0) is None);
        lemma_first_bucket_none(s[d], 0);
    }
}

/// A day with only empty buckets has no hit.
proof fn lemma_day_search_none(ds: Seq<Seq<usize>>, h: int, h0: int, m0: usize)
    requires
        forall|hh: int| 0 <= hh < ds.len() ==> #[trigger] ds[hh].len() == 0,
    ensures
        day_search(ds, h, h0, m0) is None,
        first_bucket(ds, h) is None,
    decreases ds.len() - h,
{
    if 0 <= h < ds.len() {
        lemma_day_search_none(ds, h + 1, h0, m0);
    }
}

/// Later days of an empty schedule have no hit either.
proof fn lemma_other_days_none(s: Seq<Seq<Seq<usize>>>, d0: int, off: int)
    requires
        sched_wf(s),
        sched_empty(s),
        0 <= d0 < 7,
        1 <= off,
    ensures
        find_other_days(s, d0, off) is None,
    decreases 8 - off,
{
    if off < 8 {
        let d = (d0 + off) % 7;
        assert(0 <= d < 7);
        lemma_day_search_none(s[d], 0, 0, 0);
        lemma_other_days_none(s, d0, off + 1);
    }
}

/// The first stored minute of this day's buckets strictly after `(current_hour,
/// current_minute)`, searching hours ascending; `None` when the rest of the day
/// is clear.
#[verifier::loop_isolation(false)]
pub fn find_next_for_today(day_hours: &Vec<Vec<usize>>, current_hour: usize, current_minute: usize)
    -> (r: Option<(usize, usize)>)
    requires
        day_hours@.len() == 24,
    ensures
        r == day_next(day_model(*day_hours), current_hour as int, current_minute),
{
    let ghost ds = day_model(*day_hours);
    let mut h: usize = 0;
    while h < 24
        invariant
            h <= 24,
            day_next(ds, current_hour as int, current_minute) == day_search(
                ds,
                h as int,
                current_hour as int,
                current_minute,
            ),
        decreases 24 - h,
    {
        if h > current_hour {
            if day_hours[h].len() > 0 {
                let m = day_hours[h][0];
                proof {
                    assert(ds[h as int][0] == m);
                }
                return Some((h, m));
            }
        } else if h == current_hour {
            let mins = &day_hours[h];
            proof {
                assert(ds[h as int].skip(0) =~= ds[h as int]);
            }
            let mut q: usize = 0;
            while q < mins.len()
                invariant
                    q <= mins@.len(),
                    mins@ == ds[h as int],
                    first_min_after(ds[h as int], current_minute) == first_min_after(
                        ds[h as int].skip(q as int),
                        current_minute,
                    ),
                decreases mins@.len() - q,
            {
                if mins[q] > current_minute {
                    proof {
                        assert(ds[h as int].skip(q as int)[0] == mins@[q as int]);
                    }
                    return Some((h, mins[q]));
                }
                proof {
                    assert(ds[h as int].skip(q as int).drop_first() =~= ds[h as int].skip(
                        q as int + 1,
                    ));
                    assert(ds[h as int].skip(q as int)[0] == mins@[q as int]);
                }
                q += 1;
            }
            proof {
                assert(ds[h as int].skip(mins@.len() as int).len() == 0);
            }
        }
        h += 1;
    }
    None
}

/// The earliest bucket entry of the day, or `None` when the day is clear.
#[verifier::loop_isolation(false)]
fn first_entry(day_hours: &Vec<Vec<usize>>) -> (r: Option<(usize, usize)>)
    requires
        day_hours@.len() == 24,
    ensures
        r == first_bucket(day_model(*day_hours), 0),
{
    let ghost ds = day_model(*day_hours);
    let mut h: usize = 0;
    while h < 24
        invariant
            h <= 24,
            first_bucket(ds, 0) == first_bucket(ds, h as int),
        decreases 24 - h,
    {
        if day_hours[h].len() > 0 {
            let m = day_hours[h][0];
            proof {
                assert(ds[h as int][0] == m);
            }
            return Some((h, m));
        }
        h += 1;
    }
    None
}

/// The next scheduled instant strictly after the query point: first the rest
/// of the query day, then the following days in calendar order. `None`
/// exactly when the whole week holds nothing after the query point, which for
/// a wrapping search means the schedule is empty on every other day and the
/// query day has nothing left.
#[verifier::loop_isolation(false)]
pub fn find_next_alarm(
    alarms: &WeeklySchedule,
    current_day: Weekday,
    current_hour: usize,
    current_minute: usize,
) -> (r: Option<AlarmTime>)
    requires
        alarms.wf(),
    ensures
        r == find_next_spec(alarms.model(), day_num(current_day), current_hour as int,
            current_minute),
        r matches Some(a) ==> a.wf() && sched_contains(
            alarms.model(),
            day_num(a.day),
            a.hour as int,
            a.min,
        ),
        r is None <==> sched_empty(alarms.model()),
{
    proof {
        alarms.lemma_model();
        lemma_find_next_in_schedule(
            alarms.model(),
            day_num(current_day),
            current_hour as int,
            current_minute,
        );
        if sched_empty(alarms.model()) {
            lemma_find_next_empty(
                alarms.model(),
                day_num(current_day),
                current_hour as int,
                current_minute,
            );
        }
        if find_next_spec(alarms.model(), day_num(current_day), current_hour as int,
            current_minute) is None {
            lemma_find_next_none_means_empty(
                alarms.model(),
                day_num(current_day),
                current_hour as int,
                current_minute,
            );
        }
    }
    let ghost s = alarms.model();
    let ghost d0 = day_num(current_day);
    let dn = current_day.number();
    if let Some((h, m)) = find_next_for_today(&alarms.days[dn], current_hour, current_minute) {
        return Some(AlarmTime { day: current_day, hour: h, min: m });
    }
    let mut off: usize = 1;
    let mut day_to_check = current_day.succ();
    while off < 8
        invariant
            1 <= off <= 8,
            day_num(day_to_check) == (d0 + off) % 7,
            find_other_days(s, d0, 1) == find_other_days(s, d0, off as int),
        decreases 8 - off,
    {
        let dc = day_to_check.number();
        if let Some((h, m)) = first_entry(&alarms.days[dc]) {
            return Some(AlarmTime { day: day_to_check, hour: h, min: m });
        }
        day_to_check = day_to_check.succ();
        off += 1;
    }
    None
}

} // verus!
