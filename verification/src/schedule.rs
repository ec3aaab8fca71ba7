//! The compiled weekly table: for each day of the week and each hour, the
//! minutes at which an alarm fires. A missing hour bucket is an empty minute
//! list; a present bucket is never empty.

use crate::weekday::day_num;
use crate::weekday::day_of_num;
use crate::weekday::Weekday;
use vstd::prelude::*;

verus! {

/// One concrete weekly instant.
#[derive(Clone, Copy, Debug, PartialEq, Eq, Structural)]
pub struct AlarmTime {
    pub day: Weekday,
    pub hour: usize,
    pub min: usize,
}

impl AlarmTime {
    /// Hour and minute lie on the clock face.
    pub open spec fn wf(self) -> bool {
        self.hour < 24 && self.min < 60
    }
}

/// The mathematical shape of a weekly table: seven days, twenty-four hour
/// buckets each, every minute on the clock face.
pub open spec fn sched_wf(s: Seq<Seq<Seq<usize>>>) -> bool {
    &&& s.len() == 7
    &&& forall|d: int| 0 <= d < 7 ==> #[trigger] s[d].len() == 24
    &&& forall|d: int, h: int, q: int|
        0 <= d < 7 && 0 <= h < 24 && 0 <= q < s[d][h].len() ==> #[trigger] s[d][h][q] < 60
}

/// No day has any minute scheduled.
pub open spec fn sched_empty(s: Seq<Seq<Seq<usize>>>) -> bool {
    forall|d: int, h: int| 0 <= d < 7 && 0 <= h < 24 ==> #[trigger] s[d][h].len() == 0
}

/// Minute `m` is scheduled on day `d` at hour `h`.
pub open spec fn sched_contains(s: Seq<Seq<Seq<usize>>>, d: int, h: int, m: usize) -> bool {
    0 <= d < 7 && 0 <= h < 24 && s[d][h].contains(m)
}

/// The view of one day's hour buckets.
pub open spec fn day_model(day: Vec<Vec<usize>>) -> Seq<Seq<usize>> {
    day@.map_values(|v: Vec<usize>| v@)
}

/// One bucket's instants, in stored minute order.
pub open spec fn bucket_instants(d: int, h: int, mins: Seq<usize>) -> Seq<AlarmTime> {
    mins.map(|q: int, m: usize| AlarmTime { day: day_of_num(d), hour: h as usize, min: m })
}

/// The instants of day `d` among its first `h` hour buckets, hours ascending.
pub open spec fn day_instants_upto(d: int, ds: Seq<Seq<usize>>, h: int) -> Seq<AlarmTime>
    decreases h,
{
    if h <= 0 {
        Seq::empty()
    } else {
        day_instants_upto(d, ds, h - 1) + bucket_instants(d, h - 1, ds[h - 1])
    }
}

/// All instants of one day, hours ascending, minutes in bucket order.
pub open spec fn day_instants(d: int, ds: Seq<Seq<usize>>) -> Seq<AlarmTime> {
    day_instants_upto(d, ds, ds.len() as int)
}

/// The instants of the first `d` days.
pub open spec fn sched_instants_upto(s: Seq<Seq<Seq<usize>>>, d: int) -> Seq<AlarmTime>
    decreases d,
{
    if d <= 0 {
        Seq::empty()
    } else {
        sched_instants_upto(s, d - 1) + day_instants(d - 1, s[d - 1])
    }
}

/// All instants of the week, days ascending from Monday, then hours, then
/// bucket order.
pub open spec fn sched_instants(s: Seq<Seq<Seq<usize>>>) -> Seq<AlarmTime> {
    sched_instants_upto(s, s.len() as int)
}

/// The compiled weekly table.
#[derive(Debug)]
pub struct WeeklySchedule {
    pub(crate) days: Vec<Vec<Vec<usize>>>,
}

impl WeeklySchedule {
    /// The table as nested sequences, indexed day (Monday first), then hour.
    pub closed spec fn model(&self) -> Seq<Seq<Seq<usize>>> {
        self.days@.map_values(|d: Vec<Vec<usize>>| day_model(d))
    }

    pub open spec fn wf(&self) -> bool {
        sched_wf(self.model())
    }

    /// A table with no alarms at all.
    pub fn new() -> (s: WeeklySchedule)
        ensures
            s.wf(),
            sched_empty(s.model()),
    {
        let mut days: Vec<Vec<Vec<usize>>> = Vec::new();
        while days.len() < 7
            invariant
                days@.len() <= 7,
                forall|d: int|
                    0 <= d < days@.len() ==> #[trigger] day_model(days@[d]) =~= Seq::new(
                        24,
                        |h: int| Seq::<usize>::empty(),
                    ),
            decreases 7 - days@.len(),
        {
            let mut hours: Vec<Vec<usize>> = Vec::new();
            while hours.len() < 24
                invariant
                    hours@.len() <= 24,
                    forall|h: int| 0 <= h < hours@.len() ==> #[trigger] hours@[h]@ =~= Seq::<
                        usize,
                    >::empty(),
                decreases 24 - hours@.len(),
            {
                hours.push(Vec::new());
            }
            proof {
                assert(day_model(hours) =~= Seq::new(24, |h: int| Seq::<usize>::empty()));
            }
            days.push(hours);
        }
        let s = WeeklySchedule { days };
        proof {
            assert(forall|d: int, h: int|
                0 <= d < 7 && 0 <= h < 24 ==> #[trigger] s.model()[d][h] =~= Seq::<usize>::empty());
        }
        s
    }

    /// How the table relates to its underlying day vectors.
    pub(crate) proof fn lemma_model(&self)
        ensures
            self.days@.len() == self.model().len(),
            forall|d: int|
                0 <= d < self.days@.len() ==> #[trigger] self.model()[d] == day_model(
                    self.days@[d],
                ),
    {
    }

    /// The minutes scheduled for `day` at hour `hour`, ascending while rules
    /// do not overlap; empty when nothing is scheduled then.
    pub fn minutes(&self, day: Weekday, hour: usize) -> (r: &Vec<usize>)
        requires
            self.wf(),
            hour < 24,
        ensures
            r@ == self.model()[day_num(day)][hour as int],
    {
        let d = day.number();
        proof {
            assert(self.model()[d as int] == day_model(self.days@[d as int]));
            assert(self.model()[d as int][hour as int] == self.days@[d as int]@[hour as int]@);
            assert(self.days@[d as int]@.len() == 24);
        }
        &self.days[d][hour]
    }

    /// Every instant of the week, days ascending from Monday, then hours
    /// ascending, then stored minute order.
    #[verifier::loop_isolation(false)]
    pub fn instants(&self) -> (r: Vec<AlarmTime>)
        requires
            self.wf(),
        ensures
            r@ == sched_instants(self.model()),
            forall|i: int| 0 <= i < r@.len() ==> (#[trigger] r@[i]).wf(),
    {
        let ghost s = self.model();
        proof {
            self.lemma_model();
        }
        let mut r: Vec<AlarmTime> = Vec::new();
        let mut d: usize = 0;
        while d < 7
            invariant
                d <= 7,
                r@ == sched_instants_upto(s, d as int),
                forall|i: int| 0 <= i < r@.len() ==> (#[trigger] r@[i]).wf(),
            decreases 7 - d,
        {
            let day = Weekday::from_number(d);
            let ghost ds = s[d as int];
            let mut h: usize = 0;
            while h < 24
                invariant
                    h <= 24,
                    r@ == sched_instants_upto(s, d as int) + day_instants_upto(
                        d as int,
                        ds,
                        h as int,
                    ),
                    forall|i: int| 0 <= i < r@.len() ==> (#[trigger] r@[i]).wf(),
                decreases 24 - h,
            {
                proof {
                    assert(self.days@.len() == self.model().len());
                    assert(self.model()[d as int] == day_model(self.days@[d as int]));
                    assert(self.model()[d as int].len() == 24);
                    assert(day_model(self.days@[d as int]).len() == self.days@[d as int]@.len());
                    assert(self.days@[d as int]@.len() == 24);
                    assert(day_model(self.days@[d as int])[h as int] == self.days@[d as int]@[h as int]@);
                }
                let mins = &self.days[d][h];
                proof {
                    assert(mins@ == ds[h as int]);
                }
                let mut q: usize = 0;
                while q < mins.len()
                    invariant
                        q <= mins@.len(),
                        r@ == sched_instants_upto(s, d as int) + day_instants_upto(
                            d as int,
                            ds,
                            h as int,
                        ) + bucket_instants(d as int, h as int, ds[h as int].subrange(
                            0,
                            q as int,
                        )),
                        forall|i: int| 0 <= i < r@.len() ==> (#[trigger] r@[i]).wf(),
                    decreases mins@.len() - q,
                {
                    let m = mins[q];
                    r.push(AlarmTime { day, hour: h, min: m });
                    proof {
                        assert(bucket_instants(d as int, h as int, ds[h as int].subrange(
                            0,
                            q as int + 1,
                        )) =~= bucket_instants(d as int, h as int, ds[h as int].subrange(
                            0,
                            q as int,
                        )).push(AlarmTime { day: day_of_num(d as int), hour: h, min: m }));
                        assert(r@ =~= sched_instants_upto(s, d as int) + day_instants_upto(
                            d as int,
                            ds,
                            h as int,
                        ) + bucket_instants(d as int, h as int, ds[h as int].subrange(
                            0,
                            q as int + 1,
                        )));
                    }
                    q += 1;
                }
                proof {
                    assert(ds[h as int].subrange(0, ds[h as int].len() as int) =~= ds[h as int]);
                    assert(r@ =~= sched_instants_upto(s, d as int) + day_instants_upto(
                        d as int,
                        ds,
                        h as int + 1,
                    ));
                }
                h += 1;
            }
            proof {
                assert(r@ =~= sched_instants_upto(s, d as int + 1));
            }
            d += 1;
        }
        r
    }

    /// True when no alarm is scheduled in the whole week.
    pub fn is_empty(&self) -> (r: bool)
        requires
            self.wf(),
        ensures
            r == sched_empty(self.model()),
    {
        let mut d: usize = 0;
        while d < 7
            invariant
                self.wf(),
                d <= 7,
                forall|dd: int, h: int|
                    0 <= dd < d && 0 <= h < 24 ==> #[trigger] self.model()[dd][h].len() == 0,
            decreases 7 - d,
        {
            let mut h: usize = 0;
            while h < 24
                invariant
                    self.wf(),
                    d < 7,
                    h <= 24,
                    forall|hh: int|
                        0 <= hh < h ==> #[trigger] self.model()[d as int][hh].len() == 0,
                decreases 24 - h,
            {
                proof {
                    assert(self.model()[d as int] == day_model(self.days@[d as int]));
                    assert(self.model()[d as int][h as int] == self.days@[d as int]@[h as int]@);
                    assert(self.days@[d as int]@.len() == 24);
                }
                if self.days[d][h].len() > 0 {
                    return false;
                }
                h = h + 1;
            }
            d = d + 1;
        }
        true
    }
}

} // verus!
