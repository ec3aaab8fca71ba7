//! Calendar arithmetic: how many seconds separate the present wall-clock
//! reading from the next concrete occurrence of a weekly instant. All times
//! are local wall clock at whole-second resolution; a day is 86400 seconds
//! and a week 604800.

use crate::schedule::AlarmTime;
use crate::weekday::day_num;
use crate::weekday::Weekday;
use vstd::prelude::*;

verus! {

/// Seconds in one week.
pub const WEEK_SECONDS: u64 = 604800;

/// A local wall-clock reading.
#[derive(Clone, Copy, Debug, PartialEq, Eq, Structural)]
pub struct NowTime {
    pub day: Weekday,
    pub hour: usize,
    pub min: usize,
    pub sec: usize,
}

impl NowTime {
    /// The reading lies on the clock face.
    pub open spec fn wf(self) -> bool {
        self.hour < 24 && self.min < 60 && self.sec < 60
    }
}

/// Seconds since midnight.
pub open spec fn sec_of_day(h: int, m: int, s: int) -> int {
    h * 3600 + m * 60 + s
}

/// Seconds until the instant's occurrence in the coming week: full days
/// forward to the instant's weekday (a full seven when that weekday is
/// today), plus the difference of the times of day.
pub open spec fn next_week_secs(a: AlarmTime, now: NowTime) -> int {
    let days = ((6 - day_num(now.day)) + day_num(a.day)) % 7 + 1;
    days * 86400 + sec_of_day(a.hour as int, a.min as int, 0) - sec_of_day(
        now.hour as int,
        now.min as int,
        now.sec as int,
    )
}

/// Seconds until the instant's first occurrence: the same-day difference when
/// the instant's time of day is still ahead today, else the coming week's
/// occurrence.
pub open spec fn first_alarm_secs(a: AlarmTime, now: NowTime) -> int {
    if now.day == a.day && sec_of_day(a.hour as int, a.min as int, 0) > sec_of_day(
        now.hour as int,
        now.min as int,
        now.sec as int,
    ) {
        sec_of_day(a.hour as int, a.min as int, 0) - sec_of_day(
            now.hour as int,
            now.min as int,
            now.sec as int,
        )
    } else {
        next_week_secs(a, now)
    }
}

/// The number of whole days to step forward to reach the instant's weekday,
/// wrapping past Sunday; today's weekday costs a full seven.
pub fn days_to_advance(a: &AlarmTime, now: &NowTime) -> (d: u64)
    ensures
        d == ((6 - day_num(now.day)) + day_num(a.day)) % 7 + 1,
        1 <= d <= 7,
{
    let today = now.day.number() as u64;
    let alarm_day = a.day.number() as u64;
    let d = ((6 - today) + alarm_day) % 7 + 1;
    proof {
        assert(today == day_num(now.day) && today <= 6);
    }
    d
}

/// Seconds until the instant's occurrence in the coming week.
pub fn seconds_till_next_week_alarm(a: &AlarmTime, now: &NowTime) -> (r: u64)
    requires
        a.wf(),
        now.wf(),
    ensures
        r == next_week_secs(*a, *now),
        0 < r,
{
    let days = days_to_advance(a, now);
    let target: u64 = days * 86400 + (a.hour as u64) * 3600 + (a.min as u64) * 60;
    let from_midnight: u64 = (now.hour as u64) * 3600 + (now.min as u64) * 60 + (now.sec as u64);
    target - from_midnight
}

/// Seconds until the instant's first occurrence from the given reading;
/// always positive, and never more than a full week.
pub fn seconds_till_first_alarm(a: &AlarmTime, now: &NowTime) -> (r: u64)
    requires
        a.wf(),
        now.wf(),
    ensures
        r == first_alarm_secs(*a, *now),
        0 < r <= WEEK_SECONDS,
{
    let target_sod: u64 = (a.hour as u64) * 3600 + (a.min as u64) * 60;
    let now_sod: u64 = (now.hour as u64) * 3600 + (now.min as u64) * 60 + (now.sec as u64);
    if now.day.number() == a.day.number() && target_sod > now_sod {
        proof {
            assert(day_num(now.day) == day_num(a.day) ==> now.day == a.day);
        }
        target_sod - now_sod
    } else {
        let r = seconds_till_next_week_alarm(a, now);
        proof {
            assert(day_num(now.day) == day_num(a.day) ==> now.day == a.day);
            assert(((6 - day_num(now.day)) + day_num(a.day)) % 7 + 1 <= 7);
            if now.day == a.day {
                assert(((6 - day_num(now.day)) + day_num(a.day)) % 7 == 6);
            }
        }
        r
    }
}

/// Relies on `chrono::Local::now` and chrono's `Datelike` / `Timelike`
/// accessors: `num_days_from_monday` returns 0 through 6 (Monday first),
/// `hour` 0 through 23, `minute` and `second` 0 through 59.
#[verifier::external_body]
pub fn local_now() -> (now: NowTime)
    ensures
        now.wf(),
{
    let t = chrono::Local::now();
    let n = chrono::Datelike::weekday(&t).num_days_from_monday() as usize;
    NowTime {
        day: Weekday::from_number(n),
        hour: chrono::Timelike::hour(&t) as usize,
        min: chrono::Timelike::minute(&t) as usize,
        sec: chrono::Timelike::second(&t) as usize,
    }
}

/// Seconds until the instant's first occurrence, measured from the present
/// local wall-clock reading; always positive, never more than a week.
pub fn seconds_till_first_alarm_from_now(a: &AlarmTime) -> (r: u64)
    requires
        a.wf(),
    ensures
        0 < r <= WEEK_SECONDS,
{
    let now = local_now();
    seconds_till_first_alarm(a, &now)
}

} // verus!
