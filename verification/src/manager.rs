//! The schedule orchestrator. It owns the live generation of instant timers:
//! on every rule change it validates the whole set atomically, recompiles,
//! retires the old generation by stepping the generation counter (whose
//! cancellation the runner broadcasts), arms one timer record per compiled
//! instant sorted by first-fire delay, and keeps the cyclic previous/next
//! cursor that reporting walks after every fire.

use crate::calendar::first_alarm_secs;
use crate::calendar::seconds_till_first_alarm;
use crate::calendar::NowTime;
use crate::compiler::compiled;
use crate::compiler::get_alarms;
use crate::compiler::rule_valid;
use crate::compiler::rules_check;
use crate::compiler::validate_rules;
use crate::compiler::Rule;
use crate::compiler::RuleError;
use crate::cyclic::WrappingVec;
use crate::schedule::sched_empty;
use crate::schedule::sched_instants;
use crate::schedule::AlarmTime;
use crate::schedule::WeeklySchedule;
use vstd::prelude::*;

verus! {

/// One armed instant: the delay until its first fire, and the instant.
#[derive(Clone, Copy, Debug, PartialEq, Eq, Structural)]
pub struct TimerRecord {
    pub delay: u64,
    pub instant: AlarmTime,
}

/// Ascending first-fire delays.
pub open spec fn sorted_by_delay(ts: Seq<TimerRecord>) -> bool {
    forall|i: int, j: int| 0 <= i <= j < ts.len() ==> ts[i].delay <= ts[j].delay
}

/// Every record's delay is the delay of its own instant from `now`.
pub open spec fn delays_from(ts: Seq<TimerRecord>, now: NowTime) -> bool {
    forall|i: int|
        0 <= i < ts.len() ==> (#[trigger] ts[i]).delay == first_alarm_secs(ts[i].instant, now)
}

/// What one accepted rule change hands to the runner: the notification pair,
/// the records to arm, and the generation they belong to.
#[derive(Debug)]
pub struct ScheduleChange {
    /// The previously fired instant, empty before any fire.
    pub previous: Option<AlarmTime>,
    /// The soonest instant of the new generation, empty for an empty set.
    pub next: Option<AlarmTime>,
    /// The new generation's records, ascending by delay.
    pub spawn: Vec<TimerRecord>,
    /// The generation the records belong to; all older generations are
    /// cancelled.
    pub generation: u64,
}

/// The schedule orchestrator.
pub struct AlarmManager {
    schedule: WeeklySchedule,
    timers: WrappingVec<TimerRecord>,
    generation: u64,
    prev_alarm: Option<AlarmTime>,
}

impl AlarmManager {
    /// The compiled table now in force.
    pub closed spec fn sched_model(&self) -> Seq<Seq<Seq<usize>>> {
        self.schedule.model()
    }

    /// The live generation's records, ascending by delay.
    pub closed spec fn timers_seq(&self) -> Seq<TimerRecord> {
        self.timers.items()
    }

    /// The cyclic cursor into the live records.
    pub closed spec fn cursor(&self) -> int {
        self.timers.cursor()
    }

    /// The number of the live generation.
    pub closed spec fn generation_id(&self) -> u64 {
        self.generation
    }

    /// The last fired instant, empty before any fire.
    pub closed spec fn prev_fired(&self) -> Option<AlarmTime> {
        self.prev_alarm
    }

    /// The table is well formed, the cursor is inside the records (at zero
    /// when there are none), and the records are ascending by delay.
    pub open spec fn wf(&self) -> bool {
        &&& crate::schedule::sched_wf(self.sched_model())
        &&& (self.timers_seq().len() == 0 ==> self.cursor() == 0)
        &&& (self.timers_seq().len() > 0 ==> 0 <= self.cursor() < self.timers_seq().len())
        &&& sorted_by_delay(self.timers_seq())
    }

    /// A fresh orchestrator: empty table, no timers, no generation yet.
    pub fn new() -> (m: AlarmManager)
        ensures
            m.wf(),
            sched_empty(m.sched_model()),
            m.timers_seq().len() == 0,
            m.cursor() == 0,
            m.generation_id() == 0,
            m.prev_fired() is None,
    {
        AlarmManager {
            schedule: WeeklySchedule::new(),
            timers: WrappingVec::new(),
            generation: 0,
            prev_alarm: None,
        }
    }

    /// The number of the live generation, for callers that broadcast its
    /// cancellation.
    pub fn generation(&self) -> (g: u64)
        ensures
            g == self.generation_id(),
    {
        self.generation
    }

    /// Replaces the rule set atomically. A set with any invalid rule is
    /// rejected whole and nothing changes. An accepted set replaces the
    /// table, retires the old generation, arms one record per compiled
    /// instant with its first-fire delay from `now`, sorts them ascending by
    /// delay, rewinds the cursor, and reports the previous/next pair.
    pub fn apply_rules(&mut self, rules: &Vec<Rule>, now: &NowTime) -> (r: Result<
        ScheduleChange,
        RuleError,
    >)
        requires
            old(self).wf(),
            now.wf(),
            old(self).generation_id() < u64::MAX,
        ensures
            final(self).wf(),
            r matches Err(e) ==> {
                &&& *final(self) == *old(self)
                &&& Some(e) == rules_check(rules@, rules@.len() as int)
                &&& !(forall|i: int| 0 <= i < rules@.len() ==> rule_valid(#[trigger] rules@[i]))
            },
            r is Ok ==> (forall|i: int| 0 <= i < rules@.len() ==> rule_valid(#[trigger] rules@[i])),
            r matches Ok(c) ==> {
                &&& final(self).sched_model() == compiled(rules@)
                &&& final(self).generation_id() == old(self).generation_id() + 1
                &&& final(self).timers_seq().len() == sched_instants(compiled(rules@)).len()
                &&& final(self).timers_seq().map_values(|t: TimerRecord| t.instant).to_multiset()
                    == sched_instants(compiled(rules@)).to_multiset()
                &&& delays_from(final(self).timers_seq(), *now)
                &&& final(self).cursor() == 0
                &&& final(self).prev_fired() == old(self).prev_fired()
                &&& c.previous == old(self).prev_fired()
                &&& c.generation == final(self).generation_id()
                &&& c.spawn@ == final(self).timers_seq()
                &&& (final(self).timers_seq().len() == 0 ==> c.next is None)
                &&& (final(self).timers_seq().len() > 0 ==> c.next == Some(
                    final(self).timers_seq()[0].instant,
                ))
            },
    {
        match validate_rules(rules) {
            Err(e) => {
                return Err(e);
            },
            Ok(()) => {},
        }
        let sched = get_alarms(rules);
        let instants = sched.instants();
        let mut timers: WrappingVec<TimerRecord> = WrappingVec::new();
        let ghost inst_seq = instants@;
        let mut i: usize = 0;
        while i < instants.len()
            invariant
                i <= inst_seq.len(),
                instants@ == inst_seq,
                now.wf(),
                forall|q: int| 0 <= q < inst_seq.len() ==> (#[trigger] inst_seq[q]).wf(),
                timers.wf(),
                timers.cursor() == 0,
                timers.items().len() == i,
                timers.items().map_values(|t: TimerRecord| t.instant) == inst_seq.subrange(
                    0,
                    i as int,
                ),
                delays_from(timers.items(), *now),
            decreases inst_seq.len() - i,
        {
            let a = instants[i];
            let secs = seconds_till_first_alarm(&a, now);
            timers.push(TimerRecord { delay: secs, instant: a });
            proof {
                assert(timers.items().map_values(|t: TimerRecord| t.instant) =~= inst_seq.subrange(
                    0,
                    i as int + 1,
                ));
            }
            i += 1;
        }
        proof {
            assert(inst_seq.subrange(0, inst_seq.len() as int) =~= inst_seq);
        }
        let key = |t: &TimerRecord| -> (k: u64)
            ensures
                k == t.delay,
            { t.delay };
        proof {
            assert(forall|x: &TimerRecord| #[trigger] call_requires(key, (x,)));
        }
        let ghost before_sort = timers.items();
        timers.sort_by_key(key);
        proof {
            broadcast use vstd::seq_lib::group_to_multiset_ensures;

            let sorted_items = timers.items();
            let ks = choose|ks: Seq<u64>|
                ks.len() == sorted_items.len() && crate::cyclic::sorted_keys(ks) && (forall|q: int|
                    0 <= q < ks.len() ==> call_ensures(key, (&sorted_items[q],), ks[q]));
            assert forall|q: int| 0 <= q < ks.len() implies ks[q] == sorted_items[q].delay by {
                assert(call_ensures(key, (&sorted_items[q],), ks[q]));
            }
            assert forall|a: int, b: int|
                0 <= a <= b < sorted_items.len() implies sorted_items[a].delay
                <= sorted_items[b].delay by {
                assert(ks[a] == sorted_items[a].delay);
                assert(ks[b] == sorted_items[b].delay);
                assert(ks[a] <= ks[b]);
            }
            assert(sorted_by_delay(sorted_items));
            lemma_instants_multiset(before_sort, sorted_items);
            assert forall|q: int| 0 <= q < sorted_items.len() implies (#[trigger] sorted_items[q]).delay
                == first_alarm_secs(sorted_items[q].instant, *now) by {
                assert(sorted_items.contains(sorted_items[q]));
                assert(sorted_items.to_multiset().count(sorted_items[q]) > 0);
                assert(before_sort.to_multiset().count(sorted_items[q]) > 0);
                assert(before_sort.contains(sorted_items[q]));
                let w = choose|w: int|
                    0 <= w < before_sort.len() && before_sort[w] == sorted_items[q];
                assert(before_sort[w].delay == first_alarm_secs(before_sort[w].instant, *now));
            }
        }
        self.schedule = sched;
        self.timers = timers;
        self.generation = self.generation + 1;
        let next = match self.timers.at(0) {
            Some(t) => Some(t.instant),
            None => None,
        };
        let mut spawn: Vec<TimerRecord> = Vec::new();
        let mut q: usize = 0;
        let total = self.timers.len();
        while q < total
            invariant
                q <= total,
                total == self.timers.items().len(),
                spawn@ == self.timers.items().subrange(0, q as int),
            decreases total - q,
        {
            let t = match self.timers.at(q) {
                Some(t) => *t,
                None => vstd::pervasive::unreached(),
            };
            spawn.push(t);
            proof {
                assert(spawn@ =~= self.timers.items().subrange(0, q as int + 1));
            }
            q += 1;
        }
        proof {
            assert(spawn@ =~= self.timers.items());
        }
        Ok(
            ScheduleChange {
                previous: self.prev_alarm,
                next,
                spawn,
                generation: self.generation,
            },
        )
    }

    /// Retires the live generation without replacement: afterwards no timer
    /// is armed and the cursor is rewound; the table, the generation counter
    /// and the last fired instant stay as they were.
    pub fn shutdown(&mut self)
        requires
            old(self).wf(),
        ensures
            final(self).wf(),
            final(self).timers_seq().len() == 0,
            final(self).cursor() == 0,
            final(self).sched_model() == old(self).sched_model(),
            final(self).generation_id() == old(self).generation_id(),
            final(self).prev_fired() == old(self).prev_fired(),
    {
        self.timers.clear();
    }

    /// Records a fired instant as the new "previous alarm" and reports the
    /// cursor's previous/next pair, advancing the cursor.
    pub fn on_fired(&mut self, instant: AlarmTime) -> (r: Option<(AlarmTime, AlarmTime)>)
        requires
            old(self).wf(),
        ensures
            final(self).wf(),
            final(self).prev_fired() == Some(instant),
            final(self).timers_seq() == old(self).timers_seq(),
            final(self).sched_model() == old(self).sched_model(),
            final(self).generation_id() == old(self).generation_id(),
            old(self).timers_seq().len() == 0 ==> r is None && final(self).cursor() == old(
                self,
            ).cursor(),
            old(self).timers_seq().len() > 0 ==> notify_pair(
                old(self).timers_seq(),
                old(self).cursor(),
                r,
            ) && final(self).cursor() == (if old(self).cursor() + 1 == old(
                self,
            ).timers_seq().len() {
                0int
            } else {
                old(self).cursor() + 1
            }),
    {
        self.prev_alarm = Some(instant);
        self.notify_next()
    }

    /// Reads the cursor's current record and its predecessor (wrapping at
    /// both ends), advances the cursor by one, and reports the pair; on an
    /// empty generation, nothing happens and nothing is reported.
    pub fn notify_next(&mut self) -> (r: Option<(AlarmTime, AlarmTime)>)
        requires
            old(self).wf(),
        ensures
            final(self).wf(),
            final(self).prev_fired() == old(self).prev_fired(),
            final(self).timers_seq() == old(self).timers_seq(),
            final(self).sched_model() == old(self).sched_model(),
            final(self).generation_id() == old(self).generation_id(),
            old(self).timers_seq().len() == 0 ==> r is None && final(self).cursor() == old(
                self,
            ).cursor(),
            old(self).timers_seq().len() > 0 ==> notify_pair(
                old(self).timers_seq(),
                old(self).cursor(),
                r,
            ) && final(self).cursor() == (if old(self).cursor() + 1 == old(
                self,
            ).timers_seq().len() {
                0int
            } else {
                old(self).cursor() + 1
            }),
    {
        let previous = match self.timers.prev() {
            Some(p) => *p,
            None => {
                return None;
            },
        };
        match self.timers.next() {
            Some(c) => Some((previous.instant, c.instant)),
            None => None,
        }
    }
}

/// The pair a non-empty generation reports: the record before the cursor
/// (wrapping) and the record under the cursor.
pub open spec fn notify_pair(
    ts: Seq<TimerRecord>,
    cur: int,
    r: Option<(AlarmTime, AlarmTime)>,
) -> bool {
    &&& r is Some
    &&& r.unwrap().1 == ts[cur].instant
    &&& r.unwrap().0 == (if cur == 0 {
        ts.last().instant
    } else {
        ts[cur - 1].instant
    })
}

/// Two multiset-equal record sequences have multiset-equal instants.
proof fn lemma_instants_multiset(s1: Seq<TimerRecord>, s2: Seq<TimerRecord>)
    requires
        s1.to_multiset() == s2.to_multiset(),
    ensures
        s1.map_values(|t: TimerRecord| t.instant).to_multiset() == s2.map_values(
            |t: TimerRecord| t.instant,
        ).to_multiset(),
{
    crate::cyclic::lemma_map_values_multiset(s1, s2, |t: TimerRecord| t.instant);
}

} // verus!
