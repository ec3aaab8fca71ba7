//! The rule compiler: declarative recurrence rules become the weekly table.
//!
//! For one rule with hour range `from..=to` and interval `f`, an absolute
//! minute counter walks through multiples of `f`. Bucket `j` (hour `from + j`)
//! collects every multiple pushed while the counter has not yet crossed the
//! boundary `60 * (j + 1)`; each bucket therefore covers the multiples with
//! index `kstart(f, j)` through `kend(f, j)`, reduced modulo sixty. Buckets
//! for the hours before `to` are appended to the table (the single-tick case
//! `f == 60` at the first hour is discarded); the end hour `to` receives the
//! single minute zero when the walk lands exactly on an hour boundary there,
//! and only when that bucket is still empty.

use crate::schedule::day_model;
use crate::schedule::WeeklySchedule;
use crate::weekday::day_num;
use crate::weekday::weekday_of_str;
use vstd::arithmetic::div_mod::lemma_fundamental_div_mod;
use vstd::arithmetic::mul::lemma_mul_inequality;
use vstd::prelude::*;

verus! {

/// One declarative recurrence rule: on each named day, an alarm every
/// `interval` minutes through the hours `from..=to`.
#[derive(Clone, Debug)]
pub struct Rule {
    pub days: Vec<String>,
    pub from: usize,
    pub interval: usize,
    pub serial: usize,
    pub to: usize,
}

/// Why a rule set was rejected.
#[derive(Clone, Copy, Debug, PartialEq, Eq, Structural)]
pub enum RuleError {
    /// A day name is not one of the seven three-letter weekday names.
    UnknownWeekday,
    /// The hour range does not satisfy `from <= to <= 23`.
    InvalidHours,
    /// The interval lies outside `1..=60`.
    InvalidInterval,
}

/// A rule the compiler is defined on.
pub open spec fn rule_valid(r: Rule) -> bool {
    &&& r.from <= r.to <= 23
    &&& 1 <= r.interval <= 60
    &&& forall|i: int| 0 <= i < r.days@.len() ==> weekday_of_str(#[trigger] r.days@[i]@) is Some
}

/// The first reason to reject `r`, hours checked before interval before days.
pub open spec fn rule_check(r: Rule) -> Option<RuleError> {
    if !(r.from <= r.to <= 23) {
        Some(RuleError::InvalidHours)
    } else if !(1 <= r.interval <= 60) {
        Some(RuleError::InvalidInterval)
    } else if exists|i: int|
        0 <= i < r.days@.len() && weekday_of_str(#[trigger] r.days@[i]@) is None {
        Some(RuleError::UnknownWeekday)
    } else {
        None
    }
}

/// The first reason to reject any of the first `n` rules, in rule order.
pub open spec fn rules_check(rules: Seq<Rule>, n: int) -> Option<RuleError>
    decreases n,
{
    if n <= 0 {
        None
    } else if rules_check(rules, n - 1) is Some {
        rules_check(rules, n - 1)
    } else {
        rule_check(rules[n - 1])
    }
}

/// The ceiling of `a / b`, for positive `b`.
pub open spec fn ceil_div(a: int, b: int) -> int {
    (a + b - 1) / b
}

/// The index of the first multiple of `f` that bucket `j` collects.
pub open spec fn kstart(f: int, j: int) -> int {
    if f == 60 {
        j + 1
    } else if j == 0 {
        1
    } else {
        ceil_div(60 * j, f)
    }
}

/// The index of the last multiple of `f` that bucket `j` collects.
pub open spec fn kend(f: int, j: int) -> int {
    if f == 60 {
        j + 1
    } else {
        ceil_div(60 * (j + 1), f) - 1
    }
}

/// The minutes bucket `j` collects: its multiples of `f`, modulo sixty.
pub open spec fn bucket_mins(f: int, j: int) -> Seq<usize> {
    Seq::new(
        (kend(f, j) - kstart(f, j) + 1) as nat,
        |q: int| (((kstart(f, j) + q) * f) % 60) as usize,
    )
}

/// The counter value after the last bucket of a walk over `cnt` buckets.
pub open spec fn walk_end_m(f: int, cnt: int) -> int {
    (kend(f, cnt - 1) + 1) * f
}

/// Appends bucket `j` to the hour it belongs to, except for the discarded
/// single-tick case.
pub open spec fn write_bucket(day: Seq<Seq<usize>>, s: int, f: int, j: int) -> Seq<Seq<usize>> {
    if f == 60 && j == 0 {
        day
    } else {
        day.update(s + j, day[s + j] + bucket_mins(f, j))
    }
}

/// The day's table after the first `cnt` buckets of the walk.
pub open spec fn walk_buckets(day: Seq<Seq<usize>>, s: int, f: int, cnt: int) -> Seq<Seq<usize>>
    decreases cnt,
{
    if cnt <= 0 {
        day
    } else {
        write_bucket(walk_buckets(day, s, f, cnt - 1), s, f, cnt - 1)
    }
}

/// One rule applied to one day's table: the walk over the hours before `to`
/// (over `from` alone when the range is a single hour), then minute zero at
/// `to` when the walk ends exactly on an hour boundary and that bucket is
/// still empty.
pub open spec fn apply_rule_day(day: Seq<Seq<usize>>, s: int, e: int, f: int) -> Seq<Seq<usize>> {
    let cnt = if e == s {
        1int
    } else {
        e - s
    };
    let w = walk_buckets(day, s, f, cnt);
    if walk_end_m(f, cnt) % 60 == 0 && w[e].len() == 0 {
        w.update(e, seq![0usize])
    } else {
        w
    }
}

/// One rule applied to the whole table, over its first `n` day names in order.
pub open spec fn apply_rule_days(
    sched: Seq<Seq<Seq<usize>>>,
    r: Rule,
    n: int,
) -> Seq<Seq<Seq<usize>>>
    decreases n,
{
    if n <= 0 {
        sched
    } else {
        let prev = apply_rule_days(sched, r, n - 1);
        let dn = day_num(weekday_of_str(r.days@[n - 1]@).unwrap());
        prev.update(dn, apply_rule_day(prev[dn], r.from as int, r.to as int, r.interval as int))
    }
}

/// The first `n` rules applied in order to `sched`.
pub open spec fn apply_rules_seq(
    sched: Seq<Seq<Seq<usize>>>,
    rules: Seq<Rule>,
    n: int,
) -> Seq<Seq<Seq<usize>>>
    decreases n,
{
    if n <= 0 {
        sched
    } else {
        let prev = apply_rules_seq(sched, rules, n - 1);
        apply_rule_days(prev, rules[n - 1], rules[n - 1].days@.len() as int)
    }
}

/// The empty weekly table.
pub open spec fn empty_sched() -> Seq<Seq<Seq<usize>>> {
    Seq::new(7, |d: int| Seq::new(24, |h: int| Seq::<usize>::empty()))
}

/// The weekly table compiled from a rule set.
pub open spec fn compiled(rules: Seq<Rule>) -> Seq<Seq<Seq<usize>>> {
    apply_rules_seq(empty_sched(), rules, rules.len() as int)
}

/// The ceiling division is the least integer at or above the quotient.
proof fn lemma_ceil_div(a: int, b: int)
    requires
        a >= 0,
        b > 0,
    ensures
        b * ceil_div(a, b) >= a,
        b * (ceil_div(a, b) - 1) < a,
        ceil_div(a, b) >= 0,
{
    lemma_fundamental_div_mod(a + b - 1, b);
    let q = (a + b - 1) / b;
    let r = (a + b - 1) % b;
    assert(a + b - 1 == b * q + r);
    assert(b * q == a + b - 1 - r);
    assert(b * q >= a);
    assert(b * (q - 1) == b * q - b) by (nonlinear_arith);
    assert(b * (q - 1) < a);
    assert(q >= 0) by (nonlinear_arith)
        requires
            b > 0,
            b * q + r >= 0,
            0 <= r < b,
    ;
}

/// Where each bucket's multiples start and stop: consecutive buckets take
/// consecutive index ranges, the range is never empty, the first index of a
/// bucket has not crossed the bucket's boundary by more than one step, the
/// last index is the first whose successor crosses it.
proof fn lemma_bucket_k_range(f: int, j: int)
    requires
        1 <= f <= 60,
        0 <= j,
    ensures
        1 <= kstart(f, j) <= kend(f, j),
        kstart(f, j + 1) == kend(f, j) + 1,
        (kend(f, j) + 1) * f >= 60 * (j + 1),
        forall|k: int| kstart(f, j) <= k < kend(f, j) ==> #[trigger] ((k + 1) * f) < 60 * (j + 1),
        kstart(f, j) * f >= 60 * j,
        kstart(f, j) * f <= 60 * j + 60,
        kstart(f, j) * f < 60 * j + 60 + f,
{
    if f == 60 {
        assert(forall|k: int|
            kstart(f, j) <= k < kend(f, j) ==> #[trigger] ((k + 1) * f) < 60 * (j + 1));
        assert((j + 1) * 60 >= 60 * j) by (nonlinear_arith)
            requires
                j >= 0,
        ;
        assert((j + 1) * 60 < 60 * j + 60 + 60) by (nonlinear_arith);
        assert((j + 1) * 60 <= 60 * j + 60) by (nonlinear_arith);
        assert((j + 2) * 60 >= 60 * (j + 1)) by (nonlinear_arith);
    } else {
        lemma_ceil_div(60 * (j + 1), f);
        let c = ceil_div(60 * (j + 1), f);
        assert(f * c >= 60 * (j + 1));
        assert(f * (c - 1) < 60 * (j + 1));
        if j == 0 {
            // kstart == 1 and kend == c - 1
            assert(c - 1 >= 1) by {
                assert(f * 1 < 60 * 1);
                if c - 1 < 1 {
                    assert(c <= 1);
                    assert(f * c <= f * 1) by (nonlinear_arith)
                        requires
                            f > 0,
                            c <= 1,
                    ;
                }
            }
            assert(kstart(f, j) * f >= 60 * j);
            assert(1 * f == f) by (nonlinear_arith);
            assert(kstart(f, j) * f <= 60 * j + 60);
            assert(kstart(f, j) * f < 60 * j + 60 + f);
        } else {
            lemma_ceil_div(60 * j, f);
            let c0 = ceil_div(60 * j, f);
            assert(f * c0 >= 60 * j);
            assert(f * (c0 - 1) < 60 * j);
            // c0 <= c - 1: f * c0 < 60 * j + f <= 60 * (j + 1), while f * c >= 60 * (j + 1)
            assert(f * c0 == f * (c0 - 1) + f) by (nonlinear_arith);
            assert(f * c0 < 60 * j + f);
            assert(f * c0 < 60 * (j + 1));
            assert(c0 <= c - 1) by {
                if c0 > c - 1 {
                    assert(c <= c0);
                    assert(f * c <= f * c0) by (nonlinear_arith)
                        requires
                            f > 0,
                            c <= c0,
                    ;
                }
            }
            assert(c0 >= 1) by {
                if c0 < 1 {
                    assert(f * c0 <= 0) by (nonlinear_arith)
                        requires
                            f > 0,
                            c0 <= 0,
                    ;
                }
            }
            assert(kstart(f, j) * f >= 60 * j) by {
                assert(c0 * f == f * c0) by (nonlinear_arith);
            }
            assert(kstart(f, j) * f < 60 * j + 60 + f) by {
                assert(c0 * f == f * c0) by (nonlinear_arith);
            }
            assert(kstart(f, j) * f <= 60 * j + 60) by {
                assert(c0 * f == f * c0) by (nonlinear_arith);
            }
        }
        // kstart(f, j + 1) == kend(f, j) + 1 by definition of ceil_div at j + 1 >= 1
        assert(kstart(f, j + 1) == ceil_div(60 * (j + 1), f));
        assert(kend(f, j) + 1 == c);
        assert(c * f == f * c) by (nonlinear_arith);
        assert((kend(f, j) + 1) * f == f * c);
        assert(forall|k: int| kstart(f, j) <= k < kend(f, j) ==> #[trigger] ((k + 1) * f) < 60 * (j
            + 1)) by {
            assert forall|k: int| kstart(f, j) <= k < kend(f, j) implies #[trigger] ((k + 1) * f)
                < 60 * (j + 1) by {
                assert(k + 1 <= c - 1);
                lemma_mul_inequality(k + 1, c - 1, f);
                assert((c - 1) * f == f * (c - 1)) by (nonlinear_arith);
            }
        }
    }
}

/// The hours `s..=e`, ascending.
pub fn get_hours(s: usize, e: usize) -> (hrs: Vec<usize>)
    requires
        s <= e,
        e <= 23,
    ensures
        hrs@.len() == e - s + 1,
        forall|i: int| 0 <= i < hrs@.len() ==> hrs@[i] == s + i,
{
    let mut hrs: Vec<usize> = Vec::new();
    let mut current_hour = s;
    while current_hour <= e
        invariant
            s <= current_hour <= e + 1,
            e <= 23,
            hrs@.len() == current_hour - s,
            forall|i: int| 0 <= i < hrs@.len() ==> hrs@[i] == s + i,
        decreases e + 1 - current_hour,
    {
        hrs.push(current_hour);
        current_hour += 1;
    }
    hrs
}

/// Checks a whole rule set; rejection names the first reason found, and a
/// rejected set must not replace the live schedule.
pub fn validate_rules(rules: &Vec<Rule>) -> (r: Result<(), RuleError>)
    ensures
        r is Ok <==> (forall|i: int|
            0 <= i < rules@.len() ==> rule_valid(#[trigger] rules@[i])),
        r matches Err(e) ==> Some(e) == rules_check(rules@, rules@.len() as int),
{
    let n = rules.len();
    let mut i: usize = 0;
    while i < n
        invariant
            i <= n,
            n == rules@.len(),
            rules_check(rules@, i as int) is None,
            forall|q: int| 0 <= q < i ==> rule_valid(#[trigger] rules@[q]),
        decreases n - i,
    {
        let r = &rules[i];
        if !(r.from <= r.to && r.to <= 23) {
            proof {
                lemma_rules_check_step(rules@, i as int);
                lemma_rules_check_persists(rules@, i + 1, rules@.len() as int);
            }
            return Err(RuleError::InvalidHours);
        }
        if !(1 <= r.interval && r.interval <= 60) {
            proof {
                lemma_rules_check_step(rules@, i as int);
                lemma_rules_check_persists(rules@, i + 1, rules@.len() as int);
            }
            return Err(RuleError::InvalidInterval);
        }
        let mut d: usize = 0;
        let nd = r.days.len();
        while d < nd
            invariant
                d <= nd,
                0 <= i < rules@.len(),
                nd == rules@[i as int].days@.len(),
                rules_check(rules@, i as int) is None,
                rules@[i as int].from <= rules@[i as int].to <= 23,
                1 <= rules@[i as int].interval <= 60,
                r.days@ == rules@[i as int].days@,
                forall|q: int|
                    0 <= q < d ==> weekday_of_str(#[trigger] rules@[i as int].days@[q]@) is Some,
            decreases nd - d,
        {
            if crate::weekday::get_weekday(r.days[d].as_str()).is_err() {
                proof {
                    lemma_rules_check_step(rules@, i as int);
                    lemma_rules_check_persists(rules@, i + 1, rules@.len() as int);
                }
                return Err(RuleError::UnknownWeekday);
            }
            d += 1;
        }
        proof {
            assert(rule_check(rules@[i as int]) is None);
            lemma_rules_check_step(rules@, i as int);
        }
        i += 1;
    }
    Ok(())
}

/// Extending a clean prefix by one rule keeps `rules_check` at that rule's
/// own verdict.
proof fn lemma_rules_check_step(rules: Seq<Rule>, i: int)
    requires
        0 <= i < rules.len(),
        rules_check(rules, i) is None,
    ensures
        rules_check(rules, i + 1) == rule_check(rules[i]),
{
}

/// Once some prefix is rejected, every longer prefix is rejected for the
/// same reason.
proof fn lemma_rules_check_persists(rules: Seq<Rule>, m: int, n: int)
    requires
        0 <= m <= n,
        rules_check(rules, m) is Some,
    ensures
        rules_check(rules, n) == rules_check(rules, m),
    decreases n - m,
{
    if n > m {
        lemma_rules_check_persists(rules, m, n - 1);
    }
}

/// A rule passes `rule_check` exactly when it is valid.
pub proof fn lemma_rule_check_valid(r: Rule)
    ensures
        rule_check(r) is None <==> rule_valid(r),
{
}

/// Every minute in the day's table is on the clock face.
pub open spec fn day_mins_bounded(d: Seq<Seq<usize>>) -> bool {
    forall|h: int, q: int| 0 <= h < d.len() && 0 <= q < d[h].len() ==> d[h][q] < 60
}

/// Appends `mins` to the bucket of hour `h`.
fn bucket_extend(day: &mut Vec<Vec<usize>>, h: usize, mins: &Vec<usize>)
    requires
        h < old(day)@.len(),
    ensures
        day_model(*final(day)) == day_model(*old(day)).update(
            h as int,
            day_model(*old(day))[h as int] + mins@,
        ),
{
    let ghost day0 = day_model(*old(day));
    let mut b = day.remove(h);
    let ghost b0 = b@;
    let mut q: usize = 0;
    while q < mins.len()
        invariant
            q <= mins@.len(),
            b@ == b0 + mins@.subrange(0, q as int),
        decreases mins@.len() - q,
    {
        proof {
            assert(b0 + mins@.subrange(0, q as int + 1) =~= (b0 + mins@.subrange(0, q as int)).push(
                mins@[q as int],
            ));
        }
        b.push(mins[q]);
        q += 1;
    }
    proof {
        assert(b@ =~= b0 + mins@);
    }
    day.insert(h, b);
    proof {
        assert(day_model(*day) =~= day0.update(h as int, day0[h as int] + mins@));
    }
}

/// Runs one rule's walk over one day's table.
#[verifier::loop_isolation(false)]
#[verifier::rlimit(40)]
fn apply_rule_to_day(day: &mut Vec<Vec<usize>>, s: usize, e: usize, f: usize)
    requires
        old(day)@.len() == 24,
        day_mins_bounded(day_model(*old(day))),
        s <= e <= 23,
        1 <= f <= 60,
    ensures
        final(day)@.len() == 24,
        day_model(*final(day)) == apply_rule_day(day_model(*old(day)), s as int, e as int, f as int),
        day_mins_bounded(day_model(*final(day))),
{
    let ghost day0 = day_model(*old(day));
    let cnt: usize = if e == s {
        1
    } else {
        e - s
    };
    let mut j: usize = 0;
    let mut m: usize = f;
    proof {
        lemma_bucket_k_range(f as int, 0);
        assert(m == kstart(f as int, 0) * f) by {
            if f < 60 {
                assert(kstart(f as int, 0) == 1);
            }
            assert(1 * f == f) by (nonlinear_arith);
            if f == 60 {
                assert(kstart(60, 0) == 1);
            }
        }
        assert(day_model(*day) =~~= walk_buckets(day0, s as int, f as int, 0));
    }
    while j < cnt
        invariant
            j <= cnt,
            day@.len() == 24,
            m == kstart(f as int, j as int) * f,
            m >= 60 * j,
            m <= 60 * j + 120,
            day_model(*day) == walk_buckets(day0, s as int, f as int, j as int),
            day_mins_bounded(day_model(*day)),
        decreases cnt - j,
    {
        proof {
            lemma_bucket_k_range(f as int, j as int);
        }
        let ghost k0 = kstart(f as int, j as int);
        let mut mins: Vec<usize> = Vec::new();
        mins.push(m % 60);
        m += f;
        proof {
            assert(mins@ =~= Seq::new(1, |q: int| (((k0 + q) * f) % 60) as usize)) by {
                assert(mins@[0] == ((k0 * f) % 60) as usize);
            }
            assert((k0 + 1) * f == k0 * f + f) by (nonlinear_arith);
        }
        while m - 60 * j < 60
            invariant
                1 <= mins@.len(),
                m == (k0 + mins@.len()) * f,
                m >= 60 * j,
                m <= 60 * (j + 1) + f,
                mins@ == Seq::new(mins@.len(), |q: int| (((k0 + q) * f) % 60) as usize),
                forall|q: int|
                    0 <= q < mins@.len() - 1 ==> #[trigger] ((k0 + q + 1) * f) < 60 * (j + 1),
            decreases 60 * (j + 1) + f - m,
        {
            let ghost len0 = mins@.len() as int;
            mins.push(m % 60);
            proof {
                assert((k0 + len0) * f == m);
                assert(mins@[len0] == ((k0 + len0) * f) % 60);
                assert(mins@ =~= Seq::new(mins@.len(), |q: int| (((k0 + q) * f) % 60) as usize));
                assert((k0 + len0 + 1) * f == (k0 + len0) * f + f) by (nonlinear_arith);
            }
            m += f;
        }
        // the inner walk collected exactly bucket `j`
        proof {
            let klast = k0 + mins@.len() - 1;
            assert((klast + 1) * f == m);
            assert(m >= 60 * (j + 1));
            let ke = kend(f as int, j as int);
            assert(klast == ke) by {
                if klast > ke {
                    let q = ke - k0;
                    assert(0 <= q < mins@.len() - 1);
                    assert(((k0 + q + 1) * f) < 60 * (j + 1));
                    assert((ke + 1) * f >= 60 * (j + 1));
                }
                if klast < ke {
                    assert(kstart(f as int, j as int) <= klast < ke);
                    assert(((klast + 1) * f) < 60 * (j + 1));
                }
            }
            assert(mins@ =~= bucket_mins(f as int, j as int));
            assert(forall|q: int| 0 <= q < mins@.len() ==> mins@[q] < 60) by {
                assert(forall|q: int|
                    0 <= q < mins@.len() ==> mins@[q] == (((k0 + q) * f) % 60) as usize);
            }
        }
        if !(f == 60 && j == 0) {
            bucket_extend(day, s + j, &mins);
        }
        proof {
            assert(day_model(*day) =~~= walk_buckets(day0, s as int, f as int, j as int + 1));
            assert(m == kstart(f as int, j as int + 1) * f) by {
                assert(kstart(f as int, j as int + 1) == kend(f as int, j as int) + 1);
            }
            assert(m >= 60 * (j + 1));
            assert(m <= 60 * (j + 1) + 120);
        }
        j += 1;
    }
    proof {
        lemma_bucket_k_range(f as int, cnt as int - 1);
        assert(m == walk_end_m(f as int, cnt as int)) by {
            assert(kstart(f as int, cnt as int) == kend(f as int, cnt as int - 1) + 1);
        }
    }
    if m % 60 == 0 {
        proof {
            assert(day_model(*day)[e as int] == day@[e as int]@);
        }
        if day[e].len() == 0 {
            let z: Vec<usize> = vec![0];
            let _replaced = day.remove(e);
            day.insert(e, z);
            proof {
                assert(day_model(*day) =~~= walk_buckets(day0, s as int, f as int, cnt as int).update(e as int, seq![0usize]));
            }
        }
    }
}

/// Compiles a rule set into the weekly table: each rule's walk is applied to
/// each of its days in order, rule after rule, starting from the empty table.
#[verifier::loop_isolation(false)]
pub fn get_alarms(rules: &Vec<Rule>) -> (sched: WeeklySchedule)
    requires
        forall|i: int| 0 <= i < rules@.len() ==> rule_valid(#[trigger] rules@[i]),
    ensures
        sched.wf(),
        sched.model() == compiled(rules@),
{
    let mut sched = WeeklySchedule::new();
    proof {
        assert(sched.model() =~~= empty_sched());
    }
    let mut ri: usize = 0;
    while ri < rules.len()
        invariant
            ri <= rules@.len(),
            sched.model() == apply_rules_seq(empty_sched(), rules@, ri as int),
            sched.wf(),
        decreases rules@.len() - ri,
    {
        let r = &rules[ri];
        let ghost prev = sched.model();
        let mut di: usize = 0;
        while di < r.days.len()
            invariant
                di <= r.days@.len(),
                sched.model() == apply_rule_days(prev, rules@[ri as int], di as int),
                sched.wf(),
            decreases r.days@.len() - di,
        {
            let w = match crate::weekday::get_weekday(r.days[di].as_str()) {
                Ok(w) => w,
                Err(_) => vstd::pervasive::unreached(),
            };
            let dn = w.number();
            let ghost mid = sched.model();
            let ghost days0 = sched.days@;
            proof {
                sched.lemma_model();
            }
            let mut dv = sched.days.remove(dn);
            proof {
                assert(day_model(dv) == mid[dn as int]);
                assert(day_model(dv).len() == 24);
                assert(dv@.len() == 24);
                assert(day_mins_bounded(day_model(dv)));
            }
            apply_rule_to_day(&mut dv, r.from, r.to, r.interval);
            sched.days.insert(dn, dv);
            proof {
                assert(sched.days@ =~= days0.update(dn as int, dv));
                sched.lemma_model();
                assert(sched.model() =~~= mid.update(
                    dn as int,
                    apply_rule_day(mid[dn as int], r.from as int, r.to as int, r.interval as int),
                ));
                assert(sched.model() == apply_rule_days(prev, rules@[ri as int], di as int + 1));
            }
            di += 1;
        }
        proof {
            assert(sched.model() == apply_rules_seq(empty_sched(), rules@, ri as int + 1));
        }
        ri += 1;
    }
    sched
}

} // verus!
