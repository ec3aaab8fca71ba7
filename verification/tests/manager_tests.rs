use weekly_alarm::seconds_till_first_alarm;
use weekly_alarm::seconds_till_first_alarm_from_now;
use weekly_alarm::seconds_till_next_week_alarm;
use weekly_alarm::timer_step;
use weekly_alarm::AlarmManager;
use weekly_alarm::AlarmTime;
use weekly_alarm::NowTime;
use weekly_alarm::Rule;
use weekly_alarm::RuleError;
use weekly_alarm::TimerEvent;
use weekly_alarm::TimerPhase;
use weekly_alarm::Weekday;
use weekly_alarm::WrappingVec;
use weekly_alarm::WEEK_SECONDS;

fn rule(serial: usize, days: &[&str], from: usize, to: usize, interval: usize) -> Rule {
    Rule {
        serial,
        days: days.iter().map(|d| d.to_string()).collect(),
        interval,
        from,
        to,
    }
}

fn at(day: Weekday, hour: usize, min: usize) -> AlarmTime {
    AlarmTime { day, hour, min }
}

fn now(day: Weekday, hour: usize, min: usize, sec: usize) -> NowTime {
    NowTime {
        day,
        hour,
        min,
        sec,
    }
}

#[test]
fn test_cursor_wraparound() {
    let mut v: WrappingVec<i32> = WrappingVec::new();
    v.push(10);
    v.push(20);
    v.push(30);
    assert_eq!(v.next().copied(), Some(10));
    assert_eq!(v.next().copied(), Some(20));
    assert_eq!(v.next().copied(), Some(30));
    assert_eq!(v.next().copied(), Some(10));
    // after four advances the cursor is back past index zero
    assert_eq!(v.prev().copied(), Some(10));
    let mut w: WrappingVec<i32> = WrappingVec::new();
    w.push(1);
    w.push(2);
    w.push(3);
    // cursor at zero: prev wraps to the last element
    assert_eq!(w.prev().copied(), Some(3));
    assert_eq!(w.at(1).copied(), Some(2));
    assert_eq!(w.at(9), None);
}

#[test]
fn test_wrapping_vec_empty_and_clear() {
    let mut v: WrappingVec<u64> = WrappingVec::new();
    assert_eq!(v.next(), None);
    assert_eq!(v.prev(), None);
    v.push(5);
    assert_eq!(v.next().copied(), Some(5));
    v.clear();
    assert_eq!(v.next(), None);
    assert_eq!(v.len(), 0);
}

#[test]
fn test_sort_by_key() {
    let mut v: WrappingVec<(u64, &str)> = WrappingVec::new();
    v.push((30, "c"));
    v.push((10, "a"));
    v.push((20, "b"));
    v.sort_by_key(|p: &(u64, &str)| p.0);
    assert_eq!(v.at(0).copied(), Some((10, "a")));
    assert_eq!(v.at(1).copied(), Some((20, "b")));
    assert_eq!(v.at(2).copied(), Some((30, "c")));
}

#[test]
fn test_generation_replacement() {
    let mut m = AlarmManager::new();
    let t = now(Weekday::Mon, 8, 0, 0);

    // first generation: four instants
    let first = m
        .apply_rules(&vec![rule(1, &["Tue", "Wed"], 18, 19, 30)], &t)
        .unwrap();
    assert_eq!(first.spawn.len(), 4);
    assert_eq!(first.generation, 1);

    // second generation: exactly the second compilation's two instants live
    let second = m
        .apply_rules(&vec![rule(2, &["Fri"], 17, 18, 30)], &t)
        .unwrap();
    assert_eq!(second.spawn.len(), 2);
    assert_eq!(second.generation, 2);
    assert_eq!(second.next, Some(at(Weekday::Fri, 17, 30)));
    let instants: Vec<AlarmTime> = second.spawn.iter().map(|r| r.instant).collect();
    assert_eq!(
        instants,
        vec![at(Weekday::Fri, 17, 30), at(Weekday::Fri, 18, 0)]
    );
    // ascending by first-fire delay
    assert!(second.spawn[0].delay <= second.spawn[1].delay);
    assert_eq!(
        second.spawn[0].delay,
        seconds_till_first_alarm(&at(Weekday::Fri, 17, 30), &t)
    );
}

#[test]
fn test_apply_rules_rejects_atomically() {
    let mut m = AlarmManager::new();
    let t = now(Weekday::Mon, 8, 0, 0);
    m.apply_rules(&vec![rule(1, &["Fri"], 17, 18, 30)], &t)
        .unwrap();

    // an invalid set changes nothing
    let err = m
        .apply_rules(&vec![rule(2, &["Niceday"], 17, 18, 30)], &t)
        .unwrap_err();
    assert_eq!(err, RuleError::UnknownWeekday);

    // the prior generation still reports its own pair
    let pair = m.notify_next().unwrap();
    assert_eq!(pair, (at(Weekday::Fri, 18, 0), at(Weekday::Fri, 17, 30)));
}

#[test]
fn test_validation_errors() {
    let mut m = AlarmManager::new();
    let t = now(Weekday::Mon, 8, 0, 0);
    let e = m.apply_rules(&vec![rule(1, &["Fri"], 18, 17, 30)], &t);
    assert_eq!(e.unwrap_err(), RuleError::InvalidHours);
    let e = m.apply_rules(&vec![rule(1, &["Fri"], 17, 24, 30)], &t);
    assert_eq!(e.unwrap_err(), RuleError::InvalidHours);
    let e = m.apply_rules(&vec![rule(1, &["Fri"], 17, 18, 0)], &t);
    assert_eq!(e.unwrap_err(), RuleError::InvalidInterval);
    let e = m.apply_rules(&vec![rule(1, &["Fri"], 17, 18, 61)], &t);
    assert_eq!(e.unwrap_err(), RuleError::InvalidInterval);
    let e = m.apply_rules(&vec![rule(1, &["fri"], 17, 18, 30)], &t);
    assert_eq!(e.unwrap_err(), RuleError::UnknownWeekday);
}

#[test]
fn test_on_fired_and_notify() {
    let mut m = AlarmManager::new();
    let t = now(Weekday::Thu, 8, 0, 0);
    let change = m
        .apply_rules(&vec![rule(1, &["Fri"], 17, 18, 30)], &t)
        .unwrap();
    assert_eq!(change.previous, None);
    assert_eq!(change.next, Some(at(Weekday::Fri, 17, 30)));

    // the cursor starts at the soonest instant; prev wraps to the last
    let pair = m.on_fired(at(Weekday::Fri, 17, 30)).unwrap();
    assert_eq!(pair, (at(Weekday::Fri, 18, 0), at(Weekday::Fri, 17, 30)));
    let pair = m.notify_next().unwrap();
    assert_eq!(pair, (at(Weekday::Fri, 17, 30), at(Weekday::Fri, 18, 0)));
    // and wraps around again
    let pair = m.notify_next().unwrap();
    assert_eq!(pair, (at(Weekday::Fri, 18, 0), at(Weekday::Fri, 17, 30)));
}

#[test]
fn test_notify_next_empty_is_noop() {
    let mut m = AlarmManager::new();
    assert_eq!(m.notify_next(), None);
    assert_eq!(m.on_fired(at(Weekday::Mon, 1, 2)), None);
    let t = now(Weekday::Mon, 8, 0, 0);
    let change = m.apply_rules(&vec![], &t).unwrap();
    assert_eq!(change.spawn.len(), 0);
    assert_eq!(change.next, None);
    assert_eq!(m.notify_next(), None);
}

#[test]
fn test_shutdown_retires_generation() {
    let mut m = AlarmManager::new();
    let t = now(Weekday::Mon, 8, 0, 0);
    m.apply_rules(&vec![rule(1, &["Fri"], 17, 18, 30)], &t)
        .unwrap();
    assert_eq!(m.generation(), 1);
    m.shutdown();
    assert_eq!(m.notify_next(), None);
    assert_eq!(m.generation(), 1);
}

#[test]
fn test_timer_step() {
    let armed = timer_step(TimerPhase::Armed, TimerEvent::SleepElapsed);
    assert_eq!(armed.phase, TimerPhase::Repeating);
    assert!(armed.fire);
    assert_eq!(armed.sleep_secs, Some(WEEK_SECONDS));

    let repeating = timer_step(TimerPhase::Repeating, TimerEvent::SleepElapsed);
    assert_eq!(repeating.phase, TimerPhase::Repeating);
    assert!(repeating.fire);
    assert_eq!(repeating.sleep_secs, Some(WEEK_SECONDS));

    let cancelled = timer_step(TimerPhase::Armed, TimerEvent::CancelRequested);
    assert_eq!(cancelled.phase, TimerPhase::Stopped);
    assert!(!cancelled.fire);
    assert_eq!(cancelled.sleep_secs, None);

    let cancelled = timer_step(TimerPhase::Repeating, TimerEvent::CancelRequested);
    assert_eq!(cancelled.phase, TimerPhase::Stopped);
    assert!(!cancelled.fire);
}

#[test]
fn test_seconds_to_next() {
    let a = at(Weekday::Mon, 9, 40);
    let t = now(Weekday::Mon, 9, 35, 0);
    let seconds = seconds_till_first_alarm(&a, &t);
    println!("seconds: {:?}", seconds);
    assert!(seconds < 600);
}

#[test]
fn test_seconds_same_day_exact() {
    let a = at(Weekday::Wed, 10, 0);
    let t = now(Weekday::Wed, 9, 59, 30);
    assert_eq!(seconds_till_first_alarm(&a, &t), 30);
}

#[test]
fn test_seconds_week_wraparound() {
    // the only next occurrence is almost a full week away
    let a = at(Weekday::Mon, 9, 0);
    let t = now(Weekday::Mon, 10, 0, 0);
    assert_eq!(seconds_till_first_alarm(&a, &t), 7 * 86400 - 3600);

    // next calendar day
    let a = at(Weekday::Tue, 8, 30);
    let t = now(Weekday::Mon, 9, 15, 20);
    assert_eq!(
        seconds_till_next_week_alarm(&a, &t),
        86400 - (9 * 3600 + 15 * 60 + 20) + (8 * 3600 + 30 * 60)
    );
}

#[test]
fn test_seconds_from_now_in_range() {
    let a = at(Weekday::Sun, 23, 59);
    let seconds = seconds_till_first_alarm_from_now(&a);
    assert!(0 < seconds && seconds <= WEEK_SECONDS);
}
