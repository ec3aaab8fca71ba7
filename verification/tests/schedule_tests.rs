use weekly_alarm::find_next_alarm;
use weekly_alarm::get_alarms;
use weekly_alarm::AlarmTime;
use weekly_alarm::Rule;
use weekly_alarm::Weekday;
use weekly_alarm::WeeklySchedule;

fn rule(serial: usize, days: &[&str], from: usize, to: usize, interval: usize) -> Rule {
    Rule {
        serial,
        days: days.iter().map(|d| d.to_string()).collect(),
        interval,
        from,
        to,
    }
}

fn day_buckets(sched: &WeeklySchedule, day: Weekday) -> Vec<(usize, Vec<usize>)> {
    let mut out = Vec::new();
    for hour in 0..24 {
        let mins = sched.minutes(day, hour);
        if !mins.is_empty() {
            out.push((hour, mins.clone()));
        }
    }
    out
}

#[test]
fn test_get_alarms() {
    let rule1 = rule(1, &["Tue", "Wed"], 18, 19, 1);
    let rule2 = rule(2, &["Tue"], 19, 20, 30);

    let rules = vec![rule1, rule2];
    let alarms = get_alarms(&rules);

    let mins: Vec<usize> = (1..=59).collect();
    assert!(!day_buckets(&alarms, Weekday::Tue).is_empty());
    assert!(!day_buckets(&alarms, Weekday::Wed).is_empty());
    assert_eq!(
        day_buckets(&alarms, Weekday::Tue),
        vec![(18, mins.clone()), (19, vec![0, 30]), (20, vec![0])]
    );
    assert_eq!(
        day_buckets(&alarms, Weekday::Wed),
        vec![(18, mins.clone()), (19, vec![0])]
    );
    for day in [
        Weekday::Mon,
        Weekday::Thu,
        Weekday::Fri,
        Weekday::Sat,
        Weekday::Sun,
    ] {
        assert!(day_buckets(&alarms, day).is_empty());
    }
}

#[test]
fn test_rule_minimal() {
    let alarms = get_alarms(&vec![rule(1, &["Fri"], 17, 18, 30)]);
    assert_eq!(
        day_buckets(&alarms, Weekday::Fri),
        vec![(17, vec![30]), (18, vec![0])]
    );
}

#[test]
fn test_next_1() {
    let rule1 = rule(1, &["Fri"], 17, 18, 30);
    let rule2 = rule(2, &["Sun"], 19, 20, 30);

    let rules = vec![rule1, rule2];
    let alarms = get_alarms(&rules);

    assert_eq!(
        day_buckets(&alarms, Weekday::Fri),
        vec![(17, vec![30]), (18, vec![0])]
    );
    assert_eq!(
        day_buckets(&alarms, Weekday::Sun),
        vec![(19, vec![30]), (20, vec![0])]
    );

    assert_eq!(
        find_next_alarm(&alarms, Weekday::Fri, 17, 58),
        Some(AlarmTime {
            day: Weekday::Fri,
            hour: 18,
            min: 0
        })
    );
    assert_eq!(
        find_next_alarm(&alarms, Weekday::Sat, 18, 0),
        Some(AlarmTime {
            day: Weekday::Sun,
            hour: 19,
            min: 30
        })
    );
    assert_eq!(
        find_next_alarm(&alarms, Weekday::Sun, 18, 0),
        Some(AlarmTime {
            day: Weekday::Sun,
            hour: 19,
            min: 30
        })
    );
    assert_eq!(
        find_next_alarm(&alarms, Weekday::Sun, 19, 0),
        Some(AlarmTime {
            day: Weekday::Sun,
            hour: 19,
            min: 30
        })
    );
    assert_eq!(
        find_next_alarm(&alarms, Weekday::Sun, 19, 20),
        Some(AlarmTime {
            day: Weekday::Sun,
            hour: 19,
            min: 30
        })
    );
    assert_eq!(
        find_next_alarm(&alarms, Weekday::Sun, 19, 31),
        Some(AlarmTime {
            day: Weekday::Sun,
            hour: 20,
            min: 0
        })
    );
    assert_eq!(
        find_next_alarm(&alarms, Weekday::Sun, 20, 31),
        Some(AlarmTime {
            day: Weekday::Fri,
            hour: 17,
            min: 30
        })
    );
}

#[test]
fn test_next_2() {
    let rule1 = rule(1, &["Sat"], 12, 13, 2);

    let rules = vec![rule1];
    let alarms = get_alarms(&rules);

    let mins: Vec<usize> = (2..=58).step_by(2).collect();
    assert_eq!(
        day_buckets(&alarms, Weekday::Sat),
        vec![(12, mins), (13, vec![0])]
    );

    assert_eq!(
        find_next_alarm(&alarms, Weekday::Sat, 13, 12),
        Some(AlarmTime {
            day: Weekday::Sat,
            hour: 12,
            min: 2
        })
    );
}

#[test]
fn test_empty_schedule() {
    let alarms = get_alarms(&vec![]);
    assert!(alarms.is_empty());
    for day in [
        Weekday::Mon,
        Weekday::Tue,
        Weekday::Wed,
        Weekday::Thu,
        Weekday::Fri,
        Weekday::Sat,
        Weekday::Sun,
    ] {
        assert_eq!(find_next_alarm(&alarms, day, 0, 0), None);
        assert_eq!(find_next_alarm(&alarms, day, 12, 30), None);
        assert_eq!(find_next_alarm(&alarms, day, 23, 59), None);
    }
}

#[test]
fn test_single_tick_interval_discarded() {
    // A full-hour interval discards the degenerate first-hour bucket; only
    // the hours after `from` keep their minute zero.
    let alarms = get_alarms(&vec![rule(1, &["Mon"], 18, 20, 60)]);
    assert_eq!(
        day_buckets(&alarms, Weekday::Mon),
        vec![(19, vec![0]), (20, vec![0])]
    );
}

#[test]
fn test_uneven_interval_skips_end_hour() {
    // Seven does not divide sixty, so the walk never lands on the boundary
    // of the end hour and that hour stays clear.
    let alarms = get_alarms(&vec![rule(1, &["Thu"], 10, 11, 7)]);
    assert_eq!(
        day_buckets(&alarms, Weekday::Thu),
        vec![(10, vec![7, 14, 21, 28, 35, 42, 49, 56])]
    );
}

#[test]
fn test_single_hour_range() {
    // from == to is a well-formed range of one hour: the walk fills only
    // that hour, and the boundary minute zero is not added on top of it
    let alarms = get_alarms(&vec![rule(1, &["Sun"], 12, 12, 30)]);
    assert_eq!(day_buckets(&alarms, Weekday::Sun), vec![(12, vec![30])]);

    // with a full-hour interval the single tick is discarded and only the
    // boundary minute zero remains
    let alarms = get_alarms(&vec![rule(1, &["Sun"], 12, 12, 60)]);
    assert_eq!(day_buckets(&alarms, Weekday::Sun), vec![(12, vec![0])]);
}

#[test]
fn test_instants_enumeration() {
    let alarms = get_alarms(&vec![rule(1, &["Fri"], 17, 18, 30)]);
    let instants = alarms.instants();
    assert_eq!(
        instants,
        vec![
            AlarmTime {
                day: Weekday::Fri,
                hour: 17,
                min: 30
            },
            AlarmTime {
                day: Weekday::Fri,
                hour: 18,
                min: 0
            },
        ]
    );
}
