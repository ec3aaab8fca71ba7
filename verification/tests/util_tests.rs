use weekly_alarm::get_hours;
use weekly_alarm::get_log_file_name;
use weekly_alarm::get_settings_file_name;
use weekly_alarm::get_weekday;
use weekly_alarm::locked_state_of;
use weekly_alarm::validate_rules;
use weekly_alarm::LockedState;
use weekly_alarm::MessageType;
use weekly_alarm::Rule;
use weekly_alarm::RuleError;
use weekly_alarm::Weekday;

fn rule(serial: usize, days: &[&str], from: usize, to: usize, interval: usize) -> Rule {
    Rule {
        serial,
        days: days.iter().map(|d| d.to_string()).collect(),
        interval,
        from,
        to,
    }
}

#[test]
fn test_get_weekday() {
    assert_eq!(get_weekday("Mon"), Ok(Weekday::Mon));
    assert_eq!(get_weekday("Tue"), Ok(Weekday::Tue));
    assert_eq!(get_weekday("Wed"), Ok(Weekday::Wed));
    assert_eq!(get_weekday("Thu"), Ok(Weekday::Thu));
    assert_eq!(get_weekday("Fri"), Ok(Weekday::Fri));
    assert_eq!(get_weekday("Sat"), Ok(Weekday::Sat));
    assert_eq!(get_weekday("Sun"), Ok(Weekday::Sun));
    assert_eq!(
        get_weekday("Monday"),
        Err("Invalid weekday input".to_string())
    );
    assert_eq!(get_weekday(""), Err("Invalid weekday input".to_string()));
}

#[test]
fn test_weekday_succ() {
    assert_eq!(Weekday::Mon.succ(), Weekday::Tue);
    assert_eq!(Weekday::Sat.succ(), Weekday::Sun);
    assert_eq!(Weekday::Sun.succ(), Weekday::Mon);
    assert_eq!(Weekday::from_number(4), Weekday::Fri);
    assert_eq!(Weekday::Sun.number(), 6);
}

#[test]
fn test_message_type_from_str() {
    assert_eq!(
        MessageType::from_str("cmd-update-rules"),
        Some(MessageType::CmdUpdateRules)
    );
    assert_eq!(
        MessageType::from_str("cmd-startup"),
        Some(MessageType::CmdStartup)
    );
    assert_eq!(MessageType::from_str("cmd-unknown"), None);
    assert_eq!(MessageType::from_str(""), None);
}

#[test]
fn test_message_type_event_name() {
    assert_eq!(MessageType::EvtNextAlarm.event_name(), "event-next-alarm");
    assert_eq!(
        MessageType::EvtRulesApplied.event_name(),
        "event-rules-applied"
    );
    assert_eq!(MessageType::CmdStartup.event_name(), "not-implemented");
}

#[test]
fn test_validate_rules_accepts() {
    let rules = vec![
        rule(1, &["Mon", "Tue"], 0, 23, 1),
        rule(2, &["Sun"], 12, 12, 60),
    ];
    assert_eq!(validate_rules(&rules), Ok(()));
    assert_eq!(validate_rules(&vec![]), Ok(()));
}

#[test]
fn test_validate_rules_first_error_wins() {
    let rules = vec![
        rule(1, &["Mon"], 9, 10, 15),
        rule(2, &["Xyz"], 9, 10, 15),
        rule(3, &["Mon"], 11, 10, 15),
    ];
    assert_eq!(validate_rules(&rules), Err(RuleError::UnknownWeekday));
    let rules = vec![rule(1, &["Mon"], 11, 10, 15), rule(2, &["Xyz"], 9, 10, 15)];
    assert_eq!(validate_rules(&rules), Err(RuleError::InvalidHours));
    let rules = vec![rule(1, &["Mon"], 9, 10, 0)];
    assert_eq!(validate_rules(&rules), Err(RuleError::InvalidInterval));
}

#[test]
fn test_get_hours() {
    assert_eq!(get_hours(17, 19), vec![17, 18, 19]);
    assert_eq!(get_hours(5, 5), vec![5]);
}

#[test]
fn test_locked_state_of() {
    assert_eq!(locked_state_of(Some(true)), LockedState::Locked);
    assert_eq!(locked_state_of(Some(false)), LockedState::Unlocked);
    assert_eq!(locked_state_of(None), LockedState::Unknown);
}

#[test]
fn test_file_names() {
    let settings = get_settings_file_name();
    assert!(settings.is_empty() || settings.ends_with("/com.68kilo.tab/settings.json"));
    let log = get_log_file_name();
    assert!(log.is_empty() || log.ends_with("/com.68kilo.tab/debug.log"));
    if !settings.is_empty() {
        assert_ne!(settings, log);
    }
}
