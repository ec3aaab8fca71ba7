//! Weekly alarm scheduling: declarative recurrence rules are compiled into a
//! concrete table of weekly instants, the next instant after a point in time
//! is located, the delay until an instant's first occurrence is computed, and
//! a generation of per-instant timers is maintained behind a cyclic cursor.

pub mod calendar;
pub mod compiler;
pub mod cyclic;
pub mod finder;
pub mod lock;
pub mod manager;
pub mod messages;
pub mod paths;
pub mod schedule;
pub mod timer;
pub mod weekday;

pub use calendar::NowTime;
pub use calendar::WEEK_SECONDS;
pub use calendar::first_alarm_secs;
pub use calendar::local_now;
pub use calendar::next_week_secs;
pub use calendar::seconds_till_first_alarm;
pub use calendar::seconds_till_first_alarm_from_now;
pub use calendar::seconds_till_next_week_alarm;
pub use compiler::Rule;
pub use compiler::RuleError;
pub use compiler::compiled;
pub use compiler::get_alarms;
pub use compiler::get_hours;
pub use compiler::rule_valid;
pub use compiler::validate_rules;
pub use cyclic::WrappingVec;
pub use cyclic::sorted_keys;
pub use finder::find_next_alarm;
pub use finder::find_next_for_today;
pub use finder::find_next_spec;
pub use finder::lemma_find_next_empty;
pub use lock::LockedState;
pub use lock::locked_state_of;
pub use manager::AlarmManager;
pub use manager::ScheduleChange;
pub use manager::TimerRecord;
pub use manager::delays_from;
pub use manager::sorted_by_delay;
pub use messages::Message;
pub use messages::MessageType;
pub use messages::Payload;
pub use paths::get_app_dir;
pub use paths::get_log_file_name;
pub use paths::get_settings_file_name;
pub use schedule::AlarmTime;
pub use schedule::WeeklySchedule;
pub use schedule::sched_contains;
pub use schedule::sched_empty;
pub use schedule::sched_instants;
pub use schedule::sched_wf;
pub use timer::TimerEvent;
pub use timer::TimerPhase;
pub use timer::TimerStep;
pub use timer::timer_step;
pub use weekday::Weekday;
pub use weekday::get_weekday;
pub use weekday::weekday_of_str;
