//! The typed messages exchanged between the user-interface side and the
//! orchestrator: commands coming in from the shell, events going back out.

use crate::compiler::Rule;
use crate::schedule::AlarmTime;
use crate::weekday::str_eq;
use vstd::prelude::*;

verus! {

/// The kinds of messages on the bus.
#[derive(Clone, Copy, Debug, PartialEq, Eq, Structural)]
pub enum MessageType {
    /// The shell has started and wants the stored rules applied.
    CmdStartup,
    /// The shell submits a new rule set.
    CmdUpdateRules,
    /// A rule set has been applied; the shell is told.
    EvtRulesApplied,
    /// The orchestrator must rebuild its timers.
    CmdUpdateAlarms,
    /// The next alarm changed; the shell is told.
    EvtNextAlarm,
    /// An alarm is firing now; the shell is told.
    EvtPlayingAlarm,
}

impl MessageType {
    /// The command named by a shell message's type string; anything but the
    /// two inbound commands is rejected.
    pub fn from_str(typ: &str) -> (r: Option<MessageType>)
        ensures
            typ@ == "cmd-update-rules"@ ==> r == Some(MessageType::CmdUpdateRules),
            typ@ == "cmd-startup"@ ==> r == Some(MessageType::CmdStartup),
            typ@ != "cmd-update-rules"@ && typ@ != "cmd-startup"@ ==> r is None,
    {
        proof {
            reveal_strlit("cmd-update-rules");
            reveal_strlit("cmd-startup");
            assert("cmd-update-rules"@.len() == 16);
            assert("cmd-startup"@.len() == 11);
            assert("cmd-update-rules"@ != "cmd-startup"@);
        }
        if str_eq(typ, "cmd-update-rules") {
            Some(MessageType::CmdUpdateRules)
        } else if str_eq(typ, "cmd-startup") {
            Some(MessageType::CmdStartup)
        } else {
            None
        }
    }

    /// The name an outbound event is published under; kinds that are never
    /// published have a placeholder name.
    pub fn event_name(&self) -> (r: &'static str)
        ensures
            *self == MessageType::EvtNextAlarm ==> r@ == "event-next-alarm"@,
            *self == MessageType::EvtRulesApplied ==> r@ == "event-rules-applied"@,
            *self != MessageType::EvtNextAlarm && *self != MessageType::EvtRulesApplied ==> r@
                == "not-implemented"@,
    {
        match self {
            MessageType::EvtNextAlarm => "event-next-alarm",
            MessageType::EvtRulesApplied => "event-rules-applied",
            _ => "not-implemented",
        }
    }
}

/// What a message carries.
#[derive(Clone, Debug)]
pub enum Payload {
    /// A rule set.
    Rules(Vec<Rule>),
    /// An instant, or none.
    Alarm(Option<AlarmTime>),
}

/// One message on the bus.
#[derive(Clone, Debug)]
pub struct Message {
    pub typ: MessageType,
    pub payload: Payload,
}

} // verus!
