//! Typed events parsed from the game's client log.

use vstd::prelude::*;

verus! {

/// One recognized log line. Events are immutable values created only by the
/// line parser; they carry the line's leading timestamp text and the
/// payload fields of the matched pattern.
#[derive(Debug, Clone, PartialEq)]
pub enum LogEvent {
    /// The player entered a zone.
    ZoneEnter { timestamp: String, zone_name: String },
    /// A character reached a new level.
    LevelUp { timestamp: String, character_name: String, character_class: String, level: u32 },
    /// A character died.
    Death { timestamp: String, character_name: String },
    /// The client finished a zone transition (lifecycle signal).
    InstanceDetails { timestamp: String },
    /// The client began a character handshake (lifecycle signal).
    Login { timestamp: String },
}

/// Mathematical shadow of `LogEvent`, with text as character sequences.
pub enum LogEventV {
    ZoneEnter { timestamp: Seq<char>, zone_name: Seq<char> },
    LevelUp {
        timestamp: Seq<char>,
        character_name: Seq<char>,
        character_class: Seq<char>,
        level: u32,
    },
    Death { timestamp: Seq<char>, character_name: Seq<char> },
    InstanceDetails { timestamp: Seq<char> },
    Login { timestamp: Seq<char> },
}

impl View for LogEvent {
    type V = LogEventV;

    open spec fn view(&self) -> LogEventV {
        match self {
            LogEvent::ZoneEnter { timestamp, zone_name } => (LogEventV::ZoneEnter {
                timestamp: timestamp@,
                zone_name: zone_name@,
            }),
            LogEvent::LevelUp { timestamp, character_name, character_class, level } => (
            LogEventV::LevelUp {
                timestamp: timestamp@,
                character_name: character_name@,
                character_class: character_class@,
                level: *level,
            }),
            LogEvent::Death { timestamp, character_name } => (LogEventV::Death {
                timestamp: timestamp@,
                character_name: character_name@,
            }),
            LogEvent::InstanceDetails { timestamp } => (LogEventV::InstanceDetails {
                timestamp: timestamp@,
            }),
            LogEvent::Login { timestamp } => (LogEventV::Login { timestamp: timestamp@ }),
        }
    }
}

/// View of an optional event.
pub open spec fn opt_event_view(e: Option<LogEvent>) -> Option<LogEventV> {
    match e {
        Some(ev) => Some(ev@),
        None => None,
    }
}

} // verus!
