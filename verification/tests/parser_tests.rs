use poe_watcher::events::LogEvent;
use poe_watcher::tailer::LogWatcher;

#[test]
fn test_parse_zone_enter() {
    let line = "2024/01/15 12:34:56 12345678 abc [INFO Client 1234] You have entered The Coast.";
    let event = LogWatcher::parse_line(line);
    assert!(matches!(event, Some(LogEvent::ZoneEnter { zone_name, .. }) if zone_name == "The Coast"));
}

#[test]
fn test_parse_level_up() {
    let line = "2024/01/15 12:34:56 12345678 abc [INFO Client 1234] TestChar (Witch) is now level 10";
    let event = LogWatcher::parse_line(line);
    assert!(matches!(
        event,
        Some(LogEvent::LevelUp { character_name, character_class, level, .. })
        if character_name == "TestChar" && character_class == "Witch" && level == 10
    ));
}

#[test]
fn test_parse_death() {
    let line = "2024/01/15 12:34:56 12345678 abc [INFO Client 1234] TestChar has been slain.";
    let event = LogWatcher::parse_line(line);
    assert!(matches!(event, Some(LogEvent::Death { character_name, .. }) if character_name == "TestChar"));
}

#[test]
fn parse_zone_enter_full_event() {
    let line = "2024/01/15 12:34:56 12345678 abc [INFO Client 1234] You have entered The Coast.";
    let event = LogWatcher::parse_line(line);
    assert_eq!(
        event,
        Some(LogEvent::ZoneEnter {
            timestamp: "2024/01/15 12:34:56".to_string(),
            zone_name: "The Coast".to_string(),
        })
    );
}

#[test]
fn parse_zone_name_runs_to_final_period() {
    // the zone name is everything between the marker and the last period
    let line = "2024/01/15 12:34:56 12345678 abc [INFO Client 1234] You have entered Lioneye's Watch.";
    let event = LogWatcher::parse_line(line);
    assert!(matches!(event, Some(LogEvent::ZoneEnter { zone_name, .. }) if zone_name == "Lioneye's Watch"));
    let dotted = "2024/01/15 12:34:56 1 a [INFO Client 1] You have entered The Aqueduct, Pt. 2.";
    let event = LogWatcher::parse_line(dotted);
    assert!(matches!(event, Some(LogEvent::ZoneEnter { zone_name, .. }) if zone_name == "The Aqueduct, Pt. 2"));
}

#[test]
fn parse_level_up_non_numeric_level_defaults_to_one() {
    let line = "2024/01/15 12:34:56 12345678 abc [INFO Client 1234] TestChar (Witch) is now level unknown";
    let event = LogWatcher::parse_line(line);
    assert!(matches!(
        event,
        Some(LogEvent::LevelUp { character_name, character_class, level, .. })
        if character_name == "TestChar" && character_class == "Witch" && level == 1
    ));
}

#[test]
fn parse_level_up_overflowing_level_defaults_to_one() {
    let line = "2024/01/15 12:34:56 12345678 abc [INFO Client 1234] TestChar (Witch) is now level 99999999999";
    let event = LogWatcher::parse_line(line);
    assert!(matches!(event, Some(LogEvent::LevelUp { level, .. }) if level == 1));
}

#[test]
fn parse_instance_details() {
    let line = "2024/01/15 12:34:56 12345678 abc [DEBUG Client 1234] Got Instance Details from login server";
    let event = LogWatcher::parse_line(line);
    assert_eq!(
        event,
        Some(LogEvent::InstanceDetails { timestamp: "2024/01/15 12:34:56".to_string() })
    );
}

#[test]
fn parse_login() {
    let line = "2024/01/15 12:34:56 12345678 abc [INFO Client 1234] Connecting to instance server at 127.0.0.1:6112";
    let event = LogWatcher::parse_line(line);
    assert_eq!(event, Some(LogEvent::Login { timestamp: "2024/01/15 12:34:56".to_string() }));
}

#[test]
fn parse_unrelated_lines_yield_nothing() {
    assert_eq!(LogWatcher::parse_line(""), None);
    assert_eq!(
        LogWatcher::parse_line("2024/01/15 12:34:56 12345678 abc [INFO Client 1234] Tile hash: 12345"),
        None
    );
    // no timestamp prefix
    assert_eq!(LogWatcher::parse_line("You have entered The Coast."), None);
    // malformed timestamp
    assert_eq!(
        LogWatcher::parse_line("2024-01-15 12:34:56 1 a [INFO Client 1] You have entered The Coast."),
        None
    );
}

#[test]
fn parse_priority_zone_enter_wins() {
    // a line that could read as both zone enter and death takes the first pattern
    let line = "2024/01/15 12:34:56 1 a [INFO Client 1] You have entered X has been slain.";
    let event = LogWatcher::parse_line(line);
    assert!(matches!(event, Some(LogEvent::ZoneEnter { .. })));
}
