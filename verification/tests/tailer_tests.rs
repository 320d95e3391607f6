use poe_watcher::events::LogEvent;
use poe_watcher::tailer::LogWatcher;

fn watcher_at(position: u64) -> LogWatcher {
    let mut w = LogWatcher::new("Client.txt".to_string());
    w.start(position);
    w
}

#[test]
fn end_to_end_three_lines_in_order() {
    // a log file already holding 100 bytes of history; three lines appended
    let mut w = watcher_at(100);
    let chunk = "2024/01/15 12:34:56 1 a [INFO Client 1] You have entered The Coast.\n\
2024/01/15 12:35:10 1 a [INFO Client 1] Foo (Witch) is now level 10\n\
2024/01/15 12:35:40 1 a [INFO Client 1] Foo has been slain.\n";
    let events = w.process_chunk(chunk.as_bytes());
    assert_eq!(
        events,
        vec![
            LogEvent::ZoneEnter {
                timestamp: "2024/01/15 12:34:56".to_string(),
                zone_name: "The Coast".to_string(),
            },
            LogEvent::LevelUp {
                timestamp: "2024/01/15 12:35:10".to_string(),
                character_name: "Foo".to_string(),
                character_class: "Witch".to_string(),
                level: 10,
            },
            LogEvent::Death {
                timestamp: "2024/01/15 12:35:40".to_string(),
                character_name: "Foo".to_string(),
            },
        ]
    );
    assert_eq!(w.position, 100 + chunk.len() as u64);
}

#[test]
fn empty_pass_is_idempotent() {
    let mut w = watcher_at(42);
    let events = w.process_chunk(b"");
    assert!(events.is_empty());
    assert_eq!(w.position, 42);
    // running it again changes nothing either
    let events = w.process_chunk(b"");
    assert!(events.is_empty());
    assert_eq!(w.position, 42);
}

#[test]
fn partial_line_waits_for_its_remainder() {
    let mut w = watcher_at(0);
    // the write stops mid-line: nothing is consumed
    let first = b"2024/01/15 12:34:56 1 a [INFO Client 1] You have ent";
    let events = w.process_chunk(first);
    assert!(events.is_empty());
    assert_eq!(w.position, 0);
    // the remainder arrives: the whole line is parsed once
    let whole = b"2024/01/15 12:34:56 1 a [INFO Client 1] You have entered The Coast.\n";
    let events = w.process_chunk(whole);
    assert_eq!(events.len(), 1);
    assert!(matches!(&events[0], LogEvent::ZoneEnter { zone_name, .. } if zone_name == "The Coast"));
    assert_eq!(w.position, whole.len() as u64);
}

#[test]
fn mixed_chunk_keeps_file_order_and_drops_noise() {
    let mut w = watcher_at(0);
    let chunk = "2024/01/15 12:00:00 1 a [INFO Client 1] Tile hash: 123\n\
2024/01/15 12:00:01 1 a [INFO Client 1] Foo has been slain.\n\
not a log line\n\
2024/01/15 12:00:02 1 a [INFO Client 1] Connecting to instance server at 1.2.3.4\n";
    let events = w.process_chunk(chunk.as_bytes());
    assert_eq!(events.len(), 2);
    assert!(matches!(&events[0], LogEvent::Death { .. }));
    assert!(matches!(&events[1], LogEvent::Login { .. }));
}

#[test]
fn invalid_utf8_line_is_discarded() {
    let mut w = watcher_at(0);
    let mut chunk: Vec<u8> = Vec::new();
    chunk.extend_from_slice(b"2024/01/15 12:00:00 1 a [INFO Client 1] You have entered ");
    chunk.extend_from_slice(&[0xff, 0xfe]);
    chunk.extend_from_slice(b".\n");
    chunk.extend_from_slice(b"2024/01/15 12:00:01 1 a [INFO Client 1] Foo has been slain.\n");
    let events = w.process_chunk(&chunk);
    assert_eq!(events.len(), 1);
    assert!(matches!(&events[0], LogEvent::Death { .. }));
    assert_eq!(w.position, chunk.len() as u64);
}

#[test]
fn truncated_file_resets_the_cursor() {
    let mut w = watcher_at(500);
    w.note_file_len(120);
    assert_eq!(w.position, 0);
    // a file at least as long as the cursor leaves it alone
    let mut w = watcher_at(500);
    w.note_file_len(500);
    assert_eq!(w.position, 500);
    w.note_file_len(900);
    assert_eq!(w.position, 500);
}

#[test]
fn polling_interval_follows_the_fast_flag() {
    let mut w = LogWatcher::new("Client.txt".to_string());
    assert_eq!(w.poll_interval_ms(), 100);
    w.set_fast_polling(true);
    assert_eq!(w.poll_interval_ms(), 25);
    w.set_fast_polling(false);
    assert_eq!(w.poll_interval_ms(), 100);
}
