use railway_rs::logring::{level_rank, LogEntry, LogRing};

fn entry(ts: i64, level: &str, message: &str) -> LogEntry {
    LogEntry { ts, level: level.into(), target: "t".into(), message: message.into(), fields: Vec::new() }
}

#[test]
fn ring_keeps_the_newest_entries_only() {
    let mut ring = LogRing::new(3);
    assert!(ring.is_empty());
    for i in 0..5 {
        ring.push(entry(i, "INFO", &format!("m{i}")));
    }
    assert_eq!(ring.len(), 3);
    let all = ring.snapshot(10, None);
    let msgs: Vec<&str> = all.iter().map(|e| e.message.as_str()).collect();
    assert_eq!(msgs, vec!["m4", "m3", "m2"], "newest first");
}

#[test]
fn snapshot_filters_by_minimum_level_and_limit() {
    let mut ring = LogRing::new(10);
    ring.push(entry(1, "DEBUG", "d"));
    ring.push(entry(2, "WARN", "w"));
    ring.push(entry(3, "ERROR", "e"));
    ring.push(entry(4, "INFO", "i"));
    ring.push(entry(5, "weird", "x"));
    let warn: Vec<&str> = ring.snapshot(10, Some("warn")).iter().map(|e| e.message.as_str()).collect();
    assert_eq!(warn, vec!["e", "w"]);
    let one: Vec<&str> = ring.snapshot(1, Some("info")).iter().map(|e| e.message.as_str()).collect();
    assert_eq!(one, vec!["i"]);
    // An unknown minimum level filters nothing.
    assert_eq!(ring.snapshot(10, Some("loud")).len(), 5);
    assert_eq!(ring.snapshot(0, None).len(), 0);
}

#[test]
fn level_names_rank_in_any_case() {
    assert_eq!(level_rank("TRACE"), Some(0));
    assert_eq!(level_rank("debug"), Some(0));
    assert_eq!(level_rank("Info"), Some(1));
    assert_eq!(level_rank("WARN"), Some(2));
    assert_eq!(level_rank("error"), Some(3));
    assert_eq!(level_rank("fatal"), None);
}

#[test]
fn a_ring_without_room_keeps_nothing() {
    let mut ring = LogRing::new(0);
    ring.push(entry(1, "INFO", "m"));
    assert!(ring.is_empty());
}
