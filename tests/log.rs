use dagre_graph::{DagreEvent, DagreRingLog, EventLogWriter, NopEventLogWriter, LOG_CAPACITY};

fn ev(label: &str) -> DagreEvent {
    DagreEvent::Add(label.to_string())
}

#[test]
fn event_lines() {
    assert_eq!(DagreEvent::Add("a".to_string()).to_string(), "[+]   a\n");
    assert_eq!(DagreEvent::From("a".to_string()).to_string(), "a -> *\n");
    assert_eq!(DagreEvent::To("a".to_string()).to_string(), "*  -> a\n");
    assert_eq!(DagreEvent::Remove("a".to_string()).to_string(), "[-]   a\n");
    assert_eq!(DagreEvent::UnlinkInc("a".to_string()).to_string(), "* -/-> a\n");
    assert_eq!(DagreEvent::UnlinkOut("a".to_string()).to_string(), "a -/-> *\n");
}

#[test]
fn ring_log_new_is_empty_with_default_capacity() {
    let log = DagreRingLog::new();
    assert_eq!(log.capacity(), 20);
    assert_eq!(LOG_CAPACITY, 20);
    assert!(log.entries().is_empty());
    assert_eq!(log.dump(), "");
}

#[test]
fn ring_log_dumps_most_recent_first() {
    let mut log = DagreRingLog::new();
    log.record(ev("first"));
    log.record(DagreEvent::To("second".to_string()));
    log.record(DagreEvent::Remove("third".to_string()));
    assert_eq!(log.dump(), "[-]   third\n*  -> second\n[+]   first\n");
}

#[test]
fn ring_log_drops_oldest_when_full() {
    let mut log = DagreRingLog::with_capacity(2);
    log.record(ev("1"));
    log.record(ev("2"));
    log.record(ev("3"));
    assert_eq!(log.entries().len(), 2);
    assert_eq!(log.dump(), "[+]   3\n[+]   2\n");
}

#[test]
fn ring_log_default_capacity_is_kept() {
    let mut log = DagreRingLog::new();
    for i in 0..25 {
        log.record(ev(&i.to_string()));
    }
    assert_eq!(log.entries().len(), 20);
    assert!(log.dump().starts_with("[+]   24\n[+]   23\n"));
    assert!(log.dump().ends_with("[+]   5\n"));
}

#[test]
fn ring_log_of_capacity_zero_keeps_nothing() {
    let mut log = DagreRingLog::with_capacity(0);
    log.record(ev("x"));
    assert!(log.entries().is_empty());
}

#[test]
fn writers_through_the_trait() {
    let mut log = DagreRingLog::new();
    log.write(ev("w"));
    assert_eq!(log.dump(), "[+]   w\n");
    let mut nop = NopEventLogWriter();
    nop.write(ev("ignored"));
}
