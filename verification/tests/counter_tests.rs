use counter::counter::{Counter, DEFAULT_LOG_RATE};
use counter::registry::CounterRegistry;
use log::Level;

#[test]
fn test_counter() {
    let mut c = Counter::new("test", 1000);
    let count = 1;
    c.inc(Level::Info, count, None);
    assert_eq!(c.counts, 1);
    assert_eq!(c.times, 1);
    assert_eq!(c.lograte, 1000);
    assert_eq!(c.lastlog, 0);
    assert_eq!(c.name, "test");
    for _ in 0..199 {
        c.inc(Level::Info, 2, None);
    }
    assert_eq!(c.lastlog, 397);
    c.inc(Level::Info, 2, None);
    assert_eq!(c.lastlog, 399);
}

#[test]
fn test_inc_new_counter() {
    let mut registry = CounterRegistry::new();
    registry.inc_new("counter-1", Level::Info, 1, 0, None);
    registry.inc_new("counter-2", Level::Info, 1, 2, None);
}

#[test]
fn test_lograte() {
    assert_eq!(Counter::default_log_rate(None), DEFAULT_LOG_RATE);
    let mut c = Counter::new("test_lograte", 0);
    c.inc(Level::Info, 2, None);
    assert_eq!(c.lograte, DEFAULT_LOG_RATE);
}

#[test]
fn test_lograte_env() {
    assert_ne!(DEFAULT_LOG_RATE, 0);
    let mut c = Counter::new("test_lograte_env", 0);
    c.inc(Level::Info, 2, Some("50"));
    assert_eq!(c.lograte, 50);

    let mut c2 = Counter::new("test_lograte_env", 0);
    c2.inc(Level::Info, 2, Some("0"));
    assert_eq!(c2.lograte, DEFAULT_LOG_RATE);
}

#[test]
fn test_parse_usize() {
    assert_eq!(counter::counter::parse_usize("50"), Some(50));
    assert_eq!(counter::counter::parse_usize("+7"), Some(7));
    assert_eq!(counter::counter::parse_usize("0"), Some(0));
    assert_eq!(counter::counter::parse_usize("007"), Some(7));
    assert_eq!(counter::counter::parse_usize(""), None);
    assert_eq!(counter::counter::parse_usize("+"), None);
    assert_eq!(counter::counter::parse_usize("abc"), None);
    assert_eq!(counter::counter::parse_usize("12x"), None);
    assert_eq!(counter::counter::parse_usize("-3"), None);
    assert_eq!(
        counter::counter::parse_usize("18446744073709551615"),
        Some(usize::MAX)
    );
    assert_eq!(counter::counter::parse_usize("18446744073709551616"), None);
}

#[test]
fn test_default_log_rate_cases() {
    assert_eq!(Counter::default_log_rate(Some("50")), 50);
    assert_eq!(Counter::default_log_rate(Some("1")), 1);
    assert_eq!(Counter::default_log_rate(Some("0")), DEFAULT_LOG_RATE);
    assert_eq!(Counter::default_log_rate(Some("junk")), DEFAULT_LOG_RATE);
    assert_eq!(Counter::default_log_rate(Some("")), DEFAULT_LOG_RATE);
    assert_eq!(Counter::default_log_rate(None), DEFAULT_LOG_RATE);
}

#[test]
fn test_record_sequence_totals() {
    let mut c = Counter::new("totals", 1000);
    c.inc(Level::Info, 1, None);
    c.inc(Level::Info, 2, None);
    c.inc(Level::Info, 3, None);
    assert_eq!(c.counts, 6);
    assert_eq!(c.times, 3);
}

#[test]
fn test_lograte_fixed_once_resolved() {
    let mut c = Counter::new("sticky", 0);
    c.inc(Level::Info, 1, Some("50"));
    assert_eq!(c.lograte, 50);
    c.inc(Level::Info, 1, Some("7"));
    assert_eq!(c.lograte, 50);
}

#[test]
fn test_init_idempotent() {
    let mut c = Counter::new("test", 0);
    c.init();
    let name_once = c.point.as_ref().unwrap().name.clone();
    let count_once = c.point.as_ref().unwrap().count;
    c.init();
    assert_eq!(c.point.as_ref().unwrap().name, name_once);
    assert_eq!(c.point.as_ref().unwrap().count, count_once);
    assert_eq!(name_once, "counter-test");
    assert_eq!(count_once, 0);
}

#[test]
fn test_log_entry_window() {
    let mut c = Counter::new("windows", 1);
    let action = c.inc_with_enabled(true, 5, None);
    let entry = action.log_entry.expect("rate 1 logs every call");
    assert_eq!(entry.name, "windows");
    assert_eq!(entry.counts, 5);
    assert_eq!(entry.times, 1);
    assert_eq!(entry.events, 5);

    let action = c.inc_with_enabled(false, 5, None);
    assert!(action.log_entry.is_none());

    let mut c2 = Counter::new("every-other", 2);
    let action = c2.inc_with_enabled(true, 1, None);
    assert!(action.log_entry.is_none());
    let action = c2.inc_with_enabled(true, 1, None);
    let entry = action.log_entry.expect("rate 2 logs every second call");
    assert_eq!(entry.times, 2);
}

#[test]
fn test_submit_deltas() {
    let mut c = Counter::new("plain", 1000);
    let action = c.inc(Level::Info, 4, None);
    assert!(action.submit.is_none());

    let mut c2 = Counter::new("metrics", 1000);
    c2.init();
    let action = c2.inc(Level::Info, 4, None);
    let point = action.submit.expect("initialized counters submit");
    assert_eq!(point.name, "counter-metrics");
    assert_eq!(point.count, 0);
    let action = c2.inc(Level::Info, 5, None);
    let point = action.submit.expect("initialized counters submit");
    assert_eq!(point.count, 4);
    assert_eq!(c2.lastlog, 4);
}

#[test]
fn test_registry_get_or_create() {
    let mut registry = CounterRegistry::new();
    let a = registry.get_or_create("alpha", 0);
    let b = registry.get_or_create("beta", 10);
    let a2 = registry.get_or_create("alpha", 99);
    assert_eq!(a, a2);
    assert_ne!(a, b);
    assert_eq!(registry.entries.len(), 2);
    assert_eq!(registry.entries[a].name, "alpha");
    assert_eq!(registry.entries[a].lograte, 0);
    assert_eq!(registry.entries[b].lograte, 10);
    assert_eq!(
        registry.entries[a].point.as_ref().unwrap().name,
        "counter-alpha"
    );
}

#[test]
fn test_registry_inc_new_accumulates() {
    let mut registry = CounterRegistry::new();
    registry.inc_new("hits", Level::Info, 2, 0, None);
    registry.inc_new("hits", Level::Info, 3, 0, None);
    assert_eq!(registry.entries.len(), 1);
    assert_eq!(registry.entries[0].counts, 5);
    assert_eq!(registry.entries[0].times, 2);
    assert_eq!(registry.entries[0].lograte, DEFAULT_LOG_RATE);
}
