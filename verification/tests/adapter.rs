use corpy::boundary::{Boundary, LogLevel};
use corpy::source::Vertical;

#[test]
fn open_failure_yields_null_and_one_error_entry() {
    let mut b = Boundary::new();
    let h = b.vertical_new(
        "missing.txt".to_string(),
        Err("No such file or directory".to_string()),
    );
    assert_eq!(h, None);
    assert_eq!(b.handles_live, 0);
    assert_eq!(b.sources.len(), 0);
    assert_eq!(b.log.len(), 1);
    assert_eq!(b.log[0].level, LogLevel::Error);
    assert_eq!(b.log[0].message, "No such file or directory".to_string());
}

#[test]
fn open_success_yields_handle_and_debug_entry() {
    let mut b = Boundary::new();
    let h = b.vertical_new("data.txt".to_string(), Ok(Vertical::new("x\n")));
    assert_eq!(h, Some(0));
    assert_eq!(b.handles_live, 1);
    assert_eq!(b.log.len(), 1);
    assert_eq!(b.log[0].level, LogLevel::Debug);
    assert_eq!(b.log[0].message, "data.txt".to_string());
}

#[test]
fn hello_world_scenario() {
    let mut b = Boundary::new();
    let h = b
        .vertical_new("test.txt".to_string(), Ok(Vertical::new("hello\nworld\n")))
        .unwrap();
    assert_eq!(b.vertical_next_line(h), Some("hello".to_string()));
    assert_eq!(b.vertical_next_line(h), Some("world".to_string()));
    assert_eq!(b.vertical_next_line(h), None);
    b.vertical_free(Some(h));
    assert_eq!(b.handles_live, 0);
}

#[test]
fn n_lines_then_exactly_one_null() {
    let content = "one\ntwo\nthree\n";
    let mut b = Boundary::new();
    let h = b
        .vertical_new("data.txt".to_string(), Ok(Vertical::new(content)))
        .unwrap();
    let mut pulled: Vec<String> = Vec::new();
    while let Some(line) = b.vertical_next_line(h) {
        pulled.push(line);
    }
    assert_eq!(
        pulled,
        vec!["one".to_string(), "two".to_string(), "three".to_string()]
    );
    let log_len = b.log.len();
    assert_eq!(b.vertical_next_line(h), None);
    assert_eq!(b.vertical_next_line(h), None);
    // exhaustion is silent and idempotent: no further entries, no change
    assert_eq!(b.log.len(), log_len);
    b.vertical_free(Some(h));
}

#[test]
fn empty_line_is_non_null_and_zero_length() {
    let mut b = Boundary::new();
    let h = b
        .vertical_new("data.txt".to_string(), Ok(Vertical::new("a\n\nbb\n")))
        .unwrap();
    assert_eq!(b.vertical_next_line(h), Some("a".to_string()));
    let empty = b.vertical_next_line(h);
    assert!(empty.is_some());
    assert_eq!(empty.unwrap().len(), 0);
    assert_eq!(b.vertical_next_line(h), Some("bb".to_string()));
    assert_eq!(b.vertical_next_line(h), None);
    b.vertical_free(Some(h));
}

#[test]
fn read_failure_logs_error_and_exhausts() {
    let mut b = Boundary::new();
    let source = Vertical::from_events(vec![
        Ok("a".to_string()),
        Err("stream did not decode".to_string()),
    ]);
    let h = b.vertical_new("data.txt".to_string(), Ok(source)).unwrap();
    assert_eq!(b.vertical_next_line(h), Some("a".to_string()));
    let log_len = b.log.len();
    assert_eq!(b.vertical_next_line(h), None);
    assert_eq!(b.log.len(), log_len + 1);
    assert_eq!(b.log[log_len].level, LogLevel::Error);
    assert_eq!(b.log[log_len].message, "stream did not decode".to_string());
    // after the failure the source is permanently exhausted, silently
    assert_eq!(b.vertical_next_line(h), None);
    assert_eq!(b.log.len(), log_len + 1);
    b.vertical_free(Some(h));
}

#[test]
fn allocation_counts_return_to_zero() {
    let mut b = Boundary::new();
    let h1 = b
        .vertical_new("one.txt".to_string(), Ok(Vertical::new("a\nb\n")))
        .unwrap();
    let h2 = b
        .vertical_new("two.txt".to_string(), Ok(Vertical::new("c\n")))
        .unwrap();
    assert_eq!(b.handles_live, 2);
    let s1 = b.vertical_next_line(h1);
    let s2 = b.vertical_next_line(h2);
    let s3 = b.vertical_next_line(h1);
    assert_eq!(b.strings_live, 3);
    b.string_free(s1);
    b.string_free(s2);
    b.string_free(s3);
    assert_eq!(b.strings_live, 0);
    b.vertical_free(Some(h1));
    b.vertical_free(Some(h2));
    assert_eq!(b.handles_live, 0);
}

#[test]
fn failed_open_allocates_nothing() {
    let mut b = Boundary::new();
    let before_handles = b.handles_live;
    let before_slots = b.sources.len();
    let h = b.vertical_new("missing.txt".to_string(), Err("denied".to_string()));
    assert!(h.is_none());
    assert_eq!(b.handles_live, before_handles);
    assert_eq!(b.sources.len(), before_slots);
}

#[test]
fn null_sentinels_are_no_ops() {
    let mut b = Boundary::new();
    b.vertical_free(None);
    b.string_free(None);
    assert_eq!(b.handles_live, 0);
    assert_eq!(b.strings_live, 0);
    assert_eq!(b.log.len(), 0);
}

#[test]
fn string_free_logs_one_debug_entry() {
    let mut b = Boundary::new();
    let h = b
        .vertical_new("data.txt".to_string(), Ok(Vertical::new("hello\n")))
        .unwrap();
    let line = b.vertical_next_line(h);
    let log_len = b.log.len();
    b.string_free(line);
    assert_eq!(b.strings_live, 0);
    assert_eq!(b.log.len(), log_len + 1);
    assert_eq!(b.log[log_len].level, LogLevel::Debug);
    b.vertical_free(Some(h));
}

#[test]
fn take_log_drains_in_order() {
    let mut b = Boundary::new();
    let h = b.vertical_new("data.txt".to_string(), Ok(Vertical::new("x\n")));
    b.vertical_free(Some(h.unwrap()));
    let entries = b.take_log();
    assert_eq!(entries.len(), 2);
    assert_eq!(entries[0].level, LogLevel::Debug);
    assert_eq!(entries[0].message, "data.txt".to_string());
    assert_eq!(entries[1].level, LogLevel::Debug);
    assert_eq!(b.log.len(), 0);
}
