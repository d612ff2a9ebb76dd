use std::collections::VecDeque;
use std::sync::{Arc, Mutex};

use skypier_blackhole::tui::logs::{
    push_bounded, strip_debug_quotes, LineVisitor, LogBuffer, LogLine, TuiLogLayer,
};
use tracing::Level;

fn line(body: &str) -> LogLine {
    LogLine { time: "12:00:00".to_string(), level: Level::INFO, body: body.to_string(), blocked_domain: None }
}

fn bodies(buf: &VecDeque<LogLine>) -> Vec<String> {
    buf.iter().map(|l| l.body.clone()).collect()
}

#[test]
fn layer_keeps_its_buffer_and_capacity() {
    let buffer: LogBuffer = Arc::new(Mutex::new(VecDeque::new()));
    let layer = TuiLogLayer::new(Arc::clone(&buffer), 500);
    assert_eq!(layer.capacity(), 500);
    assert!(Arc::ptr_eq(layer.buffer(), &buffer));
}

#[test]
fn full_buffer_drops_its_oldest_line() {
    let mut buf = VecDeque::new();
    for b in ["a", "b", "c", "d"] {
        push_bounded(&mut buf, 2, line(b));
    }
    assert_eq!(bodies(&buf), vec!["c", "d"]);
}

#[test]
fn buffer_below_capacity_only_grows() {
    let mut buf = VecDeque::new();
    push_bounded(&mut buf, 3, line("a"));
    push_bounded(&mut buf, 3, line("b"));
    assert_eq!(bodies(&buf), vec!["a", "b"]);
}

#[test]
fn zero_capacity_keeps_the_last_line() {
    let mut buf = VecDeque::new();
    push_bounded(&mut buf, 0, line("a"));
    push_bounded(&mut buf, 0, line("b"));
    assert_eq!(bodies(&buf), vec!["b"]);
}

#[test]
fn debug_quotes_are_stripped() {
    assert_eq!(strip_debug_quotes("\"example.com\""), "example.com");
    assert_eq!(strip_debug_quotes("42"), "42");
    assert_eq!(strip_debug_quotes("\""), "\"");
    assert_eq!(strip_debug_quotes("\"\""), "");
    assert_eq!(strip_debug_quotes("\"open"), "\"open");
}

#[test]
fn quoting_then_stripping_gives_back_the_text() {
    for s in ["", "a", "x\"y", "\"", "héllo wörld"] {
        assert_eq!(strip_debug_quotes(&format!("\"{}\"", s)), s);
    }
}

#[test]
fn visitor_renders_message_then_fields() {
    let mut v = LineVisitor::new();
    v.record("domain", "ads.example.com".to_string());
    v.record("message", "blocked".to_string());
    v.record("client", "10.0.0.2".to_string());
    assert_eq!(v.message, "blocked");
    assert_eq!(v.fields, " domain=ads.example.com client=10.0.0.2");
    let l = v.assemble("08:15:00".to_string(), Level::WARN);
    assert_eq!(l.body, "blocked domain=ads.example.com client=10.0.0.2");
    assert_eq!(l.blocked_domain.as_deref(), Some("ads.example.com"));
    assert_eq!(l.level, Level::WARN);
    assert_eq!(l.time, "08:15:00");
}

#[test]
fn other_messages_carry_no_blocked_domain() {
    let mut v = LineVisitor::new();
    v.record("message", "resolved".to_string());
    v.record("domain", "example.com".to_string());
    let l = v.assemble("00:00:00".to_string(), Level::INFO);
    assert_eq!(l.blocked_domain, None);
    assert_eq!(l.body, "resolved domain=example.com");
}

#[test]
fn blocked_without_domain_field_has_none() {
    let mut v = LineVisitor::new();
    v.record("message", "blocked".to_string());
    let l = v.assemble("00:00:00".to_string(), Level::INFO);
    assert_eq!(l.blocked_domain, None);
    assert_eq!(l.body, "blocked");
}
