use starscript::astronomicon::Astronomicon;
use starscript::identity_manager::AgentIdentity;
use starscript::log::{LogSchema, LogSeverity, Message};
use starscript::signaller::Signaller;

#[test]
fn astronomicon_starts_empty() {
    let a = Astronomicon::new();
    assert_eq!(a.systems, "");
    assert!(a.waypoints.is_empty());
}

#[test]
fn agent_identity_returns_its_fields() {
    let id = AgentIdentity::new("GREEN".to_string(), "token-value".to_string());
    assert_eq!(id.get_symbol(), "GREEN");
    assert_eq!(id.get_token(), "token-value");
}

#[test]
fn message_carries_its_payload() {
    let m = Message::new(LogSeverity::Priority, "AST-1".to_string(), "hello".to_string());
    assert!(matches!(m.severity, LogSeverity::Priority));
    assert_eq!(m.origin, "AST-1");
    assert_eq!(m.content, "hello");
}

#[test]
fn log_severity_renders_and_defaults() {
    assert_eq!(LogSeverity::Routine.to_string(), "Routine");
    assert_eq!(LogSeverity::Priority.to_string(), "Priority");
    assert_eq!(LogSeverity::Critical.to_string(), "Critical");
    assert!(matches!(LogSeverity::default(), LogSeverity::Routine));
}

#[test]
fn log_schema_pins_payload_fields() {
    let schema = LogSchema::new(
        "Routine".to_string(),
        "origin-1".to_string(),
        "content-1".to_string(),
    );
    assert_eq!(schema.severity, "Routine");
    assert_eq!(schema.origin, "origin-1");
    assert_eq!(schema.content, "content-1");
}

#[test]
fn signaller_queues_in_arrival_order() {
    let mut s = Signaller::new();
    assert!(s.queue.is_empty());
    s.send("req-1".to_string());
    s.send("req-2".to_string());
    assert_eq!(s.queue, vec!["req-1".to_string(), "req-2".to_string()]);
}
