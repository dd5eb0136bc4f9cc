use iceoryx2_iam::audit::{
    AuditEvent, AuditEventKind, SerializableAuditEvent, Timestamp,
};
use iceoryx2_iam::policy::PolicyDecision;
use iceoryx2_iam::protocol::{DenialReason, MessagingPatternKind, PortType};
use iceoryx2_iam::types::ProcessCredentials;

fn test_credentials() -> ProcessCredentials {
    ProcessCredentials::new(1234, 1000, 1000)
}

#[test]
fn test_audit_event_creation() {
    let event = AuditEvent::new(
        Some(Timestamp { secs: 0, nanos: 0 }),
        AuditEventKind::Connect,
        test_credentials(),
        String::from("test/service"),
        PolicyDecision::Allow,
    );

    assert_eq!(event.service_name, "test/service");
    assert!(event.decision.is_allowed());
    assert!(matches!(event.kind, AuditEventKind::Connect));
}

#[test]
fn test_serializable_audit_event_from_allow() {
    let event = AuditEvent::new(
        Some(Timestamp { secs: 0, nanos: 0 }),
        AuditEventKind::Connect,
        test_credentials(),
        String::from("test/service"),
        PolicyDecision::Allow,
    );

    let serializable = SerializableAuditEvent::from(&event);
    assert_eq!(serializable.kind, "connect");
    assert_eq!(serializable.decision, "allow");
    assert_eq!(serializable.uid, 1000);
    assert_eq!(serializable.gid, 1000);
    assert_eq!(serializable.pid, 1234);
    assert_eq!(serializable.service_name, "test/service");
    assert!(serializable.reason.is_empty());
}

#[test]
fn test_serializable_audit_event_from_deny() {
    let event = AuditEvent::new(
        Some(Timestamp { secs: 0, nanos: 0 }),
        AuditEventKind::Connect,
        test_credentials(),
        String::from("test/service"),
        PolicyDecision::deny(DenialReason::Unauthorized, "not allowed"),
    );

    let serializable = SerializableAuditEvent::from(&event);
    assert_eq!(serializable.decision, "deny");
    assert_eq!(serializable.reason, "Unauthorized");
    assert_eq!(serializable.message, "not allowed");
}

#[test]
fn test_serializable_audit_event_json() {
    let event = AuditEvent::new(
        Some(Timestamp { secs: 0, nanos: 0 }),
        AuditEventKind::Attach {
            port_type: PortType::Publisher,
            port_id: 42,
        },
        test_credentials(),
        String::from("test/service"),
        PolicyDecision::Allow,
    );

    let serializable = SerializableAuditEvent::from(&event);
    let json = json_of(&serializable);
    assert!(json.contains("\"kind\":\"attach:Publisher:42\""));
    assert!(json.contains("\"decision\":\"allow\""));
}

#[test]
fn test_audit_event_kind_variants() {
    // Verify all variants can be created and debug-printed
    let kinds = vec![
        AuditEventKind::Connect,
        AuditEventKind::Create {
            messaging_pattern: MessagingPatternKind::PublishSubscribe,
        },
        AuditEventKind::Attach {
            port_type: PortType::Subscriber,
            port_id: 1,
        },
        AuditEventKind::AddSegment { size: 4096 },
        AuditEventKind::Deny {
            reason: String::from("test"),
        },
        AuditEventKind::Detach { port_id: 2 },
    ];

    for kind in &kinds {
        let _debug = format!("{:?}", kind);
    }
}

fn json_of(event: &SerializableAuditEvent) -> String {
    let mut fields = serde_json::Map::new();
    fields.insert(String::from("kind"), serde_json::Value::String(event.kind.clone()));
    fields.insert(String::from("decision"), serde_json::Value::String(event.decision.clone()));
    serde_json::to_string(&serde_json::Value::Object(fields)).unwrap()
}

fn kind_of(kind: AuditEventKind) -> String {
    let event = AuditEvent::new(
        None,
        kind,
        test_credentials(),
        String::from("test/service"),
        PolicyDecision::Allow,
    );
    SerializableAuditEvent::from(&event).kind
}

#[test]
fn events_are_flattened_to_text() {
    assert_eq!(kind_of(AuditEventKind::Connect), "connect");
    assert_eq!(
        kind_of(AuditEventKind::Create { messaging_pattern: MessagingPatternKind::Event }),
        "create:Event"
    );
    assert_eq!(
        kind_of(AuditEventKind::Attach { port_type: PortType::Client, port_id: 7 }),
        "attach:Client:7"
    );
    assert_eq!(kind_of(AuditEventKind::AddSegment { size: 4096 }), "add_segment:4096");
    assert_eq!(
        kind_of(AuditEventKind::Deny { reason: String::from("because") }),
        "deny:because"
    );
    assert_eq!(kind_of(AuditEventKind::Detach { port_id: 12 }), "detach:12");
}

#[test]
fn the_time_of_an_event_is_flattened() {
    let event = AuditEvent::new(
        Some(Timestamp { secs: 12, nanos: 34 }),
        AuditEventKind::Connect,
        test_credentials(),
        String::from("test/service"),
        PolicyDecision::Allow,
    );
    let flat = SerializableAuditEvent::from(&event);
    assert_eq!(flat.timestamp_secs, 12);
    assert_eq!(flat.timestamp_nanos, 34);
}
