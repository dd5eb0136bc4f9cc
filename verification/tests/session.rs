use iceoryx2_iam::protocol::{PortType, SessionCounter};
use iceoryx2_iam::session::{ClientSession, PortInfo, SessionResourceUsage};
use iceoryx2_iam::types::{ProcessCredentials, SegmentId};

fn test_credentials() -> ProcessCredentials {
    ProcessCredentials::new(1234, 1000, 1000)
}

fn test_session() -> ClientSession {
    ClientSession::new(test_credentials(), &mut SessionCounter::new(), 0)
}

#[test]
fn test_resource_usage_new() {
    let usage = SessionResourceUsage::new();
    assert_eq!(usage.publisher_count, 0);
    assert_eq!(usage.subscriber_count, 0);
    assert_eq!(usage.server_count, 0);
    assert_eq!(usage.client_count, 0);
    assert_eq!(usage.segment_count, 0);
    assert_eq!(usage.total_memory, 0);
}

#[test]
fn test_resource_usage_default() {
    let usage = SessionResourceUsage::default();
    assert_eq!(usage, SessionResourceUsage::new());
}

#[test]
fn test_resource_usage_increment_port() {
    let mut usage = SessionResourceUsage::new();

    usage.increment_port(PortType::Publisher);
    assert_eq!(usage.publisher_count, 1);

    usage.increment_port(PortType::Subscriber);
    usage.increment_port(PortType::Subscriber);
    assert_eq!(usage.subscriber_count, 2);

    usage.increment_port(PortType::Server);
    assert_eq!(usage.server_count, 1);

    usage.increment_port(PortType::Client);
    assert_eq!(usage.client_count, 1);
}

#[test]
fn test_resource_usage_decrement_port() {
    let mut usage = SessionResourceUsage::new();
    usage.publisher_count = 2;
    usage.subscriber_count = 1;

    usage.decrement_port(PortType::Publisher);
    assert_eq!(usage.publisher_count, 1);

    usage.decrement_port(PortType::Subscriber);
    assert_eq!(usage.subscriber_count, 0);

    // Saturating subtraction - should not underflow
    usage.decrement_port(PortType::Subscriber);
    assert_eq!(usage.subscriber_count, 0);
}

#[test]
fn test_resource_usage_add_segment() {
    let mut usage = SessionResourceUsage::new();

    usage.add_segment(4096);
    assert_eq!(usage.segment_count, 1);
    assert_eq!(usage.total_memory, 4096);

    usage.add_segment(8192);
    assert_eq!(usage.segment_count, 2);
    assert_eq!(usage.total_memory, 12288);
}

#[test]
fn test_resource_usage_remove_segment() {
    let mut usage = SessionResourceUsage::new();
    usage.segment_count = 2;
    usage.total_memory = 12288;

    usage.remove_segment(4096);
    assert_eq!(usage.segment_count, 1);
    assert_eq!(usage.total_memory, 8192);

    // Saturating subtraction
    usage.remove_segment(10000);
    assert_eq!(usage.segment_count, 0);
    assert_eq!(usage.total_memory, 0);
}

#[test]
fn test_session_new() {
    let credentials = test_credentials();
    let session = ClientSession::new(credentials.clone(), &mut SessionCounter::new(), 0);

    assert!(session.id().is_valid());
    assert_eq!(session.credentials().pid(), credentials.pid());
    assert_eq!(session.credentials().uid(), credentials.uid());
    assert_eq!(session.credentials().gid(), credentials.gid());
    assert_eq!(session.port_count(), 0);
    assert_eq!(session.segment_count(), 0);
    assert_eq!(session.pending_retirement_count(), 0);
}

#[test]
fn test_session_unique_ids() {
    let credentials = test_credentials();
    let mut counter = SessionCounter::new();
    let session1 = ClientSession::new(credentials.clone(), &mut counter, 0);
    let session2 = ClientSession::new(credentials, &mut counter, 0);

    assert_ne!(session1.id(), session2.id());
}

#[test]
fn test_session_add_port() {
    let mut session = test_session();

    session.add_port(100, PortType::Publisher);
    assert!(session.has_port(100));
    assert_eq!(session.port_count(), 1);
    assert_eq!(session.resource_usage().publisher_count, 1);

    session.add_port(200, PortType::Subscriber);
    assert!(session.has_port(200));
    assert_eq!(session.port_count(), 2);
    assert_eq!(session.resource_usage().subscriber_count, 1);
}

#[test]
fn test_session_add_port_duplicate_prevention() {
    let mut session = test_session();

    // First add should succeed
    assert!(session.add_port(100, PortType::Publisher));
    assert_eq!(session.port_count(), 1);
    assert_eq!(session.resource_usage().publisher_count, 1);

    // Adding same port again should fail and not increment counters
    assert!(!session.add_port(100, PortType::Publisher));
    assert_eq!(session.port_count(), 1);
    assert_eq!(session.resource_usage().publisher_count, 1);

    // Adding same port ID with different type should also fail
    assert!(!session.add_port(100, PortType::Subscriber));
    assert_eq!(session.port_count(), 1);
    assert_eq!(session.resource_usage().subscriber_count, 0);
}

#[test]
fn test_session_remove_port() {
    let mut session = test_session();
    session.add_port(100, PortType::Publisher);
    session.add_port(200, PortType::Subscriber);

    assert!(session.remove_port(100));
    assert!(!session.has_port(100));
    assert_eq!(session.port_count(), 1);
    assert_eq!(session.resource_usage().publisher_count, 0);

    // Removing non-existent port
    assert!(!session.remove_port(999));
}

#[test]
fn test_session_ports_iterator() {
    let mut session = test_session();
    session.add_port(100, PortType::Publisher);
    session.add_port(200, PortType::Subscriber);

    let port_ids: Vec<u128> = session.ports().iter().map(|p| p.port_id).collect();
    assert!(port_ids.contains(&100));
    assert!(port_ids.contains(&200));
}

#[test]
fn test_session_grant_segment() {
    let mut session = test_session();
    let segment_id = SegmentId::new(1);

    assert!(session.grant_segment(segment_id, 4096));
    assert!(session.has_segment(segment_id));
    assert_eq!(session.segment_count(), 1);
    assert_eq!(session.resource_usage().segment_count, 1);
    assert_eq!(session.resource_usage().total_memory, 4096);

    // Granting same segment again returns false
    assert!(!session.grant_segment(segment_id, 4096));
    assert_eq!(session.segment_count(), 1);
}

#[test]
fn test_session_revoke_segment() {
    let mut session = test_session();
    let segment_id = SegmentId::new(1);
    session.grant_segment(segment_id, 4096);
    session.add_pending_retirement(segment_id);

    assert!(session.revoke_segment(segment_id, 4096));
    assert!(!session.has_segment(segment_id));
    assert!(!session.has_pending_retirement(segment_id));
    assert_eq!(session.segment_count(), 0);
    assert_eq!(session.resource_usage().segment_count, 0);
    assert_eq!(session.resource_usage().total_memory, 0);

    // Revoking non-existent segment
    assert!(!session.revoke_segment(segment_id, 4096));
}

#[test]
fn test_session_segments_iterator() {
    let mut session = test_session();
    session.grant_segment(SegmentId::new(1), 4096);
    session.grant_segment(SegmentId::new(2), 8192);

    let segment_ids: Vec<SegmentId> = session.segments();
    assert_eq!(segment_ids.len(), 2);
}

#[test]
fn test_session_pending_retirement() {
    let mut session = test_session();
    let segment_id = SegmentId::new(1);

    assert!(session.add_pending_retirement(segment_id));
    assert!(session.has_pending_retirement(segment_id));
    assert_eq!(session.pending_retirement_count(), 1);

    // Adding same retirement again returns false
    assert!(!session.add_pending_retirement(segment_id));

    assert!(session.ack_retirement(segment_id));
    assert!(!session.has_pending_retirement(segment_id));
    assert_eq!(session.pending_retirement_count(), 0);

    // Acknowledging non-existent retirement
    assert!(!session.ack_retirement(segment_id));
}

#[test]
fn test_session_pending_retirements_iterator() {
    let mut session = test_session();
    session.add_pending_retirement(SegmentId::new(1));
    session.add_pending_retirement(SegmentId::new(2));

    let retirements: Vec<SegmentId> = session.pending_retirements();
    assert_eq!(retirements.len(), 2);
}

#[test]
fn test_session_authenticated_at() {
    let before: u64 = 41;
    let session = ClientSession::new(test_credentials(), &mut SessionCounter::new(), 42);
    let after: u64 = 43;

    assert!(session.authenticated_at() >= before);
    assert!(session.authenticated_at() <= after);
}

#[test]
fn test_port_info() {
    let info = PortInfo::new(42, PortType::Publisher);
    assert_eq!(info.port_id, 42);
    assert_eq!(info.port_type, PortType::Publisher);
}

#[test]
fn test_session_is_send() {
    fn assert_send<T: Send>() {}
    assert_send::<ClientSession>();
}

#[test]
fn test_resource_usage_is_send_sync() {
    fn assert_send<T: Send>() {}
    fn assert_sync<T: Sync>() {}
    assert_send::<SessionResourceUsage>();
    assert_sync::<SessionResourceUsage>();
}

#[test]
fn test_port_info_is_send_sync() {
    fn assert_send<T: Send>() {}
    fn assert_sync<T: Sync>() {}
    assert_send::<PortInfo>();
    assert_sync::<PortInfo>();
}

#[test]
fn detaching_undoes_attaching() {
    let mut session = test_session();
    session.add_port(1, PortType::Publisher);
    let usage = *session.resource_usage();
    assert!(session.add_port(7, PortType::Client));
    assert_eq!(session.port_type(7), Some(PortType::Client));
    assert!(session.remove_port(7));
    assert_eq!(*session.resource_usage(), usage);
    assert_eq!(session.port_count(), 1);
    assert_eq!(session.port_type(7), None);
}

#[test]
fn revoking_undoes_granting() {
    let mut session = test_session();
    let usage = *session.resource_usage();
    assert!(session.grant_segment(SegmentId::new(9), 100));
    assert!(session.revoke_segment(SegmentId::new(9), 100));
    assert_eq!(*session.resource_usage(), usage);
    assert!(session.segments().is_empty());
}

#[test]
fn usage_can_be_changed_in_place() {
    let mut session = test_session();
    session.resource_usage_mut().add_segment(10);
    assert_eq!(session.resource_usage().segment_count, 1);
    assert_eq!(session.resource_usage().total_memory, 10);
}

#[test]
fn memory_accounting_saturates() {
    let mut usage = SessionResourceUsage::new();
    usage.add_segment(usize::MAX);
    usage.add_segment(1);
    assert_eq!(usage.segment_count, 2);
    assert_eq!(usage.total_memory, usize::MAX);
}
