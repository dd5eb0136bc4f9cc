use std::collections::HashSet;

use iceoryx2_iam::policy::{
    DefaultPolicy, IamPolicy, PolicyDecision, QosBounds, ResourceLimits,
    MAX_REASONABLE_SEGMENT_SIZE,
};
use iceoryx2_iam::protocol::{DenialReason, MessagingPatternKind, PortType};
use iceoryx2_iam::types::{ProcessCredentials, ServiceId, ServiceName};

fn own_credentials() -> ProcessCredentials {
    ProcessCredentials::new(4321, 1000, 1000)
}

#[test]
fn test_policy_decision_allow() {
    let decision = PolicyDecision::allow();
    assert!(decision.is_allowed());
    assert!(!decision.is_denied());
    assert_eq!(decision, PolicyDecision::Allow);
}

#[test]
fn test_policy_decision_deny() {
    let decision = PolicyDecision::deny(DenialReason::Unauthorized, "Test denial");
    assert!(!decision.is_allowed());
    assert!(decision.is_denied());
    match decision {
        PolicyDecision::Deny { reason, message } => {
            assert_eq!(reason, DenialReason::Unauthorized);
            assert_eq!(message, "Test denial");
        }
        _ => panic!("Expected Deny decision"),
    }
}

#[test]
fn test_policy_decision_deny_with_string() {
    let decision = PolicyDecision::deny(
        DenialReason::PolicyViolation,
        &String::from("Dynamic message"),
    );
    assert!(decision.is_denied());
    match decision {
        PolicyDecision::Deny { reason, message } => {
            assert_eq!(reason, DenialReason::PolicyViolation);
            assert_eq!(message, "Dynamic message");
        }
        _ => panic!("Expected Deny decision"),
    }
}

#[test]
fn test_policy_decision_clone() {
    let original = PolicyDecision::deny(DenialReason::Unauthorized, "Test");
    let cloned = original.clone();
    assert_eq!(original, cloned);
}

#[test]
fn test_policy_decision_debug() {
    let decision = PolicyDecision::allow();
    let debug_str = format!("{:?}", decision);
    assert!(debug_str.contains("Allow"));
}

#[test]
fn test_resource_limits_default() {
    let limits = ResourceLimits::default();
    assert_eq!(limits.max_publishers, 16);
    assert_eq!(limits.max_subscribers, 256);
    assert_eq!(limits.max_servers, 16);
    assert_eq!(limits.max_clients, 256);
    assert_eq!(limits.max_segments, 64);
    assert_eq!(limits.max_segment_size, 64 * 1024 * 1024);
}

#[test]
fn test_resource_limits_custom() {
    let limits = ResourceLimits {
        max_publishers: 8,
        max_subscribers: 128,
        max_servers: 4,
        max_clients: 64,
        max_segments: 32,
        max_segment_size: 32 * 1024 * 1024,
    };
    assert_eq!(limits.max_publishers, 8);
    assert_eq!(limits.max_subscribers, 128);
    assert_eq!(limits.max_servers, 4);
    assert_eq!(limits.max_clients, 64);
    assert_eq!(limits.max_segments, 32);
    assert_eq!(limits.max_segment_size, 32 * 1024 * 1024);
}

#[test]
fn test_resource_limits_clone() {
    let original = ResourceLimits::default();
    let cloned = original.clone();
    assert_eq!(original, cloned);
}

#[test]
fn test_resource_limits_copy() {
    let original = ResourceLimits::default();
    let copied = original; // Copy, not move
    assert_eq!(original, copied); // original is still valid (Copy trait)
}

#[test]
fn test_resource_limits_hash() {
    let limits1 = ResourceLimits::default();
    let limits2 = ResourceLimits::default();
    let limits3 = ResourceLimits {
        max_publishers: 1,
        ..Default::default()
    };

    let mut set = HashSet::new();
    set.insert(limits1);
    set.insert(limits2); // Same as limits1
    set.insert(limits3); // Different

    assert_eq!(set.len(), 2); // Only 2 unique values
}

#[test]
fn test_resource_limits_is_valid_default() {
    let limits = ResourceLimits::default();
    assert!(limits.is_valid());
}

#[test]
fn test_resource_limits_is_valid_zero_segment_size() {
    let limits = ResourceLimits {
        max_segment_size: 0,
        ..Default::default()
    };
    assert!(!limits.is_valid());
}

#[test]
fn test_resource_limits_is_valid_zero_other_limits() {
    // Zero for other limits is valid (means "none allowed")
    let limits = ResourceLimits {
        max_publishers: 0,
        max_subscribers: 0,
        max_servers: 0,
        max_clients: 0,
        max_segments: 0,
        max_segment_size: 1024, // Non-zero
    };
    assert!(limits.is_valid());
}

#[test]
fn test_resource_limits_is_valid_exceeds_max_reasonable() {
    // Segment size exceeding MAX_REASONABLE_SEGMENT_SIZE (1 GB) is invalid
    let limits = ResourceLimits {
        max_segment_size: MAX_REASONABLE_SEGMENT_SIZE + 1,
        ..Default::default()
    };
    assert!(!limits.is_valid());
}

#[test]
fn test_resource_limits_is_valid_at_max_reasonable() {
    // Exactly at MAX_REASONABLE_SEGMENT_SIZE is valid
    let limits = ResourceLimits {
        max_segment_size: MAX_REASONABLE_SEGMENT_SIZE,
        ..Default::default()
    };
    assert!(limits.is_valid());
}

#[test]
fn test_resource_limits_new_const() {
    // Test new()
    let limits = ResourceLimits::new(8, 16, 4, 8, 32, 1024);
    assert_eq!(limits.max_publishers, 8);
    assert_eq!(limits.max_subscribers, 16);
    assert_eq!(limits.max_servers, 4);
    assert_eq!(limits.max_clients, 8);
    assert_eq!(limits.max_segments, 32);
    assert_eq!(limits.max_segment_size, 1024);
}

#[test]
fn test_resource_limits_debug() {
    let limits = ResourceLimits::default();
    let debug_str = format!("{:?}", limits);
    assert!(debug_str.contains("max_publishers"));
    assert!(debug_str.contains("16"));
}

#[test]
fn test_default_policy_new() {
    let policy = DefaultPolicy::new(&own_credentials());
    let credentials = own_credentials();
    assert_eq!(policy.owner_uid(), credentials.uid());
}

#[test]
fn test_default_policy_with_owner() {
    let policy = DefaultPolicy::with_owner(1000);
    assert_eq!(policy.owner_uid(), 1000);
}

#[test]
fn test_default_policy_with_limits() {
    let limits = ResourceLimits {
        max_publishers: 32,
        ..Default::default()
    };
    let policy = DefaultPolicy::with_limits(1000, limits);
    assert_eq!(policy.owner_uid(), 1000);
    let returned_limits = policy.get_limits(&ProcessCredentials::new(1, 1000, 1000));
    assert_eq!(returned_limits.max_publishers, 32);
}

#[test]
fn test_default_policy_debug() {
    let policy = DefaultPolicy::with_owner(1000);
    let debug_str = format!("{:?}", policy);
    assert!(debug_str.contains("DefaultPolicy"));
    assert!(debug_str.contains("1000"));
}

#[test]
fn test_default_policy_clone() {
    let original = DefaultPolicy::with_owner(1000);
    let cloned = original.clone();
    assert_eq!(cloned.owner_uid(), 1000);
}

#[test]
fn test_default_policy_equality() {
    let policy1 = DefaultPolicy::with_owner(1000);
    let policy2 = DefaultPolicy::with_owner(1000);
    let policy3 = DefaultPolicy::with_owner(2000);

    assert_eq!(policy1, policy2);
    assert_ne!(policy1, policy3);
}

#[test]
fn test_default_policy_authorize_create_same_uid() {
    let credentials = own_credentials();
    let policy = DefaultPolicy::with_owner(credentials.uid());
    let service_name = ServiceName::new("test/service");

    let decision = policy.authorize_create(
        &credentials,
        &service_name,
        MessagingPatternKind::PublishSubscribe,
    );
    assert!(decision.is_allowed());
}

#[test]
fn test_default_policy_authorize_create_different_uid() {
    let credentials = ProcessCredentials::new(1, 1000, 1000);
    let policy = DefaultPolicy::with_owner(2000); // Different UID
    let service_name = ServiceName::new("test/service");

    let decision = policy.authorize_create(
        &credentials,
        &service_name,
        MessagingPatternKind::PublishSubscribe,
    );
    assert!(decision.is_denied());
    match decision {
        PolicyDecision::Deny { reason, .. } => {
            assert_eq!(reason, DenialReason::Unauthorized);
        }
        _ => panic!("Expected Deny decision"),
    }
}

#[test]
fn test_default_policy_authorize_attach_same_uid() {
    let credentials = own_credentials();
    let policy = DefaultPolicy::with_owner(credentials.uid());
    let service_name = ServiceName::new("test/attach");
    let service_id = ServiceId::new(service_name.as_str());

    let decision = policy.authorize_attach(&credentials, &service_id, PortType::Publisher);
    assert!(decision.is_allowed());
}

#[test]
fn test_default_policy_authorize_attach_different_uid() {
    let credentials = ProcessCredentials::new(1, 1000, 1000);
    let policy = DefaultPolicy::with_owner(2000); // Different UID
    let service_name = ServiceName::new("test/attach");
    let service_id = ServiceId::new(service_name.as_str());

    let decision = policy.authorize_attach(&credentials, &service_id, PortType::Subscriber);
    assert!(decision.is_denied());
}

#[test]
fn test_default_policy_authorize_add_segment_same_uid_within_limits() {
    let credentials = own_credentials();
    let policy = DefaultPolicy::with_owner(credentials.uid());
    let service_name = ServiceName::new("test/segment");
    let service_id = ServiceId::new(service_name.as_str());

    let decision = policy.authorize_add_segment(&credentials, &service_id, 1024);
    assert!(decision.is_allowed());
}

#[test]
fn test_default_policy_authorize_add_segment_different_uid() {
    let credentials = ProcessCredentials::new(1, 1000, 1000);
    let policy = DefaultPolicy::with_owner(2000); // Different UID
    let service_name = ServiceName::new("test/segment");
    let service_id = ServiceId::new(service_name.as_str());

    let decision = policy.authorize_add_segment(&credentials, &service_id, 1024);
    assert!(decision.is_denied());
    match decision {
        PolicyDecision::Deny { reason, .. } => {
            assert_eq!(reason, DenialReason::Unauthorized);
        }
        _ => panic!("Expected Deny decision"),
    }
}

#[test]
fn test_default_policy_authorize_add_segment_exceeds_size() {
    let credentials = own_credentials();
    let limits = ResourceLimits {
        max_segment_size: 1024, // Only 1KB allowed
        ..Default::default()
    };
    let policy = DefaultPolicy::with_limits(credentials.uid(), limits);
    let service_name = ServiceName::new("test/segment");
    let service_id = ServiceId::new(service_name.as_str());

    let decision = policy.authorize_add_segment(&credentials, &service_id, 2048); // Request 2KB
    assert!(decision.is_denied());
    match decision {
        PolicyDecision::Deny { reason, .. } => {
            assert_eq!(reason, DenialReason::ResourceLimitExceeded);
        }
        _ => panic!("Expected Deny decision"),
    }
}

#[test]
fn test_default_policy_authorize_add_segment_exact_max_size() {
    let credentials = own_credentials();
    let limits = ResourceLimits {
        max_segment_size: 1024, // Exactly 1KB allowed
        ..Default::default()
    };
    let policy = DefaultPolicy::with_limits(credentials.uid(), limits);
    let service_name = ServiceName::new("test/segment/exact");
    let service_id = ServiceId::new(service_name.as_str());

    // Request exactly max_segment_size - should be ALLOWED
    let decision = policy.authorize_add_segment(&credentials, &service_id, 1024);
    assert!(
        decision.is_allowed(),
        "Requesting exactly max_segment_size should be allowed"
    );
}

#[test]
fn test_default_policy_authorize_add_segment_zero_size() {
    let credentials = own_credentials();
    let policy = DefaultPolicy::with_owner(credentials.uid());
    let service_name = ServiceName::new("test/segment");
    let service_id = ServiceId::new(service_name.as_str());

    // Zero-size segment should be rejected
    let decision = policy.authorize_add_segment(&credentials, &service_id, 0);
    assert!(decision.is_denied());
    match decision {
        PolicyDecision::Deny { reason, message } => {
            assert_eq!(reason, DenialReason::PolicyViolation);
            assert!(message.contains("Zero-size"));
        }
        _ => panic!("Expected Deny decision"),
    }
}

#[test]
fn test_default_policy_limits_getter() {
    let limits = ResourceLimits {
        max_publishers: 42,
        max_subscribers: 84,
        ..Default::default()
    };
    let policy = DefaultPolicy::with_limits(1000, limits);

    // Test the limits() getter returns a reference
    let limits_ref = policy.limits();
    assert_eq!(limits_ref.max_publishers, 42);
    assert_eq!(limits_ref.max_subscribers, 84);
}

#[test]
fn test_default_policy_get_limits() {
    let limits = ResourceLimits {
        max_publishers: 32,
        max_subscribers: 128,
        ..Default::default()
    };
    let policy = DefaultPolicy::with_limits(1000, limits);
    let credentials = ProcessCredentials::new(1, 1000, 1000);

    let returned_limits = policy.get_limits(&credentials);
    assert_eq!(returned_limits.max_publishers, 32);
    assert_eq!(returned_limits.max_subscribers, 128);
}

#[test]
fn test_default_policy_authorize_connect_default() {
    let policy = DefaultPolicy::new(&own_credentials());
    let credentials = ProcessCredentials::new(1, 9999, 9999); // Any credentials

    // Default authorize_connect should allow all
    let decision = policy.authorize_connect(&credentials);
    assert!(decision.is_allowed());
}

#[test]
fn test_default_policy_is_send() {
    fn assert_send<T: Send>() {}
    assert_send::<DefaultPolicy>();
}

#[test]
fn test_default_policy_is_sync() {
    fn assert_sync<T: Sync>() {}
    assert_sync::<DefaultPolicy>();
}

#[test]
fn test_policy_decision_is_send() {
    fn assert_send<T: Send>() {}
    assert_send::<PolicyDecision>();
}

#[test]
fn test_policy_decision_is_sync() {
    fn assert_sync<T: Sync>() {}
    assert_sync::<PolicyDecision>();
}

#[test]
fn test_resource_limits_is_send() {
    fn assert_send<T: Send>() {}
    assert_send::<ResourceLimits>();
}

#[test]
fn test_resource_limits_is_sync() {
    fn assert_sync<T: Sync>() {}
    assert_sync::<ResourceLimits>();
}

#[test]
fn test_all_port_types_with_same_uid() {
    let credentials = own_credentials();
    let policy = DefaultPolicy::with_owner(credentials.uid());
    let service_name = ServiceName::new("test/ports");
    let service_id = ServiceId::new(service_name.as_str());

    for port_type in [
        PortType::Publisher,
        PortType::Subscriber,
        PortType::Server,
        PortType::Client,
    ] {
        let decision = policy.authorize_attach(&credentials, &service_id, port_type);
        assert!(decision.is_allowed(), "Expected allow for {:?}", port_type);
    }
}

#[test]
fn test_all_messaging_patterns_with_same_uid() {
    let credentials = own_credentials();
    let policy = DefaultPolicy::with_owner(credentials.uid());
    let service_name = ServiceName::new("test/patterns");

    for pattern in [
        MessagingPatternKind::PublishSubscribe,
        MessagingPatternKind::RequestResponse,
        MessagingPatternKind::Event,
    ] {
        let decision = policy.authorize_create(&credentials, &service_name, pattern);
        assert!(decision.is_allowed(), "Expected allow for {:?}", pattern);
    }
}

#[test]
fn test_qos_bounds_default_is_unbounded() {
    let bounds = QosBounds::default();
    assert_eq!(bounds.max_buffer_size, None);
    assert_eq!(bounds.max_history, None);
}

#[test]
fn test_qos_bounds_unbounded_allows_all() {
    let bounds = QosBounds::unbounded();
    assert!(bounds.check_buffer_size(usize::MAX));
    assert!(bounds.check_history(usize::MAX));
}

#[test]
fn test_qos_bounds_with_limits() {
    let bounds = QosBounds::new(Some(1024), Some(10));
    assert!(bounds.check_buffer_size(1024));
    assert!(!bounds.check_buffer_size(1025));
    assert!(bounds.check_history(10));
    assert!(!bounds.check_history(11));
}

#[test]
fn test_qos_bounds_partial_limits() {
    let bounds = QosBounds::new(Some(512), None);
    assert!(!bounds.check_buffer_size(513));
    assert!(bounds.check_history(usize::MAX));
}

#[test]
fn test_default_policy_qos_bounds_are_unbounded() {
    let policy = DefaultPolicy::with_owner(1000);
    let creds = ProcessCredentials::new(1, 1000, 100);
    let bounds = policy.get_qos_bounds(&creds);
    assert_eq!(bounds, QosBounds::unbounded());
}

#[test]
fn the_default_policy_lets_other_users_connect_and_nothing_more() {
    let policy = DefaultPolicy::with_owner(1000);
    let other = ProcessCredentials::new(1, 2000, 1000);
    let name = ServiceName::new("guarded");
    let service_id = ServiceId::new("guarded");
    assert!(policy.authorize_connect(&other).is_allowed());
    for decision in [
        policy.authorize_create(&other, &name, MessagingPatternKind::Event),
        policy.authorize_attach(&other, &service_id, PortType::Client),
        policy.authorize_add_segment(&other, &service_id, 1),
    ] {
        match decision {
            PolicyDecision::Deny { reason, .. } => assert_eq!(reason, DenialReason::Unauthorized),
            PolicyDecision::Allow => panic!("another user was let in"),
        }
    }
}
