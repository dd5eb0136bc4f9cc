use iceoryx2_iam::error::IamServerError;
use iceoryx2_iam::protocol::SessionId;
use iceoryx2_iam::segment_manager::{ManagedSegment, SegmentManager};
use iceoryx2_iam::types::{AccessRights, SegmentId};

type Manager = SegmentManager<u32>;

fn create_test_handle() -> u32 {
    7
}

fn duplicate_handle() -> Option<u32> {
    Some(8)
}

/// Lets the manager scan on until it stands at an identifier.
fn scan_to(manager: &mut Manager, next: u8) {
    let last = if next == 0 { 254 } else { next - 1 };
    while manager.allocate_segment_id().unwrap().value() != last {}
}

#[test]
fn test_managed_segment_new() {
    let handle = create_test_handle();
    let segment =
        ManagedSegment::new(SegmentId::new(0), handle, 4096, AccessRights::read_write());

    assert_eq!(segment.id().value(), 0);
    assert_eq!(segment.size(), 4096);
    assert!(segment.access().can_read());
    assert!(segment.access().can_write());
    assert!(!segment.is_retiring());
    assert_eq!(segment.authorized_session_count(), 0);
    assert_eq!(segment.pending_ack_count(), 0);
}

#[test]
fn test_managed_segment_to_segment_info() {
    let handle = create_test_handle();
    let segment =
        ManagedSegment::new(SegmentId::new(5), handle, 8192, AccessRights::read_only());

    let info = segment.to_segment_info();
    assert_eq!(info.segment_id().value(), 5);
    assert_eq!(info.size(), 8192);
    assert!(info.access().can_read());
    assert!(!info.access().can_write());
}

#[test]
fn test_manager_new() {
    let manager = Manager::new();
    assert_eq!(manager.segment_count(), 0);
}

#[test]
fn test_manager_default() {
    let manager = Manager::default();
    assert_eq!(manager.segment_count(), 0);
}

#[test]
fn test_manager_register_segment() {
    let mut manager = Manager::new();
    let handle = create_test_handle();

    let segment_id = manager
        .register_segment(handle, 4096, AccessRights::read_write())
        .unwrap();

    assert!(manager.has_segment(segment_id));
    assert_eq!(manager.segment_count(), 1);

    let segment = manager.get(segment_id).unwrap();
    assert_eq!(segment.size(), 4096);
}

#[test]
fn test_manager_register_multiple_segments() {
    let mut manager = Manager::new();

    for i in 0..5 {
        let handle = create_test_handle();
        let segment_id = manager
            .register_segment(handle, (i + 1) * 1024, AccessRights::read_write())
            .unwrap();
        // Id 0 is reserved, so the sequence starts at 1: 1, 2, 3, 4, 5.
        assert_eq!(segment_id.value(), i as u8 + 1);
    }

    assert_eq!(manager.segment_count(), 5);
}

#[test]
fn test_manager_remove_segment() {
    let mut manager = Manager::new();
    let handle = create_test_handle();
    let segment_id = manager
        .register_segment(handle, 4096, AccessRights::read_write())
        .unwrap();

    let removed = manager.remove_segment(segment_id);
    assert!(removed.is_some());
    assert!(!manager.has_segment(segment_id));
    assert_eq!(manager.segment_count(), 0);

    // Remove again should return None
    assert!(manager.remove_segment(segment_id).is_none());
}

#[test]
fn test_manager_authorize_session() {
    let mut manager = Manager::new();
    let handle = create_test_handle();
    let segment_id = manager
        .register_segment(handle, 4096, AccessRights::read_write())
        .unwrap();

    let session_id = SessionId::from_value(100);
    let cloned_handle = manager.authorize_session(segment_id, session_id, duplicate_handle()).unwrap();

    // Verify that the duplicate was handed out
    let segment = manager.get(segment_id).unwrap();
    assert_ne!(cloned_handle, *segment.handle());

    assert!(manager.is_session_authorized(segment_id, session_id));
}

#[test]
fn test_manager_authorize_session_not_found() {
    let mut manager = Manager::new();
    let session_id = SessionId::from_value(100);
    let segment_id = SegmentId::new(99);

    let result = manager.authorize_session(segment_id, session_id, duplicate_handle());
    assert!(matches!(result, Err(IamServerError::SegmentNotFound)));
}

#[test]
fn test_manager_revoke_session_from_segment() {
    let mut manager = Manager::new();
    let handle = create_test_handle();
    let segment_id = manager
        .register_segment(handle, 4096, AccessRights::read_write())
        .unwrap();

    let session_id = SessionId::from_value(100);
    manager.authorize_session(segment_id, session_id, duplicate_handle()).unwrap();

    assert!(manager.revoke_session_from_segment(segment_id, session_id));
    assert!(!manager.is_session_authorized(segment_id, session_id));

    // Revoking again should return false
    assert!(!manager.revoke_session_from_segment(segment_id, session_id));
}

#[test]
fn test_manager_revoke_session() {
    let mut manager = Manager::new();
    let session_id = SessionId::from_value(100);

    // Create multiple segments and authorize session for all
    for _ in 0..3 {
        let handle = create_test_handle();
        let segment_id = manager
            .register_segment(handle, 4096, AccessRights::read_write())
            .unwrap();
        manager.authorize_session(segment_id, session_id, duplicate_handle()).unwrap();
    }

    // Revoke session from all segments
    manager.revoke_session(session_id);

    // Verify revoked from all
    for segment_id in manager.segment_ids() {
        assert!(!manager.is_session_authorized(segment_id, session_id));
    }
}

#[test]
fn test_manager_begin_retirement() {
    let mut manager = Manager::new();
    let handle = create_test_handle();
    let segment_id = manager
        .register_segment(handle, 4096, AccessRights::read_write())
        .unwrap();

    let session1 = SessionId::from_value(100);
    let session2 = SessionId::from_value(200);
    manager.authorize_session(segment_id, session1, duplicate_handle()).unwrap();
    manager.authorize_session(segment_id, session2, duplicate_handle()).unwrap();

    let pending = manager.begin_retirement(segment_id).unwrap();
    assert_eq!(pending.len(), 2);
    assert!(pending.contains(&session1.value()));
    assert!(pending.contains(&session2.value()));
    assert!(manager.is_retiring(segment_id));
    assert_eq!(manager.pending_ack_count(segment_id), 2);
}

#[test]
fn test_manager_begin_retirement_not_found() {
    let mut manager = Manager::new();
    let result = manager.begin_retirement(SegmentId::new(99));
    assert!(result.is_none());
}

#[test]
fn test_manager_begin_retirement_already_retiring() {
    let mut manager = Manager::new();
    let handle = create_test_handle();
    let segment_id = manager
        .register_segment(handle, 4096, AccessRights::read_write())
        .unwrap();

    let session_id = SessionId::from_value(100);
    manager.authorize_session(segment_id, session_id, duplicate_handle()).unwrap();

    manager.begin_retirement(segment_id);
    let pending = manager.begin_retirement(segment_id).unwrap();

    // Should still return the pending acks
    assert_eq!(pending.len(), 1);
}

#[test]
fn test_manager_ack_retirement() {
    let mut manager = Manager::new();
    let handle = create_test_handle();
    let segment_id = manager
        .register_segment(handle, 4096, AccessRights::read_write())
        .unwrap();

    let session1 = SessionId::from_value(100);
    let session2 = SessionId::from_value(200);
    manager.authorize_session(segment_id, session1, duplicate_handle()).unwrap();
    manager.authorize_session(segment_id, session2, duplicate_handle()).unwrap();

    manager.begin_retirement(segment_id);

    // First ack - not complete yet
    assert!(!manager.ack_retirement(segment_id, session1));
    assert!(manager.has_segment(segment_id));
    assert_eq!(manager.pending_ack_count(segment_id), 1);

    // Second ack - should remove segment
    assert!(manager.ack_retirement(segment_id, session2));
    assert!(!manager.has_segment(segment_id));
}

#[test]
fn test_manager_ack_retirement_not_retiring() {
    let mut manager = Manager::new();
    let handle = create_test_handle();
    let segment_id = manager
        .register_segment(handle, 4096, AccessRights::read_write())
        .unwrap();

    let session_id = SessionId::from_value(100);
    manager.authorize_session(segment_id, session_id, duplicate_handle()).unwrap();

    // Ack without begin_retirement should return false
    assert!(!manager.ack_retirement(segment_id, session_id));
}

#[test]
fn test_manager_authorize_retiring_segment() {
    let mut manager = Manager::new();
    let handle = create_test_handle();
    let segment_id = manager
        .register_segment(handle, 4096, AccessRights::read_write())
        .unwrap();

    manager.begin_retirement(segment_id);

    let session_id = SessionId::from_value(100);
    let result = manager.authorize_session(segment_id, session_id, duplicate_handle());
    assert!(matches!(result, Err(IamServerError::SegmentNotFound)));
}

#[test]
fn test_manager_get_segment_info() {
    let mut manager = Manager::new();
    let handle = create_test_handle();
    let segment_id = manager
        .register_segment(handle, 4096, AccessRights::read_only())
        .unwrap();

    let info = manager.get_segment_info(segment_id).unwrap();
    assert_eq!(info.segment_id(), segment_id);
    assert_eq!(info.size(), 4096);
    assert!(info.access().can_read());
    assert!(!info.access().can_write());

    assert!(manager.get_segment_info(SegmentId::new(99)).is_none());
}

#[test]
fn test_manager_get_session_segments() {
    let mut manager = Manager::new();
    let session_id = SessionId::from_value(100);

    // Create segments and authorize for some
    let handle1 = create_test_handle();
    let segment1 = manager
        .register_segment(handle1, 4096, AccessRights::read_write())
        .unwrap();
    manager.authorize_session(segment1, session_id, duplicate_handle()).unwrap();

    let handle2 = create_test_handle();
    let segment2 = manager
        .register_segment(handle2, 8192, AccessRights::read_only())
        .unwrap();
    manager.authorize_session(segment2, session_id, duplicate_handle()).unwrap();

    let handle3 = create_test_handle();
    let _segment3 = manager
        .register_segment(handle3, 2048, AccessRights::read_write())
        .unwrap();
    // Not authorized for session

    let segments = manager.get_session_segments(session_id);
    assert_eq!(segments.len(), 2);
}

#[test]
fn test_manager_get_session_segments_excludes_retiring() {
    let mut manager = Manager::new();
    let session_id = SessionId::from_value(100);

    let handle1 = create_test_handle();
    let segment1 = manager
        .register_segment(handle1, 4096, AccessRights::read_write())
        .unwrap();
    manager.authorize_session(segment1, session_id, duplicate_handle()).unwrap();

    let handle2 = create_test_handle();
    let segment2 = manager
        .register_segment(handle2, 8192, AccessRights::read_write())
        .unwrap();
    manager.authorize_session(segment2, session_id, duplicate_handle()).unwrap();

    // Retire segment2
    manager.begin_retirement(segment2);

    let segments = manager.get_session_segments(session_id);
    assert_eq!(segments.len(), 1);
    assert_eq!(segments[0].segment_id(), segment1);
}

#[test]
fn test_manager_get_active_segments() {
    let mut manager = Manager::new();

    let handle1 = create_test_handle();
    let segment1 = manager
        .register_segment(handle1, 4096, AccessRights::read_write())
        .unwrap();

    let handle2 = create_test_handle();
    let segment2 = manager
        .register_segment(handle2, 8192, AccessRights::read_write())
        .unwrap();

    // Retire segment2
    manager.begin_retirement(segment2);

    let active = manager.get_active_segments();
    assert_eq!(active.len(), 1);
    assert_eq!(active[0].segment_id(), segment1);
}

#[test]
fn test_manager_segment_ids_iterator() {
    let mut manager = Manager::new();

    for _ in 0..3 {
        let handle = create_test_handle();
        manager
            .register_segment(handle, 4096, AccessRights::read_write())
            .unwrap();
    }

    let ids: Vec<SegmentId> = manager.segment_ids();
    assert_eq!(ids.len(), 3);
}

#[test]
fn test_manager_id_reuse_after_removal() {
    let mut manager = Manager::new();

    // Create and remove the first segment. Id 0 is reserved, so allocation starts at 1.
    let handle1 = create_test_handle();
    let segment1 = manager
        .register_segment(handle1, 4096, AccessRights::read_write())
        .unwrap();
    assert_eq!(segment1.value(), 1);
    manager.remove_segment(segment1);

    // Create more segments - the monotonic counter continues (2, 3, ...).
    let handle2 = create_test_handle();
    let segment2 = manager
        .register_segment(handle2, 4096, AccessRights::read_write())
        .unwrap();
    assert_eq!(segment2.value(), 2);

    // If we remove segment2 and create another, next_id continues
    manager.remove_segment(segment2);
    let handle3 = create_test_handle();
    let segment3 = manager
        .register_segment(handle3, 4096, AccessRights::read_write())
        .unwrap();
    assert_eq!(segment3.value(), 3);
}

#[test]
fn test_manager_register_segment_for_port() {
    let mut manager = Manager::new();
    let handle = create_test_handle();
    let port_id: u128 = 0xABCD;

    let segment_id = manager
        .register_segment_for_port(port_id, handle, 4096, AccessRights::read_write())
        .unwrap();

    assert!(manager.has_segment(segment_id));
    let segments = manager.get_segments_for_port(port_id);
    assert_eq!(segments.len(), 1);
    assert_eq!(segments[0].value(), segment_id.value());
}

#[test]
fn test_manager_register_multiple_segments_for_port() {
    let mut manager = Manager::new();
    let port_id: u128 = 0x1234;

    let handle1 = create_test_handle();
    let seg1 = manager
        .register_segment_for_port(port_id, handle1, 4096, AccessRights::read_write())
        .unwrap();

    let handle2 = create_test_handle();
    let seg2 = manager
        .register_segment_for_port(port_id, handle2, 8192, AccessRights::read_write())
        .unwrap();

    let segments = manager.get_segments_for_port(port_id);
    assert_eq!(segments.len(), 2);
    assert_eq!(segments[0].value(), seg1.value());
    assert_eq!(segments[1].value(), seg2.value());
}

#[test]
fn test_manager_get_segments_for_unknown_port() {
    let manager = Manager::new();
    let segments = manager.get_segments_for_port(0xFFFF);
    assert!(segments.is_empty());
}

#[test]
fn test_manager_remove_segment_cleans_port_mapping() {
    let mut manager = Manager::new();
    let port_id: u128 = 0x5678;
    let handle = create_test_handle();

    let segment_id = manager
        .register_segment_for_port(port_id, handle, 4096, AccessRights::read_write())
        .unwrap();

    manager.remove_segment(segment_id);

    let segments = manager.get_segments_for_port(port_id);
    assert!(segments.is_empty());
}

#[test]
fn test_manager_get_segment_handle_for_consumer() {
    let mut manager = Manager::new();
    let port_id: u128 = 0xAAAA;
    let consumer_session = SessionId::from_value(42);
    let handle = create_test_handle();

    manager
        .register_segment_for_port(port_id, handle, 4096, AccessRights::read_only())
        .unwrap();

    let result = manager.get_segment_handle_for_consumer(port_id, consumer_session, duplicate_handle());
    assert!(result.is_some());

    let (info, _handle) = result.unwrap();
    assert_eq!(info.size(), 4096);
    assert!(info.access().can_read());
}

#[test]
fn test_manager_get_segment_handle_for_consumer_unknown_port() {
    let mut manager = Manager::new();
    let consumer_session = SessionId::from_value(99);

    let result = manager.get_segment_handle_for_consumer(0xBBBB, consumer_session, duplicate_handle());
    assert!(result.is_none());
}

#[test]
fn test_manager_register_and_get_channel_grants_read_write() {
    let mut manager = Manager::new();
    let sender: u128 = 0x1111;
    let receiver: u128 = 0x2222;
    let consumer_session = SessionId::from_value(7);
    let handle = create_test_handle();

    manager
        .register_channel(sender, receiver, handle, 4096)
        .unwrap();
    assert_eq!(manager.channel_count(), 1);

    let (info, _handle) = manager
        .get_channel_handle_for_consumer(sender, receiver, consumer_session, duplicate_handle())
        .expect("channel must be found for the registered (sender, receiver) pair");

    // Access-rights hazard: channels MUST be read+write (the receiver end writes the
    // completion ring); data segments are read-only.
    assert!(info.access().can_read());
    assert!(info.access().can_write());
    assert_eq!(info.size(), 4096);
}

#[test]
fn test_manager_channel_keyed_by_sender_receiver_pair() {
    let mut manager = Manager::new();
    let sender: u128 = 0xAAAA;
    let receiver_a: u128 = 0x1;
    let receiver_b: u128 = 0x2;
    let session = SessionId::from_value(1);

    manager
        .register_channel(sender, receiver_a, create_test_handle(), 4096)
        .unwrap();
    manager
        .register_channel(sender, receiver_b, create_test_handle(), 8192)
        .unwrap();
    assert_eq!(manager.channel_count(), 2);

    // Each (sender, receiver) pair is an independent channel.
    assert!(manager
        .get_channel_handle_for_consumer(sender, receiver_a, session, duplicate_handle())
        .is_some());
    assert!(manager
        .get_channel_handle_for_consumer(sender, receiver_b, session, duplicate_handle())
        .is_some());
    // A pair that was never registered is not found.
    assert!(manager
        .get_channel_handle_for_consumer(sender, 0x3, session, duplicate_handle())
        .is_none());
}

#[test]
fn test_manager_reap_channels_for_sender_port() {
    let mut manager = Manager::new();
    let sender: u128 = 0xAAAA;
    let other_sender: u128 = 0xBBBB;

    manager
        .register_channel(sender, 0x1, create_test_handle(), 4096)
        .unwrap();
    manager
        .register_channel(sender, 0x2, create_test_handle(), 4096)
        .unwrap();
    manager
        .register_channel(other_sender, 0x3, create_test_handle(), 4096)
        .unwrap();
    assert_eq!(manager.channel_count(), 3);

    // Reaping the producer port drops only its channels (fd cleanup on teardown).
    manager.remove_channels_for_sender_port(sender);
    assert_eq!(manager.channel_count(), 1);
    let session = SessionId::from_value(1);
    assert!(manager
        .get_channel_handle_for_consumer(other_sender, 0x3, session, duplicate_handle())
        .is_some());
}

#[test]
fn test_manager_reap_channels_for_receiver_port() {
    let mut manager = Manager::new();
    let receiver: u128 = 0x2222;

    manager
        .register_channel(0xA, receiver, create_test_handle(), 4096)
        .unwrap();
    manager
        .register_channel(0xB, receiver, create_test_handle(), 4096)
        .unwrap();
    manager
        .register_channel(0xC, 0x9999, create_test_handle(), 4096)
        .unwrap();
    assert_eq!(manager.channel_count(), 3);

    // Reaping the consumer port drops only the channels brokered to it.
    manager.remove_channels_for_receiver_port(receiver);
    assert_eq!(manager.channel_count(), 1);
}

#[test]
fn test_manager_register_and_get_mgmt_segment_grants_read_only() {
    let mut manager = Manager::new();
    let port_id: u128 = 0xF00D;
    let consumer_session = SessionId::from_value(7);
    let handle = create_test_handle();

    manager.register_mgmt_segment(port_id, handle, 4096).unwrap();
    assert_eq!(manager.mgmt_segment_count(), 1);

    let (info, _handle) = manager
        .get_mgmt_segment_handle_for_consumer(port_id, consumer_session, duplicate_handle())
        .expect("management segment must be found for the registered producer port");

    // Access-rights: the management segment is a never-read keep-alive token, so it is
    // brokered read-only (like data segments, unlike the read+write connection channels).
    assert!(info.access().can_read());
    assert!(!info.access().can_write());
    assert_eq!(info.size(), 4096);
}

#[test]
fn test_manager_mgmt_segment_keyed_by_port() {
    let mut manager = Manager::new();
    let port_a: u128 = 0xAAAA;
    let port_b: u128 = 0xBBBB;
    let session = SessionId::from_value(1);

    manager
        .register_mgmt_segment(port_a, create_test_handle(), 4096)
        .unwrap();
    manager
        .register_mgmt_segment(port_b, create_test_handle(), 8192)
        .unwrap();
    assert_eq!(manager.mgmt_segment_count(), 2);

    // Each producer port has an independent management segment.
    assert!(manager
        .get_mgmt_segment_handle_for_consumer(port_a, session, duplicate_handle())
        .is_some());
    assert!(manager
        .get_mgmt_segment_handle_for_consumer(port_b, session, duplicate_handle())
        .is_some());
    // A port that never registered a management segment is not found.
    assert!(manager
        .get_mgmt_segment_handle_for_consumer(0xCCCC, session, duplicate_handle())
        .is_none());
}

#[test]
fn test_manager_mgmt_segment_size_floored_to_one() {
    let mut manager = Manager::new();
    let port_id: u128 = 0x1;
    let session = SessionId::from_value(1);

    // A zero advisory size is stored as 1 (the consumer derives the true mapping from the
    // handle), so registration and lookup still succeed.
    manager.register_mgmt_segment(port_id, create_test_handle(), 0).unwrap();
    let (info, _handle) = manager
        .get_mgmt_segment_handle_for_consumer(port_id, session, duplicate_handle())
        .expect("management segment must be found");
    assert_eq!(info.size(), 1);
}

#[test]
fn test_manager_reap_mgmt_segment_for_port() {
    let mut manager = Manager::new();
    let port_a: u128 = 0xAAAA;
    let port_b: u128 = 0xBBBB;
    let session = SessionId::from_value(1);

    manager
        .register_mgmt_segment(port_a, create_test_handle(), 4096)
        .unwrap();
    manager
        .register_mgmt_segment(port_b, create_test_handle(), 4096)
        .unwrap();
    assert_eq!(manager.mgmt_segment_count(), 2);

    // Reaping the producer port drops only its management segment (fd cleanup on teardown).
    manager.remove_mgmt_segment_for_port(port_a);
    assert_eq!(manager.mgmt_segment_count(), 1);
    assert!(manager
        .get_mgmt_segment_handle_for_consumer(port_a, session, duplicate_handle())
        .is_none());
    assert!(manager
        .get_mgmt_segment_handle_for_consumer(port_b, session, duplicate_handle())
        .is_some());
}

#[test]
fn test_manager_associate_at_index_aligns_with_segment_id() {
    let mut manager = Manager::new();
    let port_id: u128 = 0x1234;
    let session = SessionId::from_value(1);

    // The initial data segment is registered at explicit index 0. Its global id is opaque to
    // consumers (they always request the initial by local index 0); with id 0 reserved the
    // first allocated global id is 1.
    let seg_initial = manager
        .register_dynamic_segment_for_port(
            port_id,
            0,
            create_test_handle(),
            4096,
            AccessRights::read_only(),
        )
        .unwrap();
    assert_eq!(seg_initial.value(), 1);

    // Simulate the multi-producer case: the global segment-id counter is shared, so this
    // producer's two runtime (growth) segments end up with the non-contiguous ids 3 and 5 (a
    // co-located producer took the interleaved ids 2 and 4). The producer stamps its adopted
    // global id into its offsets, so the server must place each growth segment at that
    // explicit index.
    let _seg_other = manager
        .register_segment(create_test_handle(), 1024, AccessRights::read_write())
        .unwrap(); // id 2, belongs to another producer
    let seg_a = manager
        .register_segment(create_test_handle(), 8192, AccessRights::read_write())
        .unwrap(); // id 3, this producer
    let _seg_other2 = manager
        .register_segment(create_test_handle(), 1024, AccessRights::read_write())
        .unwrap(); // id 4, belongs to another producer
    let seg_b = manager
        .register_segment(create_test_handle(), 16384, AccessRights::read_write())
        .unwrap(); // id 5, this producer
    assert_eq!(seg_a.value(), 3);
    assert_eq!(seg_b.value(), 5);

    manager
        .associate_segment_with_port_at_index(seg_a, port_id, seg_a.value())
        .unwrap();
    manager
        .associate_segment_with_port_at_index(seg_b, port_id, seg_b.value())
        .unwrap();

    // port_segments must be aligned so that port_segments[i] holds the segment whose id
    // value is what the producer stamps into offset.segment_id() (== the explicit index).
    let segments = manager.get_segments_for_port(port_id);
    assert_eq!(segments.len(), 6);
    assert_eq!(segments[0].value(), seg_initial.value()); // initial data segment (id 1)
    assert_eq!(segments[1].value(), 255); // gap placeholder
    assert_eq!(segments[2].value(), 255); // gap placeholder (another producer's id 2)
    assert_eq!(segments[3].value(), 3); // runtime segment id 3
    assert_eq!(segments[4].value(), 255); // gap placeholder (another producer's id 4)
    assert_eq!(segments[5].value(), 5); // runtime segment id 5

    // A consumer requesting by offset.segment_id().value() resolves the correct handle.
    assert!(manager
        .get_dynamic_segment_handle(port_id, 3, session, duplicate_handle())
        .is_some());
    assert!(manager
        .get_dynamic_segment_handle(port_id, 5, session, duplicate_handle())
        .is_some());
    // Gap indices resolve to the placeholder and yield no handle.
    assert!(manager
        .get_dynamic_segment_handle(port_id, 2, session, duplicate_handle())
        .is_none());
}

#[test]
fn test_manager_associate_at_index_segment_not_found() {
    let mut manager = Manager::new();
    let result =
        manager.associate_segment_with_port_at_index(SegmentId::new(3), 0xABCD, 3);
    assert!(matches!(result, Err(IamServerError::SegmentNotFound)));
}

#[test]
fn test_manager_associate_at_index_overwrites_existing_slot() {
    let mut manager = Manager::new();
    let port_id: u128 = 0x9;

    let seg0 = manager
        .register_segment(create_test_handle(), 4096, AccessRights::read_write())
        .unwrap();
    // Place seg0 at index 0.
    manager
        .associate_segment_with_port_at_index(seg0, port_id, 0)
        .unwrap();
    // Overwriting the same explicit index does not grow or shift the vector.
    manager
        .associate_segment_with_port_at_index(seg0, port_id, 0)
        .unwrap();

    let segments = manager.get_segments_for_port(port_id);
    assert_eq!(segments.len(), 1);
    assert_eq!(segments[0].value(), seg0.value());
}

#[test]
fn test_remove_all_segments_for_port_reaps_and_frees_ids() {
    let mut manager = Manager::new();
    let port_id: u128 = 0xD00D;

    // Register several data segments for the producer port.
    let mut ids = Vec::new();
    for _ in 0..4 {
        let id = manager
            .register_segment_for_port(
                port_id,
                create_test_handle(),
                4096,
                AccessRights::read_write(),
            )
            .unwrap();
        ids.push(id);
    }
    assert_eq!(manager.segment_count(), 4);
    assert_eq!(manager.get_segments_for_port(port_id).len(), 4);
    for id in &ids {
        assert!(manager.has_segment(*id));
    }

    // Reap every data segment owned by the port (fd cleanup on producer teardown).
    manager.remove_all_segments_for_port(port_id);

    // All segments are gone and the port's mapping is cleared.
    assert_eq!(manager.segment_count(), 0);
    assert!(manager.get_segments_for_port(port_id).is_empty());
    for id in &ids {
        assert!(!manager.has_segment(*id));
    }

    // The freed ids are immediately reusable: allocation considers an id free exactly when
    // it is absent from `self.segments`. Rewinding next_id to 0 hands out 1 (id 0 is
    // reserved), the lowest usable id.
    scan_to(&mut manager, 0);
    let reused = manager
        .register_segment_for_port(
            port_id,
            create_test_handle(),
            4096,
            AccessRights::read_write(),
        )
        .unwrap();
    assert_eq!(reused.value(), 1);
    assert!(manager.has_segment(reused));
}

#[test]
fn test_remove_all_segments_for_port_isolated_to_that_port() {
    let mut manager = Manager::new();
    let port_a: u128 = 0xAAAA;
    let port_b: u128 = 0xBBBB;
    let session = SessionId::from_value(1);

    let a1 = manager
        .register_segment_for_port(port_a, create_test_handle(), 4096, AccessRights::read_write())
        .unwrap();
    let a2 = manager
        .register_segment_for_port(port_a, create_test_handle(), 4096, AccessRights::read_write())
        .unwrap();
    let b1 = manager
        .register_segment_for_port(port_b, create_test_handle(), 4096, AccessRights::read_write())
        .unwrap();

    // A connection channel and a management segment for port_a must NOT be affected: those
    // live in separate maps and are reaped by their own teardown calls.
    manager
        .register_channel(port_a, 0x1, create_test_handle(), 4096)
        .unwrap();
    manager
        .register_mgmt_segment(port_a, create_test_handle(), 4096)
        .unwrap();

    assert_eq!(manager.segment_count(), 3);

    manager.remove_all_segments_for_port(port_a);

    // Only port_a's data segments were reaped.
    assert!(!manager.has_segment(a1));
    assert!(!manager.has_segment(a2));
    assert!(manager.has_segment(b1));
    assert_eq!(manager.segment_count(), 1);
    assert!(manager.get_segments_for_port(port_a).is_empty());
    assert_eq!(manager.get_segments_for_port(port_b).len(), 1);

    // Channels and management segments are untouched by data-segment reaping.
    assert_eq!(manager.channel_count(), 1);
    assert_eq!(manager.mgmt_segment_count(), 1);
    assert!(manager
        .get_channel_handle_for_consumer(port_a, 0x1, session, duplicate_handle())
        .is_some());
    assert!(manager
        .get_mgmt_segment_handle_for_consumer(port_a, session, duplicate_handle())
        .is_some());
}

#[test]
fn test_remove_all_segments_for_port_skips_gap_sentinel() {
    let mut manager = Manager::new();
    let port_id: u128 = 0x1234;

    // Registering a runtime segment at index 2 leaves gap sentinels (255) at indices 0 and 1.
    let seg = manager
        .register_dynamic_segment_for_port(
            port_id,
            2,
            create_test_handle(),
            4096,
            AccessRights::read_only(),
        )
        .unwrap();
    let segments = manager.get_segments_for_port(port_id);
    assert_eq!(segments.len(), 3);
    assert_eq!(segments[0].value(), 255);
    assert_eq!(segments[1].value(), 255);
    assert_eq!(segments[2].value(), seg.value());

    // Reaping must skip the 255 gap markers and only remove the real segment.
    manager.remove_all_segments_for_port(port_id);
    assert_eq!(manager.segment_count(), 0);
    assert!(!manager.has_segment(seg));
    assert!(manager.get_segments_for_port(port_id).is_empty());
}

#[test]
fn test_remove_all_segments_for_unknown_port_is_noop() {
    let mut manager = Manager::new();
    // No panic and no state change when the port has no segments.
    manager.remove_all_segments_for_port(0xDEAD);
    assert_eq!(manager.segment_count(), 0);
}

#[test]
fn test_allocate_segment_id_never_returns_255_across_wrap() {
    let mut manager = Manager::new();
    // Drive the monotonic counter right up to the wrap point so the sequence crosses 255.
    scan_to(&mut manager, 250);

    let mut allocated = Vec::new();
    for _ in 0..12 {
        let id = manager.allocate_segment_id().unwrap();
        // 255 is the reserved gap sentinel and must never be handed out.
        assert_ne!(id.value(), 255);
        allocated.push(id.value());
    }

    // The sequence crosses the wrap point: 250..=254, then 255 AND 0 are SKIPPED, then 1, 2...
    assert_eq!(allocated, vec![250, 251, 252, 253, 254, 1, 2, 3, 4, 5, 6, 7]);
}

#[test]
fn test_allocate_segment_id_never_returns_0_or_255_across_full_wrap() {
    let mut manager = Manager::new();

    // A full wrap yields exactly the 254 usable ids 1..=254, each exactly once, never 0/255.
    let mut allocated = Vec::new();
    loop {
        let id = manager
            .allocate_segment_id()
            .expect("254 ids must be allocatable before exhaustion");
        assert_ne!(id.value(), 0, "id 0 is reserved for the initial-segment slot");
        assert_ne!(id.value(), 255, "id 255 is the reserved gap sentinel");
        // Occupy the id so the allocator advances and eventually exhausts.
        manager
            .register_segment_with_id(id, create_test_handle(), 4096, AccessRights::read_write())
            .unwrap();
        allocated.push(id.value());
        if allocated.len() == 254 {
            break;
        }
    }
    allocated.sort_unstable();
    let expected: Vec<u8> = (1..=254).collect();
    assert_eq!(allocated, expected);

    // With all 254 usable ids occupied the allocator reports exhaustion rather than looping
    // forever or returning a reserved value.
    assert!(matches!(
        manager.allocate_segment_id(),
        Err(IamServerError::ResourceLimitExceeded)
    ));
}

#[test]
fn test_growth_segment_never_overwrites_initial_index_0_slot() {
    let mut manager = Manager::new();
    let port_id: u128 = 0xC0FFEE;
    let session = SessionId::from_value(7);

    // Register the initial dynamic segment at index 0.
    let initial = manager
        .register_dynamic_segment_for_port(
            port_id,
            0,
            create_test_handle(),
            4096,
            AccessRights::read_only(),
        )
        .unwrap();
    assert_ne!(initial.value(), 0, "initial's global id is reserved-0-free (>=1)");

    // Drive the global counter across the wrap point and place many growth segments at
    // index == their global id. No growth id is ever 0, so index 0 is never targeted.
    scan_to(&mut manager, 250);
    for _ in 0..20 {
        let seg = manager
            .register_segment(create_test_handle(), 4096, AccessRights::read_write())
            .unwrap();
        assert_ne!(seg.value(), 0, "growth ids must never be 0");
        manager
            .associate_segment_with_port_at_index(seg, port_id, seg.value())
            .unwrap();
    }

    // The initial's slot at index 0 is intact and still resolves to the initial's handle.
    let segments = manager.get_segments_for_port(port_id);
    assert_eq!(segments[0].value(), initial.value());
    let (info, _handle) = manager
        .get_dynamic_segment_handle(port_id, 0, session, duplicate_handle())
        .expect("index 0 must still resolve to the initial segment");
    assert_eq!(info.segment_id().value(), initial.value());
}

#[test]
fn test_register_segment_skips_255_across_wrap() {
    let mut manager = Manager::new();
    scan_to(&mut manager, 252);

    // register_segment allocates through allocate_segment_id, so real registrations must also
    // skip 255 (and 0) while crossing the wrap point.
    let mut ids = Vec::new();
    for _ in 0..6 {
        let id = manager
            .register_segment(create_test_handle(), 4096, AccessRights::read_write())
            .unwrap();
        assert_ne!(id.value(), 255, "255 is reserved and must never be allocated");
        assert_ne!(id.value(), 0, "0 is reserved and must never be allocated");
        ids.push(id.value());
    }
    // 252, 253, 254, (255 skipped), (0 skipped), 1, 2, 3
    assert_eq!(ids, vec![252, 253, 254, 1, 2, 3]);
}

#[test]
fn test_get_dynamic_segment_handle_round_trips_high_id_254() {
    let mut manager = Manager::new();
    let port_id: u128 = 0x2A;
    let session = SessionId::from_value(1);

    // Force the next allocated id to 254 — the highest usable id, one below the sentinel.
    scan_to(&mut manager, 254);
    let seg = manager
        .register_dynamic_segment_for_port(
            port_id,
            254,
            create_test_handle(),
            4096,
            AccessRights::read_only(),
        )
        .unwrap();
    assert_eq!(seg.value(), 254);

    // A real id-254 segment must round-trip (it is NOT the sentinel 255, so it is not
    // silently rejected as a gap placeholder).
    let (info, _handle) = manager
        .get_dynamic_segment_handle(port_id, 254, session, duplicate_handle())
        .expect("a real id-254 segment must resolve to a handle");
    assert_eq!(info.segment_id().value(), 254);
}

#[test]
fn test_manager_is_send() {
    fn assert_send<T: Send>() {}
    assert_send::<Manager>();
}

#[test]
fn test_managed_segment_is_send() {
    fn assert_send<T: Send>() {}
    assert_send::<ManagedSegment<u32>>();
}

#[test]
fn registering_under_a_given_identifier() {
    let mut manager = Manager::new();
    let rights = AccessRights::read_write();
    assert_eq!(manager.register_segment_with_id(SegmentId::new(9), 1, 10, rights), Ok(()));
    assert!(manager.has_segment(SegmentId::new(9)));
    assert_eq!(
        manager.register_segment_with_id(SegmentId::new(9), 2, 0, rights),
        Err(IamServerError::InvalidSegmentSize)
    );
    assert_eq!(
        manager.register_segment(3, 0, rights),
        Err(IamServerError::InvalidSegmentSize)
    );
}

#[test]
fn a_handle_that_cannot_be_duplicated_is_not_granted() {
    let mut manager = Manager::new();
    let session = SessionId::from_value(5);
    let id = manager.register_segment_for_port(1, 7, 10, AccessRights::read_only()).unwrap();
    assert_eq!(
        manager.authorize_session(id, session, None),
        Err(IamServerError::HandlePassingFailed)
    );
    assert!(!manager.is_session_authorized(id, session));
    assert!(manager.get_segment_handle_for_consumer(1, session, None).is_none());
    assert!(!manager.is_session_authorized(id, session));
}

#[test]
fn the_handle_to_duplicate_is_found() {
    let mut manager = Manager::new();
    manager.register_segment_for_port(1, 70, 10, AccessRights::read_only()).unwrap();
    manager
        .register_dynamic_segment_for_port(2, 3, 71, 10, AccessRights::read_only())
        .unwrap();
    manager.register_channel(1, 2, 72, 10).unwrap();
    manager.register_mgmt_segment(1, 73, 10).unwrap();
    assert_eq!(manager.segment_handle_for_port(1), Some(&70));
    assert_eq!(manager.segment_handle_for_port(9), None);
    assert_eq!(manager.dynamic_segment_handle_for_port(2, 3), Some(&71));
    assert_eq!(manager.dynamic_segment_handle_for_port(2, 0), None);
    assert_eq!(manager.channel_handle(1, 2), Some(&72));
    assert_eq!(manager.channel_handle(2, 1), None);
    assert_eq!(manager.mgmt_segment_handle(1), Some(&73));
    assert_eq!(manager.mgmt_segment_handle(2), None);
}

#[test]
fn a_grant_authorizes_the_session() {
    let mut manager = Manager::new();
    let session = SessionId::from_value(5);
    let id = manager.register_segment_for_port(1, 7, 10, AccessRights::read_only()).unwrap();
    let (info, handle) = manager.get_segment_handle_for_consumer(1, session, Some(99)).unwrap();
    assert_eq!(info.segment_id(), id);
    assert_eq!(handle, 99);
    assert!(manager.is_session_authorized(id, session));
    assert_eq!(manager.get_session_segments(session).len(), 1);
    manager.revoke_session(session);
    assert!(manager.get_session_segments(session).is_empty());
}

#[test]
fn reaping_again_changes_nothing() {
    let mut manager = Manager::new();
    manager.register_segment_for_port(1, 7, 10, AccessRights::read_only()).unwrap();
    let kept = manager.register_segment_for_port(2, 7, 10, AccessRights::read_only()).unwrap();
    manager.remove_all_segments_for_port(1);
    manager.remove_all_segments_for_port(1);
    assert_eq!(manager.segment_ids(), vec![kept]);
}

#[test]
fn an_acknowledgment_of_a_stranger_does_not_count() {
    let mut manager = Manager::new();
    let session = SessionId::from_value(5);
    let id = manager.register_segment(7, 10, AccessRights::read_only()).unwrap();
    manager.authorize_session(id, session, Some(8)).unwrap();
    manager.begin_retirement(id).unwrap();
    assert!(!manager.ack_retirement(id, SessionId::from_value(6)));
    assert_eq!(manager.pending_ack_count(id), 1);
    assert!(manager.ack_retirement(id, session));
    assert!(!manager.has_segment(id));
}

#[test]
fn associating_puts_a_segment_last() {
    let mut manager = Manager::new();
    let one = manager.register_segment(7, 10, AccessRights::read_only()).unwrap();
    let other = manager.register_segment(7, 10, AccessRights::read_only()).unwrap();
    manager.associate_segment_with_port(other, 4).unwrap();
    manager.associate_segment_with_port(one, 4).unwrap();
    assert_eq!(manager.get_segments_for_port(4), vec![other, one]);
    assert_eq!(
        manager.associate_segment_with_port(SegmentId::new(77), 4),
        Err(IamServerError::SegmentNotFound)
    );
}
