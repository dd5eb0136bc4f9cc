use iceoryx2_iam::configured_policy::{ConfiguredPolicy, PolicyDispatch, PolicyLoadError};
use iceoryx2_iam::data_segment::{
    max_number_of_segments, static_segment_size, AllocationStrategy, DataSegmentAllocationError,
    DataSegmentType, ResizableShmAllocationError, ShmAllocationError,
};
use iceoryx2_iam::error::IamServerError;
use iceoryx2_iam::policy::ResourceLimits;
use iceoryx2_iam::resource::{stale_resources_of, MessagingPattern, NoResource, StaleResources};
use iceoryx2_iam::secured_context::{
    endpoint_exists, iam_endpoint_name, next_attempt, select_policy, Secured, SecurityResource,
};
use iceoryx2_iam::segment_factory::{NoSegmentFactory, SegmentFactory, ServiceSegmentFactory};
use iceoryx2_iam::types::{ProcessCredentials, SegmentId, ServiceId};

fn endpoint(service_id: &str, base: &str) -> String {
    let name = iam_endpoint_name(&ServiceId::new(service_id), &base.as_bytes().to_vec());
    String::from_utf8(name).unwrap()
}

#[test]
fn endpoints_hold_the_beginning_of_the_service_identifier() {
    assert_eq!(endpoint("0123456789abcdefXYZ", "iox2"), "iox2_iam_0123456789abcdef");
    assert_eq!(endpoint("short", "iox2"), "iox2_iam_short");
}

#[test]
fn long_bases_are_kept_in_endpoints() {
    let base = "b".repeat(44);
    assert_eq!(endpoint("0123456789abcdef", &base), format!("{}_iam_0123456789abcdef", base));
    let base = "b".repeat(234);
    assert_eq!(endpoint("0123456789abcdef", &base).len(), 255);
}

#[test]
fn endpoints_that_no_file_can_have_are_the_prefix_alone() {
    assert_eq!(endpoint("0123456789abcdefXYZ", &"b".repeat(235)), "0123456789abcdef");
    assert_eq!(endpoint("0123456789abcdefXYZ", "/tmp/iox2"), "0123456789abcdef");
    assert_eq!(endpoint("short", "a\0b"), "short");
    assert_eq!(endpoint("", ""), "_iam_");
    assert_eq!(endpoint("..", ""), "_iam_..");
}

#[test]
fn endpoints_are_the_names_of_files() {
    let exists = |service_id: &str, base: &str| {
        endpoint_exists(&ServiceId::new(service_id), &base.as_bytes().to_vec())
    };
    assert!(exists("0123456789abcdef", &"b".repeat(234)));
    assert!(exists("0123456789abcdef", &"b".repeat(235)));
    assert!(exists("0123456789abcdef", "a/b"));
    assert!(!exists("0123/56789abcdef", "iox2"));
    assert!(!exists("0123\056789abcdef", "iox2"));
    for refused in ["", ".", ".."] {
        assert!(exists(refused, "iox2"));
        assert!(!exists(refused, "a/b"));
    }
    assert!(exists("...", "a/b"));
    // The beginning of the identifier would cut a character.
    assert!(exists("0123456789abcd\u{e9}", "iox2"));
    assert!(!exists("0123456789abcde\u{e9}", "iox2"));
}

#[test]
fn bases_have_different_endpoints() {
    let long = "b".repeat(100);
    assert_ne!(endpoint("0123456789abcdef", &long), endpoint("0123456789abcdef", "c"));
    assert_ne!(endpoint("0123456789abcdef", &long), endpoint("0123456789abcdef", &"d".repeat(100)));
    assert_ne!(endpoint("0123456789abcdef", &long), endpoint("0123456789abcdef", "a/b"));
    assert_eq!(endpoint("0123456789abcdef", "c/d"), endpoint("0123456789abcdef", "a/b"));
}

#[test]
fn services_have_different_endpoints() {
    assert_ne!(endpoint("aaaa", "base"), endpoint("aaab", "base"));
    assert_eq!(endpoint("0123456789abcdefA", "base"), endpoint("0123456789abcdefB", "base"));
}

#[test]
fn a_service_without_a_policy_file_has_the_default_policy() {
    let creator = ProcessCredentials::new(1, 500, 501);
    match select_policy(Err(PolicyLoadError::NotFound), &creator) {
        Ok(PolicyDispatch::Default(policy)) => assert_eq!(policy.owner_uid(), 500),
        _ => panic!("expected the default policy"),
    }
    let configured = ConfiguredPolicy::new(9, Vec::new(), Vec::new(), ResourceLimits::default());
    match select_policy(Ok(configured), &creator) {
        Ok(PolicyDispatch::Configured(policy)) => assert_eq!(policy.owner_uid, 9),
        _ => panic!("expected the configured policy"),
    }
    assert!(matches!(
        select_policy(Err(PolicyLoadError::ParseError(String::from("bad"))), &creator),
        Err(PolicyLoadError::ParseError(_))
    ));
}

#[test]
fn connecting_is_tried_until_the_timeout() {
    assert_eq!(next_attempt(0, 1), Some(2));
    assert_eq!(next_attempt(1, 1), None);
    assert_eq!(next_attempt(0, 0), None);
}

#[test]
fn the_client_of_a_secured_service_is_found() {
    let public: Secured<u8, u16, u32> = Secured::public(1);
    assert_eq!(public.as_client(), None);
    assert_eq!(public.inner, 1);
    let opened: Secured<u8, u16, u32> = Secured::new(1, SecurityResource::SecuredClient(5));
    assert_eq!(opened.as_client(), Some(&5));
    let created: Secured<u8, u16, u32> =
        Secured::new(1, SecurityResource::SecuredServer { server: 3, client: 6 });
    assert_eq!(created.as_client(), Some(&6));
}

#[test]
fn some_services_leave_resources_behind() {
    assert_eq!(stale_resources_of(MessagingPattern::Blackboard), StaleResources::Blackboard);
    assert_eq!(
        stale_resources_of(MessagingPattern::PublishSubscribe),
        StaleResources::PublishSubscribe
    );
    assert_eq!(stale_resources_of(MessagingPattern::Event), StaleResources::Nothing);
    assert_eq!(stale_resources_of(MessagingPattern::RequestResponse), StaleResources::Nothing);
    assert_eq!(format!("{:?}", NoResource), "NoResource");
}

#[test]
fn the_empty_factory_creates_nothing() {
    let factory: NoSegmentFactory<u32, u64> = NoSegmentFactory::new();
    assert_eq!(
        factory.create_segment(SegmentId::new(1), 1, 1, 1),
        Err(IamServerError::SegmentCreationNotSupported)
    );
    assert_eq!(factory.get_stored_segment(SegmentId::new(1)), None);
}

#[test]
fn segments_are_named_by_number() {
    let mut factory: ServiceSegmentFactory<&str> = ServiceSegmentFactory::new();
    assert!(factory.can_name());
    assert_eq!(factory.begin_segment(64, 8).unwrap(), "iam_seg_1");
    assert_eq!(factory.begin_segment(0, 1).unwrap(), "iam_seg_2");
    for _ in 3..=9 {
        factory.begin_segment(64, 8).unwrap();
    }
    assert_eq!(factory.begin_segment(64, 8).unwrap(), "iam_seg_10");
}

#[test]
fn buckets_need_a_memory_layout() {
    let mut factory: ServiceSegmentFactory<&str> = ServiceSegmentFactory::new();
    let invalid = Err(IamServerError::InvalidConfiguration);
    assert_eq!(factory.begin_segment(64, 0), invalid);
    assert_eq!(factory.begin_segment(64, 3), invalid);
    assert_eq!(factory.begin_segment(usize::MAX, 8), invalid);
    let most = isize::MAX as usize;
    assert_eq!(factory.begin_segment(most, 2), invalid);
    assert_eq!(factory.begin_segment(most, 1).unwrap(), "iam_seg_1");
    assert_eq!(factory.begin_segment(most - 1, 2).unwrap(), "iam_seg_2");
}

#[test]
fn created_segments_are_kept() {
    let mut factory: ServiceSegmentFactory<&str> = ServiceSegmentFactory::new();
    let id = SegmentId::new(4);
    assert_eq!(factory.get_stored_segment(id), None);
    assert_eq!(factory.complete_segment(id, Some(("memory", 9u32, 100))), Ok((9, 100)));
    assert_eq!(factory.get_stored_segment(id), Some(&"memory"));
    assert_eq!(
        factory.complete_segment::<u32>(id, None),
        Err(IamServerError::SegmentCreationFailed)
    );
    assert_eq!(factory.get_stored_segment(id), Some(&"memory"));
}

#[test]
fn only_static_strategies_ask_for_static_segments() {
    assert_eq!(
        DataSegmentType::new_from_allocation_strategy(AllocationStrategy::Static),
        DataSegmentType::Static
    );
    for strategy in [
        AllocationStrategy::BestFit,
        AllocationStrategy::PowerOfTwo,
        AllocationStrategy::IamManaged,
    ] {
        assert_eq!(
            DataSegmentType::new_from_allocation_strategy(strategy),
            DataSegmentType::Dynamic
        );
    }
}

#[test]
fn static_segments_have_room_for_alignment() {
    assert_eq!(static_segment_size(100, 8, 10), 1007);
    assert_eq!(static_segment_size(0, 1, 10), 0);
}

#[test]
fn the_number_of_segments_is_by_type() {
    assert_eq!(max_number_of_segments(DataSegmentType::Static, 256), 1);
    assert_eq!(max_number_of_segments(DataSegmentType::Dynamic, 256), 255);
    assert_eq!(max_number_of_segments(DataSegmentType::Dynamic, 257), 0);
}

#[test]
fn allocation_errors_are_unified() {
    type Unified = DataSegmentAllocationError<u8>;
    type Dynamic = ResizableShmAllocationError<u8, &'static str>;
    assert_eq!(
        Unified::from_static(ShmAllocationError::AllocationError(3)),
        DataSegmentAllocationError::AllocationError(3)
    );
    assert_eq!(
        Unified::from_dynamic(Dynamic::ShmAllocationError(
            ShmAllocationError::ExceedsMaxSupportedAlignment
        )),
        DataSegmentAllocationError::ExceedsMaxSupportedAlignment
    );
    assert_eq!(
        Unified::from_dynamic(Dynamic::MaxReallocationsReached),
        DataSegmentAllocationError::MaxReallocationsReached
    );
    assert_eq!(
        Unified::from_dynamic(Dynamic::SharedMemoryCreateError("why")),
        DataSegmentAllocationError::SharedMemoryCreateError
    );
    assert_eq!(
        Unified::from_dynamic(Dynamic::NeedSegment { requested_size: 77 }),
        DataSegmentAllocationError::NeedSegment { requested_size: 77 }
    );
}
