use std::cell::RefCell;
use std::collections::VecDeque;
use std::rc::Rc;

use iceoryx2_iam::audit::AuditEventKind;
use iceoryx2_iam::configured_policy::{AllowRule, ConfiguredPolicy, PrincipalMatcher};
use iceoryx2_iam::client::IamClient;
use iceoryx2_iam::error::IamServerError;
use iceoryx2_iam::policy::{
    DefaultPolicy, IamPolicy, PolicyDecision, QosBounds, ResourceLimits,
};
use iceoryx2_iam::protocol::{
    DenialReason, IamNotification, IamRequest, IamResponse, MessagingPatternKind, PortType,
    ProtocolVersion, SessionCounter, SessionId, MAX_HANDLES_PER_MESSAGE,
};
use iceoryx2_iam::server::{AuditRecord, IamServer, IamServerBuilder, Notice, Reply};
use iceoryx2_iam::session::SessionResourceUsage;
use iceoryx2_iam::turn::{handles_sent, response_sent, Step};
use iceoryx2_iam::types::{
    AccessRights, ProcessCredentials, SegmentId, ServiceId, ServiceName, UniqueSystemId,
};

/// What a client and the server exchange.
struct SharedMessages {
    requests: RefCell<VecDeque<IamRequest>>,
    responses: RefCell<Vec<IamResponse>>,
    handles_from_client: RefCell<Vec<u32>>,
    handles_from_server: RefCell<Vec<u32>>,
}

impl SharedMessages {
    fn new() -> Self {
        Self {
            requests: RefCell::new(VecDeque::new()),
            responses: RefCell::new(Vec::new()),
            handles_from_client: RefCell::new(Vec::new()),
            handles_from_server: RefCell::new(Vec::new()),
        }
    }

    fn push_request(&self, request: &IamRequest) {
        self.requests.borrow_mut().push_back(request.clone());
    }

    fn get_responses(&self) -> Vec<IamResponse> {
        self.responses.borrow().clone()
    }

    fn clear_responses(&self) {
        self.responses.borrow_mut().clear();
    }
}

struct MockClientChannel {
    shared: Rc<SharedMessages>,
}

/// Mock listener that produces the server's end of channels.
struct MockListener {
    pending_connections: RefCell<Vec<(ProcessCredentials, Rc<SharedMessages>)>>,
}

impl MockListener {
    fn new() -> Self {
        Self { pending_connections: RefCell::new(Vec::new()) }
    }

    /// Creates a new channel pair and queues the server side for acceptance.
    fn create_channel_pair(&self, credentials: ProcessCredentials) -> MockClientChannel {
        let shared = Rc::new(SharedMessages::new());
        self.pending_connections.borrow_mut().push((credentials, Rc::clone(&shared)));
        MockClientChannel { shared }
    }
}

/// A server with its connections. Handles are numbers, and the duplicate of a handle is the
/// number that is larger by a thousand.
struct TestServer<P> {
    iam: IamServer<P, u32>,
    counter: SessionCounter,
    listener: MockListener,
    connections: Vec<(SessionId, Rc<SharedMessages>)>,
    created: Result<(u32, usize), IamServerError>,
    audited: Vec<AuditRecord>,
    notices: Vec<Notice<u32>>,
}

fn duplicate(handle: Option<&u32>) -> Option<u32> {
    handle.map(|number| number + 1000)
}

impl<P: IamPolicy> TestServer<P> {
    fn new(listener: MockListener, policy: P) -> Self {
        Self {
            iam: IamServer::new(policy),
            counter: SessionCounter::new(),
            listener,
            connections: Vec::new(),
            created: Err(IamServerError::SegmentCreationNotSupported),
            audited: Vec::new(),
            notices: Vec::new(),
        }
    }

    fn session_count(&self) -> usize {
        self.iam.session_count()
    }

    fn segment_count(&self) -> usize {
        self.iam.segment_count()
    }

    fn get_session_usage(&self, session_id: SessionId) -> Option<&SessionResourceUsage> {
        self.iam.get_session_usage(session_id)
    }

    fn accept(&mut self) {
        let pending: Vec<(ProcessCredentials, Rc<SharedMessages>)> =
            self.listener.pending_connections.borrow_mut().drain(..).collect();
        for (credentials, shared) in pending {
            let admission = self.iam.handle_new_connection(credentials, &mut self.counter, 0);
            self.audited.push(admission.audit);
            match admission.result {
                Ok(session_id) => self.connections.push((session_id, shared)),
                Err(response) => shared.responses.borrow_mut().push(response),
            }
        }
    }

    /// Has a request answered, doing what the server asks for on the way.
    fn answer(
        &mut self,
        session_id: SessionId,
        request: IamRequest,
        handles: Vec<u32>,
    ) -> Result<(IamResponse, Vec<u32>), IamServerError> {
        let copies: Vec<Option<u32>> = self
            .iam
            .wanted_handles(session_id, &request)
            .into_iter()
            .map(|handle| duplicate(Some(handle)))
            .collect();
        let (audit, mut step) = self.iam.begin_turn(session_id, Ok(Some(request)), copies);
        self.audited.extend(audit);
        let mut received = Some(handles);
        loop {
            step = match step {
                Step::Respond { response, handles } => return Ok((response, handles)),
                Step::PassHandles { handles } => panic!("no response was sent: {:?}", handles),
                Step::Done { turn } => return Err(turn.unwrap_err()),
                Step::CreateSegment { order } => {
                    let kept = match &self.created {
                        Ok((handle, _)) => duplicate(Some(handle)),
                        Err(_) => None,
                    };
                    self.iam.segment_created(order, self.created, kept)
                }
                Step::Announce { announcement } => {
                    let count = self.iam.consumers_of(&announcement.service_id).len();
                    let handle = announcement.handles[0];
                    let copies = vec![(Some(handle + 100), Some(handle + 200)); count];
                    let (notices, next) = self.iam.handles_copied(announcement, Some(copies));
                    self.notices.extend(notices);
                    next
                }
                Step::ReceiveHandles { order } => {
                    self.iam.handles_received(order, Ok(received.take().unwrap()))
                }
            };
        }
    }

    fn ask(&mut self, session_id: SessionId, request: IamRequest) -> IamResponse {
        self.answer(session_id, request, Vec::new()).unwrap().0
    }

    fn process(&mut self) -> Result<usize, IamServerError> {
        self.accept();
        let mut processed = 0;
        for (session_id, shared) in self.connections.clone() {
            let request = shared.requests.borrow_mut().pop_front();
            if let Some(request) = request {
                let handles: Vec<u32> = shared.handles_from_client.borrow_mut().drain(..).collect();
                let turn = match self.answer(session_id, request, handles) {
                    Ok((response, handles)) => {
                        shared.responses.borrow_mut().push(response);
                        match response_sent(Ok(()), handles) {
                            Step::PassHandles { handles } => {
                                shared.handles_from_server.borrow_mut().extend(handles);
                                handles_sent(Ok(()))
                            }
                            Step::Done { turn } => turn,
                            other => panic!("unexpected step: {:?}", other),
                        }
                    }
                    Err(error) => Err(error),
                };
                processed += self.iam.settle_turn(session_id, turn);
            }
        }
        Ok(processed)
    }
}

fn test_credentials() -> ProcessCredentials {
    ProcessCredentials::new(1234, 1000, 1000)
}

fn unauthorized_credentials() -> ProcessCredentials {
    ProcessCredentials::new(5678, 2000, 2000)
}

fn create_test_server(listener: MockListener, owner_uid: u32) -> TestServer<DefaultPolicy> {
    TestServer::new(listener, DefaultPolicy::with_owner(owner_uid))
}

fn create_test_service_id(name: &str) -> ServiceId {
    ServiceId::new(name)
}

/// A server with one client that has said hello.
fn server_with_session() -> (TestServer<DefaultPolicy>, SessionId) {
    let mut server = create_test_server(MockListener::new(), 1000);
    let session_id = join(&mut server, test_credentials());
    (server, session_id)
}

fn join<P: IamPolicy>(server: &mut TestServer<P>, credentials: ProcessCredentials) -> SessionId {
    server.listener.create_channel_pair(credentials);
    server.accept();
    let session_id = server.connections.last().unwrap().0;
    assert!(matches!(server.ask(session_id, hello()), IamResponse::HelloOk { .. }));
    session_id
}

fn hello() -> IamRequest {
    IamRequest::Hello {
        protocol_version: ProtocolVersion::current(),
        node_id: UniqueSystemId::new(1),
    }
}

fn attach(
    server: &mut TestServer<DefaultPolicy>,
    session_id: SessionId,
    service_id: &ServiceId,
    port_type: PortType,
) -> u128 {
    match server.ask(session_id, attach_request(service_id, port_type)) {
        IamResponse::AttachOk { port_id, .. } => port_id,
        other => panic!("Expected AttachOk, got {:?}", other),
    }
}

fn attach_request(service_id: &ServiceId, port_type: PortType) -> IamRequest {
    let service_id = service_id.clone();
    match port_type {
        PortType::Publisher => {
            IamRequest::AttachPublisher { service_id, history_size: 8, max_slice_len: 1024 }
        }
        PortType::Subscriber => IamRequest::AttachSubscriber { service_id, buffer_size: 16 },
        PortType::Server => IamRequest::AttachServer { service_id, max_active_requests: 10 },
        PortType::Client => IamRequest::AttachClient { service_id, max_pending_responses: 5 },
    }
}

fn detach(
    server: &mut TestServer<DefaultPolicy>,
    session_id: SessionId,
    service_id: &ServiceId,
    port_id: u128,
) {
    let request = IamRequest::Detach { service_id: service_id.clone(), port_id };
    assert!(matches!(server.ask(session_id, request), IamResponse::DetachOk));
}

fn register(
    server: &mut TestServer<DefaultPolicy>,
    session_id: SessionId,
    service_id: &ServiceId,
    port_id: u128,
    segment_size: usize,
    handle: u32,
) -> SegmentId {
    let request = IamRequest::RegisterSegment {
        service_id: service_id.clone(),
        port_id,
        segment_size,
        handle_count: 1,
    };
    match server.answer(session_id, request, vec![handle]).unwrap().0 {
        IamResponse::RegisterSegmentOk { segment_id } => segment_id,
        other => panic!("Expected RegisterSegmentOk, got {:?}", other),
    }
}

// Basic server tests

#[test]
fn test_server_new() {
    let server = create_test_server(MockListener::new(), 1000);
    assert_eq!(server.session_count(), 0);
    assert_eq!(server.segment_count(), 0);
}

#[test]
fn test_server_accept_connection() {
    let mut server = create_test_server(MockListener::new(), 1000);

    // Add a pending connection
    server.listener.create_channel_pair(test_credentials());

    // Process to accept connection
    let processed = server.process().unwrap();
    assert_eq!(processed, 0); // No requests processed, just connection accepted
    assert_eq!(server.session_count(), 1);
}

#[test]
fn test_server_handshake() {
    let mut server = create_test_server(MockListener::new(), 1000);

    // Add connection
    let client = server.listener.create_channel_pair(test_credentials());

    // Accept connection
    server.process().unwrap();
    assert_eq!(server.session_count(), 1);
    let session_id = server.connections[0].0;
    assert!(!server.iam.is_handshake_complete(session_id));

    client.shared.push_request(&hello());
    assert_eq!(server.process().unwrap(), 1);
    assert!(server.iam.is_handshake_complete(session_id));
}

#[test]
fn test_server_reject_unauthorized() {
    let mut server = create_test_server(MockListener::new(), 2000); // Different UID

    // Add connection with UID 1000 (not authorized)
    let client = server
        .listener
        .create_channel_pair(ProcessCredentials::new(1234, 1000, 1000));

    server.process().unwrap();

    // Whatever was sent to the connection is a denial
    for response in client.shared.get_responses() {
        assert!(matches!(response, IamResponse::Denied { .. }));
    }
}

// Cumulative limit tests

#[test]
fn test_check_port_limit_under_limit() {
    let server = create_test_server(MockListener::new(), 1000);
    let usage = SessionResourceUsage::new();
    let limits = ResourceLimits::default();

    let result =
        server.iam.check_port_limit(&usage, PortType::Publisher, &limits);
    assert!(result.is_none());
}

#[test]
fn test_check_port_limit_at_limit() {
    let server = create_test_server(MockListener::new(), 1000);
    let mut usage = SessionResourceUsage::new();
    usage.publisher_count = 16; // Default max

    let limits = ResourceLimits::default();
    let result =
        server.iam.check_port_limit(&usage, PortType::Publisher, &limits);

    assert!(result.is_some());
    if let Some(IamResponse::Denied { reason, .. }) = result {
        assert_eq!(reason, DenialReason::ResourceLimitExceeded);
    } else {
        panic!("Expected Denied response");
    }
}

#[test]
fn test_check_port_limit_all_types() {
    let server = create_test_server(MockListener::new(), 1000);
    let limits = ResourceLimits::default();

    // Publisher
    let mut usage = SessionResourceUsage::new();
    usage.publisher_count = limits.max_publishers;
    assert!(
        server.iam.check_port_limit(&usage, PortType::Publisher, &limits)
            .is_some()
    );

    // Subscriber
    let mut usage = SessionResourceUsage::new();
    usage.subscriber_count = limits.max_subscribers;
    assert!(
        server.iam.check_port_limit(&usage, PortType::Subscriber, &limits)
            .is_some()
    );

    // Server
    let mut usage = SessionResourceUsage::new();
    usage.server_count = limits.max_servers;
    assert!(
        server.iam.check_port_limit(&usage, PortType::Server, &limits)
            .is_some()
    );

    // Client
    let mut usage = SessionResourceUsage::new();
    usage.client_count = limits.max_clients;
    assert!(
        server.iam.check_port_limit(&usage, PortType::Client, &limits)
            .is_some()
    );
}

// Segment size calculation tests

#[test]
fn test_calculate_publisher_segment_size() {
    let size = IamServer::<DefaultPolicy, u32>::calculate_publisher_segment_size(8, 1024);
    // (8 + 1) * 1024 + 4096 = 13312
    assert_eq!(size, 13312);
}

#[test]
fn test_calculate_publisher_segment_size_zero_history() {
    let size = IamServer::<DefaultPolicy, u32>::calculate_publisher_segment_size(0, 1024);
    // (0 + 1) * 1024 + 4096 = 5120
    assert_eq!(size, 5120);
}

// Session management tests

#[test]
fn test_allocate_port_id() {
    let mut server = create_test_server(MockListener::new(), 1000);

    let id1 = server.iam.allocate_port_id();
    let id2 = server.iam.allocate_port_id();
    let id3 = server.iam.allocate_port_id();

    assert_eq!(id1, 1);
    assert_eq!(id2, 2);
    assert_eq!(id3, 3);
}

// Segment management tests

#[test]
fn test_register_segment() {
    let mut server = create_test_server(MockListener::new(), 1000);

    let segment_id = server
        .iam
        .register_segment(7, 4096, AccessRights::read_write())
        .unwrap();

    assert_eq!(server.segment_count(), 1);
    assert!(server.iam.segments().has_segment(segment_id));
}

#[test]
fn test_server_is_send() {
    fn assert_send<T: Send>() {}
    assert_send::<IamServer<DefaultPolicy, u32>>();
}

// Push-based segment notification tests

#[test]
fn test_port_to_service_mapping_initialized_empty() {
    let server = create_test_server(MockListener::new(), 1000);
    assert_eq!(server.iam.producer_count(), 0);
}

#[test]
fn test_service_consumers_mapping_initialized_empty() {
    let server = create_test_server(MockListener::new(), 1000);
    assert_eq!(server.iam.consumer_count(), 0);
}

#[test]
fn test_producer_port_tracking_on_attach_publisher() {
    let (mut server, session_id) = server_with_session();
    let service_id = create_test_service_id("test/pub_tracking");

    let port_id = attach(&mut server, session_id, &service_id, PortType::Publisher);

    // Verify that the producer is known
    assert_eq!(server.iam.producer_count(), 1);
    assert_eq!(server.iam.service_of_port(port_id), Some(&service_id));
}

#[test]
fn test_consumer_tracking_on_attach_subscriber() {
    let (mut server, session_id) = server_with_session();
    let service_id = create_test_service_id("test/sub_tracking");

    let port_id = attach(&mut server, session_id, &service_id, PortType::Subscriber);

    // Verify that the consumer is known
    assert_ne!(server.iam.consumer_count(), 0);
    let consumers = server.iam.consumers_of(&service_id);
    assert_eq!(consumers.len(), 1);
    assert_eq!(consumers[0], (session_id, port_id));
}

#[test]
fn test_detach_cleans_up_producer_mapping() {
    let (mut server, session_id) = server_with_session();
    let service_id = create_test_service_id("test/detach_producer");

    let port_id = attach(&mut server, session_id, &service_id, PortType::Publisher);

    // Verify mapping exists
    assert!(server.iam.service_of_port(port_id).is_some());

    // Detach
    detach(&mut server, session_id, &service_id, port_id);

    // Verify mapping was removed
    assert!(server.iam.service_of_port(port_id).is_none());
}

#[test]
fn test_detach_reaps_producer_data_segments() {
    let (mut server, session_id) = server_with_session();
    let service_id = create_test_service_id("test/detach_reap_seg");
    let port_id = attach(&mut server, session_id, &service_id, PortType::Publisher);

    // Register two data segments for the producer port.
    let seg0 = register(&mut server, session_id, &service_id, port_id, 4096, 7);
    let seg1 = register(&mut server, session_id, &service_id, port_id, 8192, 8);
    assert_eq!(server.segment_count(), 2);
    assert!(server.iam.segments().has_segment(seg0));
    assert!(server.iam.segments().has_segment(seg1));

    // Detach must reap the producer's data segments.
    detach(&mut server, session_id, &service_id, port_id);

    assert_eq!(server.segment_count(), 0);
    assert!(!server.iam.segments().has_segment(seg0));
    assert!(!server.iam.segments().has_segment(seg1));
    assert!(server.iam.segments().get_segments_for_port(port_id).is_empty());
}

#[test]
fn test_session_removal_reaps_producer_data_segments() {
    let (mut server, session_id) = server_with_session();
    let service_id = create_test_service_id("test/session_reap_seg");
    let port_id = attach(&mut server, session_id, &service_id, PortType::Publisher);

    let seg = register(&mut server, session_id, &service_id, port_id, 4096, 7);
    assert_eq!(server.segment_count(), 1);
    assert!(server.iam.segments().has_segment(seg));

    server.iam.remove_session(session_id);

    assert_eq!(server.segment_count(), 0);
    assert!(!server.iam.segments().has_segment(seg));
    assert!(server.iam.segments().get_segments_for_port(port_id).is_empty());
}

#[test]
fn test_detach_cleans_up_consumer_mapping() {
    let (mut server, session_id) = server_with_session();
    let service_id = create_test_service_id("test/detach_consumer");

    let port_id = attach(&mut server, session_id, &service_id, PortType::Subscriber);

    // Verify mapping exists
    assert!(!server.iam.consumers_of(&service_id).is_empty());

    // Detach
    detach(&mut server, session_id, &service_id, port_id);

    // Verify mapping was cleaned up
    assert!(server.iam.consumers_of(&service_id).is_empty());
}

#[test]
fn test_session_removal_cleans_up_mappings() {
    let (mut server, session_id) = server_with_session();

    // Attach a publisher
    let service_id1 = create_test_service_id("test/session_rm_pub");
    let pub_port_id = attach(&mut server, session_id, &service_id1, PortType::Publisher);

    // Attach a subscriber
    let service_id2 = create_test_service_id("test/session_rm_sub");
    attach(&mut server, session_id, &service_id2, PortType::Subscriber);

    // Verify mappings exist
    assert!(server.iam.service_of_port(pub_port_id).is_some());
    assert!(!server.iam.consumers_of(&service_id2).is_empty());

    // Remove session
    server.iam.remove_session(session_id);

    // Verify all mappings were cleaned up
    assert!(server.iam.service_of_port(pub_port_id).is_none());
    assert!(server.iam.consumers_of(&service_id2).is_empty());
}

#[test]
fn test_broadcast_to_no_consumers_returns_zero() {
    let mut server = create_test_server(MockListener::new(), 1000);
    let service_id = create_test_service_id("test/no_consumers");
    let segment_id = SegmentId::new(0);

    // Broadcast with no consumers
    let notified = server
        .iam
        .broadcast_segment_to_consumers(&service_id, segment_id, 4096, Vec::new());

    assert_eq!(notified.len(), 0);
}

#[test]
fn test_server_tracking_on_attach_server_request_response() {
    let (mut server, session_id) = server_with_session();
    let service_id = create_test_service_id("test/server_tracking");

    attach(&mut server, session_id, &service_id, PortType::Server);

    // Server ports are producers
    assert_ne!(server.iam.producer_count(), 0);
}

#[test]
fn test_client_tracking_on_attach_client_request_response() {
    let (mut server, session_id) = server_with_session();
    let service_id = create_test_service_id("test/client_tracking");

    attach(&mut server, session_id, &service_id, PortType::Client);

    // Client ports are consumers
    assert_ne!(server.iam.consumer_count(), 0);
    assert!(!server.iam.consumers_of(&service_id).is_empty());
}

#[test]
fn test_detach_reaps_request_response_client_producer_resources() {
    let (mut server, session_id) = server_with_session();
    let service_id = create_test_service_id("test/client_reap");
    let client_port = attach(&mut server, session_id, &service_id, PortType::Client);
    // The peer server port the client's request channel is addressed to (client is SENDER).
    let server_port: u128 = 0x5E27E7;

    // Register the client's producer resources exactly as a client does.
    let request_seg = register(&mut server, session_id, &service_id, client_port, 4096, 7);
    let request = IamRequest::RegisterMgmtSegment {
        service_id: service_id.clone(),
        port_id: client_port,
        mgmt_size: 4096,
        handle_count: 1,
    };
    assert!(matches!(
        server.answer(session_id, request, vec![8]),
        Ok((IamResponse::RegisterMgmtSegmentOk, _))
    ));
    let request = IamRequest::RegisterChannel {
        service_id: service_id.clone(),
        sender_port_id: client_port,
        receiver_port_id: server_port,
        channel_size: 4096,
        handle_count: 1,
    };
    assert!(matches!(
        server.answer(session_id, request, vec![9]),
        Ok((IamResponse::RegisterChannelOk, _))
    ));

    // Baseline: all three producer resources are present for the client port.
    assert_eq!(server.segment_count(), 1);
    assert!(server.iam.segments().has_segment(request_seg));
    assert!(!server.iam.segments().get_segments_for_port(client_port).is_empty());
    assert_eq!(server.iam.segments().mgmt_segment_count(), 1);
    assert_eq!(server.iam.segments().channel_count(), 1);

    // Detaching the client port must reap ALL of its producer resources.
    detach(&mut server, session_id, &service_id, client_port);

    assert_eq!(server.segment_count(), 0);
    assert!(!server.iam.segments().has_segment(request_seg));
    assert!(server.iam.segments().get_segments_for_port(client_port).is_empty());
    assert_eq!(server.iam.segments().mgmt_segment_count(), 0);
    assert_eq!(server.iam.segments().channel_count(), 0);
}

#[test]
fn test_session_removal_reaps_request_response_server_consumer_channel() {
    let (mut server, session_id) = server_with_session();
    let service_id = create_test_service_id("test/server_reap");
    let server_port = attach(&mut server, session_id, &service_id, PortType::Server);
    // A remote client whose request channel targets this server (server is the RECEIVER).
    let client_port: u128 = 0xC11E27;

    // The request connection channel where the server is the consumer/receiver.
    let request = IamRequest::RegisterChannel {
        service_id: service_id.clone(),
        sender_port_id: client_port,
        receiver_port_id: server_port,
        channel_size: 4096,
        handle_count: 1,
    };
    assert!(server.answer(session_id, request, vec![9]).is_ok());
    assert_eq!(server.iam.segments().channel_count(), 1);

    // Session removal (server-as-producer branch) must ALSO reap the consumer-side channel.
    server.iam.remove_session(session_id);

    assert_eq!(server.iam.segments().channel_count(), 0);
}

#[test]
fn test_integration_handshake_success() {
    let listener = MockListener::new();

    // Create a channel pair
    let client_channel = listener.create_channel_pair(test_credentials());
    let shared = Rc::clone(&client_channel.shared);

    // Create server
    let mut server = create_test_server(listener, 1000);

    // Send Hello request through shared messages
    let node_id = UniqueSystemId::new(7);
    shared.push_request(&IamRequest::Hello {
        protocol_version: ProtocolVersion::current(),
        node_id,
    });

    // Server accepts connection and processes request
    server.process().unwrap(); // Accept connection
    server.process().unwrap(); // Process Hello request

    // Check response
    let responses = shared.get_responses();
    match &responses[0] {
        IamResponse::HelloOk {
            negotiated_version,
            session_id,
        } => {
            assert_eq!(*negotiated_version, ProtocolVersion::current());
            assert!(session_id.is_valid());
        }
        _ => panic!("Expected HelloOk response, got {:?}", responses[0]),
    }

    assert_eq!(server.session_count(), 1);
}

#[test]
fn test_integration_handshake_version_mismatch() {
    let listener = MockListener::new();
    let client_channel = listener.create_channel_pair(test_credentials());
    let mut server = create_test_server(listener, 1000);
    let node_id = UniqueSystemId::new(7);

    // Client sends Hello with incompatible version (major version mismatch)
    let request = IamRequest::Hello {
        protocol_version: ProtocolVersion::new(99, 0), // Invalid major version
        node_id,
    };

    // Get a reference to the shared messages before the client_channel is consumed
    let shared = Rc::clone(&client_channel.shared);
    shared.push_request(&request);

    // Server accepts and processes
    server.process().unwrap();
    server.process().unwrap();

    // Check response
    let responses = shared.get_responses();
    match &responses[0] {
        IamResponse::Denied { reason, .. } => {
            assert_eq!(*reason, DenialReason::VersionMismatch);
        }
        _ => panic!("Expected Denied response, got {:?}", responses[0]),
    }
}

#[test]
fn test_integration_unauthorized_operations_denied() {
    // Note: DefaultPolicy allows ALL connections but denies operations for mismatched UIDs.
    // This test verifies that operations are denied, not that connections are rejected.
    let listener = MockListener::new();
    let client_channel = listener.create_channel_pair(unauthorized_credentials());
    let shared = Rc::clone(&client_channel.shared);

    // Server with owner UID 1000, client has UID 2000
    let mut server = create_test_server(listener, 1000);

    // Complete handshake (connections always accepted)
    let node_id = UniqueSystemId::new(7);
    shared.push_request(&IamRequest::Hello {
        protocol_version: ProtocolVersion::current(),
        node_id,
    });

    server.process().unwrap(); // Accept connection
    server.process().unwrap(); // Process Hello

    // Verify handshake succeeded (connections always allowed)
    {
        let responses = shared.get_responses();
        assert!(matches!(responses[0], IamResponse::HelloOk { .. }));
    }
    shared.clear_responses();

    // Try to attach publisher - should be DENIED due to UID mismatch
    let service_id = create_test_service_id("test/unauthorized");
    shared.push_request(&IamRequest::AttachPublisher {
        service_id: service_id.clone(),
        history_size: 8,
        max_slice_len: 1024,
    });

    server.process().unwrap();

    let responses = shared.get_responses();
    match &responses[0] {
        IamResponse::Denied { reason, .. } => {
            assert_eq!(*reason, DenialReason::Unauthorized);
        }
        _ => panic!("Expected Denied response for unauthorized UID, got {:?}", responses[0]),
    }
}

#[test]
fn test_integration_attach_publisher_success() {
    let listener = MockListener::new();
    let client_channel = listener.create_channel_pair(test_credentials());
    let shared = Rc::clone(&client_channel.shared);
    let mut server = create_test_server(listener, 1000);

    // Complete handshake first
    let node_id = UniqueSystemId::new(7);
    shared.push_request(&IamRequest::Hello {
        protocol_version: ProtocolVersion::current(),
        node_id,
    });

    server.process().unwrap(); // Accept
    server.process().unwrap(); // Process Hello

    // Clear responses
    shared.clear_responses();

    // Send AttachPublisher request
    let service_id = create_test_service_id("test/publisher");
    shared.push_request(&IamRequest::AttachPublisher {
        service_id: service_id.clone(),
        history_size: 8,
        max_slice_len: 1024,
    });

    // Server processes
    server.process().unwrap();

    // Check response
    let responses = shared.get_responses();
    match &responses[0] {
        IamResponse::AttachOk { port_id, .. } => {
            assert!(*port_id > 0);
        }
        _ => panic!("Expected AttachOk response, got {:?}", responses[0]),
    }
}

#[test]
fn test_integration_attach_subscriber_success() {
    let listener = MockListener::new();
    let client_channel = listener.create_channel_pair(test_credentials());
    let shared = Rc::clone(&client_channel.shared);
    let mut server = create_test_server(listener, 1000);

    // Complete handshake
    let node_id = UniqueSystemId::new(7);
    shared.push_request(&IamRequest::Hello {
        protocol_version: ProtocolVersion::current(),
        node_id,
    });

    server.process().unwrap();
    server.process().unwrap();
    shared.clear_responses();

    // Send AttachSubscriber request
    let service_id = create_test_service_id("test/subscriber");
    shared.push_request(&IamRequest::AttachSubscriber {
        service_id: service_id.clone(),
        buffer_size: 16,
    });

    server.process().unwrap();

    let responses = shared.get_responses();
    match &responses[0] {
        IamResponse::AttachOk { port_id, .. } => {
            assert!(*port_id > 0);
        }
        _ => panic!("Expected AttachOk response, got {:?}", responses[0]),
    }
}

#[test]
fn test_integration_attach_server_port_success() {
    let listener = MockListener::new();
    let client_channel = listener.create_channel_pair(test_credentials());
    let shared = Rc::clone(&client_channel.shared);
    let mut server = create_test_server(listener, 1000);

    // Complete handshake
    let node_id = UniqueSystemId::new(7);
    shared.push_request(&IamRequest::Hello {
        protocol_version: ProtocolVersion::current(),
        node_id,
    });

    server.process().unwrap();
    server.process().unwrap();
    shared.clear_responses();

    // Send AttachServer request
    let service_id = create_test_service_id("test/server");
    shared.push_request(&IamRequest::AttachServer {
        service_id: service_id.clone(),
        max_active_requests: 10,
    });

    server.process().unwrap();

    let responses = shared.get_responses();
    assert!(matches!(responses[0], IamResponse::AttachOk { .. }));
}

#[test]
fn test_integration_attach_client_port_success() {
    let listener = MockListener::new();
    let client_channel = listener.create_channel_pair(test_credentials());
    let shared = Rc::clone(&client_channel.shared);
    let mut server = create_test_server(listener, 1000);

    // Complete handshake
    let node_id = UniqueSystemId::new(7);
    shared.push_request(&IamRequest::Hello {
        protocol_version: ProtocolVersion::current(),
        node_id,
    });

    server.process().unwrap();
    server.process().unwrap();
    shared.clear_responses();

    // Send AttachClient request
    let service_id = create_test_service_id("test/client");
    shared.push_request(&IamRequest::AttachClient {
        service_id: service_id.clone(),
        max_pending_responses: 5,
    });

    server.process().unwrap();

    let responses = shared.get_responses();
    assert!(matches!(responses[0], IamResponse::AttachOk { .. }));
}

#[test]
fn test_integration_attach_without_handshake_fails() {
    let listener = MockListener::new();
    let client_channel = listener.create_channel_pair(test_credentials());
    let shared = Rc::clone(&client_channel.shared);
    let mut server = create_test_server(listener, 1000);

    // Accept connection but don't complete handshake
    server.process().unwrap();

    // Send AttachPublisher without handshake
    let service_id = create_test_service_id("test/no-handshake");
    shared.push_request(&IamRequest::AttachPublisher {
        service_id: service_id.clone(),
        history_size: 8,
        max_slice_len: 1024,
    });

    server.process().unwrap();

    let responses = shared.get_responses();
    match &responses[0] {
        IamResponse::ProtocolError { message } => {
            assert!(message.contains("Handshake not complete"));
        }
        _ => panic!("Expected ProtocolError response, got {:?}", responses[0]),
    }
}

#[test]
fn test_integration_detach_success() {
    let listener = MockListener::new();
    let client_channel = listener.create_channel_pair(test_credentials());
    let shared = Rc::clone(&client_channel.shared);
    let mut server = create_test_server(listener, 1000);

    // Complete handshake
    let node_id = UniqueSystemId::new(7);
    shared.push_request(&IamRequest::Hello {
        protocol_version: ProtocolVersion::current(),
        node_id,
    });

    server.process().unwrap();
    server.process().unwrap();
    shared.clear_responses();

    // Attach a publisher first
    let service_id = create_test_service_id("test/detach");
    shared.push_request(&IamRequest::AttachPublisher {
        service_id: service_id.clone(),
        history_size: 8,
        max_slice_len: 1024,
    });

    server.process().unwrap();

    // Get the port ID from the response
    let port_id = {
        let responses = shared.get_responses();
        match &responses[0] {
            IamResponse::AttachOk { port_id, .. } => *port_id,
            _ => panic!("Expected AttachOk"),
        }
    };

    shared.clear_responses();

    // Now detach
    shared.push_request(&IamRequest::Detach { service_id: service_id.clone(), port_id });

    server.process().unwrap();

    let responses = shared.get_responses();
    assert!(matches!(responses[0], IamResponse::DetachOk));
}

#[test]
fn test_integration_unauthorized_attach_denied() {
    // Create a policy that allows connect but denies attach
    struct RestrictivePolicy {
        owner_uid: u32,
    }

    impl IamPolicy for RestrictivePolicy {
        fn authorize_create(
            &self,
            _credentials: &ProcessCredentials,
            _service_name: &ServiceName,
            _messaging_pattern: MessagingPatternKind,
        ) -> PolicyDecision {
            PolicyDecision::deny(DenialReason::Unauthorized, "Create not allowed")
        }

        fn authorize_attach(
            &self,
            credentials: &ProcessCredentials,
            _service_id: &ServiceId,
            _port_type: PortType,
        ) -> PolicyDecision {
            if credentials.uid() == self.owner_uid {
                PolicyDecision::deny(
                    DenialReason::PolicyViolation,
                    "Attach denied by test policy",
                )
            } else {
                PolicyDecision::deny(DenialReason::Unauthorized, "Unauthorized")
            }
        }

        fn authorize_add_segment(
            &self,
            _credentials: &ProcessCredentials,
            _service_id: &ServiceId,
            _requested_size: usize,
        ) -> PolicyDecision {
            PolicyDecision::deny(DenialReason::Unauthorized, "Segments not allowed")
        }

        fn get_limits(&self, _credentials: &ProcessCredentials) -> ResourceLimits {
            ResourceLimits::default()
        }

        fn authorize_connect(&self, _credentials: &ProcessCredentials) -> PolicyDecision {
            PolicyDecision::allow()
        }

        fn get_qos_bounds(&self, _credentials: &ProcessCredentials) -> QosBounds {
            QosBounds::unbounded()
        }
    }

    let listener = MockListener::new();
    let client_channel = listener.create_channel_pair(test_credentials());
    let shared = Rc::clone(&client_channel.shared);

    let policy = RestrictivePolicy { owner_uid: 1000 };
    let mut server = TestServer::new(listener, policy);

    // Complete handshake
    let node_id = UniqueSystemId::new(7);
    shared.push_request(&IamRequest::Hello {
        protocol_version: ProtocolVersion::current(),
        node_id,
    });

    server.process().unwrap();
    server.process().unwrap();
    shared.clear_responses();

    // Try to attach - should be denied
    let service_id = create_test_service_id("test/denied");
    shared.push_request(&IamRequest::AttachPublisher {
        service_id: service_id.clone(),
        history_size: 8,
        max_slice_len: 1024,
    });

    server.process().unwrap();

    let responses = shared.get_responses();
    match &responses[0] {
        IamResponse::Denied { reason, message } => {
            assert_eq!(*reason, DenialReason::PolicyViolation);
            assert!(message.contains("denied by test policy"));
        }
        _ => panic!("Expected Denied response, got {:?}", responses[0]),
    }
}

#[test]
fn test_integration_resource_limit_exceeded() {
    // Create a policy with very low limits
    let limits = ResourceLimits::new(
        1, // max_publishers = 1
        1, // max_subscribers
        1, // max_servers
        1, // max_clients
        1, // max_segments
        1024, // max_segment_size
    );
    let policy = DefaultPolicy::with_limits(1000, limits);

    let listener = MockListener::new();
    let client_channel = listener.create_channel_pair(test_credentials());
    let shared = Rc::clone(&client_channel.shared);
    let mut server = TestServer::new(listener, policy);

    // Complete handshake
    let node_id = UniqueSystemId::new(7);
    shared.push_request(&IamRequest::Hello {
        protocol_version: ProtocolVersion::current(),
        node_id,
    });

    server.process().unwrap();
    server.process().unwrap();
    shared.clear_responses();

    // Attach first publisher - should succeed
    let service_id = create_test_service_id("test/limits");
    shared.push_request(&IamRequest::AttachPublisher {
        service_id: service_id.clone(),
        history_size: 0,
        max_slice_len: 128,
    });

    server.process().unwrap();

    {
        let responses = shared.get_responses();
        assert!(matches!(responses[0], IamResponse::AttachOk { .. }));
    }
    shared.clear_responses();

    // Attach second publisher - should fail due to limit
    shared.push_request(&IamRequest::AttachPublisher {
        service_id: service_id.clone(),
        history_size: 0,
        max_slice_len: 128,
    });

    server.process().unwrap();

    let responses = shared.get_responses();
    match &responses[0] {
        IamResponse::Denied { reason, .. } => {
            assert_eq!(*reason, DenialReason::ResourceLimitExceeded);
        }
        _ => panic!("Expected Denied response, got {:?}", responses[0]),
    }
}

#[test]
fn test_integration_multiple_clients() {
    let listener = MockListener::new();

    // Create two channel pairs
    let client1_channel = listener.create_channel_pair(test_credentials());
    let client1_shared = Rc::clone(&client1_channel.shared);

    let client2_channel = listener.create_channel_pair(test_credentials());
    let client2_shared = Rc::clone(&client2_channel.shared);

    let mut server = create_test_server(listener, 1000);

    // Both clients send Hello
    let node_id1 = UniqueSystemId::new(7);
    let node_id2 = UniqueSystemId::new(7);

    client1_shared.push_request(&IamRequest::Hello {
        protocol_version: ProtocolVersion::current(),
        node_id: node_id1,
    });
    client2_shared.push_request(&IamRequest::Hello {
        protocol_version: ProtocolVersion::current(),
        node_id: node_id2,
    });

    // Server accepts and processes both connections
    server.process().unwrap(); // Accept client 1
    server.process().unwrap(); // Accept client 2
    server.process().unwrap(); // Process client 1 Hello
    server.process().unwrap(); // Process client 2 Hello

    assert_eq!(server.session_count(), 2);

    // Both clients should have received HelloOk with different session IDs
    let session_id1 = {
        let responses = client1_shared.get_responses();
        match &responses[0] {
            IamResponse::HelloOk { session_id, .. } => *session_id,
            _ => panic!("Expected HelloOk for client 1"),
        }
    };

    let session_id2 = {
        let responses = client2_shared.get_responses();
        match &responses[0] {
            IamResponse::HelloOk { session_id, .. } => *session_id,
            _ => panic!("Expected HelloOk for client 2"),
        }
    };

    assert_ne!(session_id1, session_id2);
}

#[test]
fn test_integration_session_tracking() {
    let listener = MockListener::new();
    let client_channel = listener.create_channel_pair(test_credentials());
    let shared = Rc::clone(&client_channel.shared);
    let mut server = create_test_server(listener, 1000);

    // Initial state
    assert_eq!(server.session_count(), 0);

    // Complete handshake
    let node_id = UniqueSystemId::new(7);
    shared.push_request(&IamRequest::Hello {
        protocol_version: ProtocolVersion::current(),
        node_id,
    });

    server.process().unwrap();
    assert_eq!(server.session_count(), 1);

    server.process().unwrap();
    assert_eq!(server.session_count(), 1);

    // Get session ID
    let session_id = {
        let responses = shared.get_responses();
        match &responses[0] {
            IamResponse::HelloOk { session_id, .. } => *session_id,
            _ => panic!("Expected HelloOk"),
        }
    };

    // Verify session has usage tracking
    let usage = server.get_session_usage(session_id);
    assert!(usage.is_some());
    assert_eq!(usage.unwrap().publisher_count, 0);
}

#[test]
fn test_integration_session_resource_usage_tracking() {
    let listener = MockListener::new();
    let client_channel = listener.create_channel_pair(test_credentials());
    let shared = Rc::clone(&client_channel.shared);
    let mut server = create_test_server(listener, 1000);

    // Complete handshake
    let node_id = UniqueSystemId::new(7);
    shared.push_request(&IamRequest::Hello {
        protocol_version: ProtocolVersion::current(),
        node_id,
    });

    server.process().unwrap();
    server.process().unwrap();

    let session_id = {
        let responses = shared.get_responses();
        match &responses[0] {
            IamResponse::HelloOk { session_id, .. } => *session_id,
            _ => panic!("Expected HelloOk"),
        }
    };

    shared.clear_responses();

    // Attach multiple ports
    let service_id = create_test_service_id("test/tracking");
    shared.push_request(&IamRequest::AttachPublisher {
        service_id: service_id.clone(),
        history_size: 0,
        max_slice_len: 128,
    });
    server.process().unwrap();

    // Check resource usage updated
    let usage = server.get_session_usage(session_id).unwrap();
    assert_eq!(usage.publisher_count, 1);
    assert_eq!(usage.subscriber_count, 0);

    shared.clear_responses();

    // Attach subscriber
    shared.push_request(&IamRequest::AttachSubscriber {
        service_id: service_id.clone(),
        buffer_size: 16,
    });
    server.process().unwrap();

    let usage = server.get_session_usage(session_id).unwrap();
    assert_eq!(usage.publisher_count, 1);
    assert_eq!(usage.subscriber_count, 1);
}

#[test]
fn test_integration_full_client_handshake() {
    let listener = MockListener::new();
    let client_channel = listener.create_channel_pair(test_credentials());
    let shared = Rc::clone(&client_channel.shared);
    let mut server = create_test_server(listener, 1000);

    // Create client
    let client = IamClient::new(client_channel);

    assert!(!client.is_active());
    assert!(client.is_connected());

    // Accept connection on server
    server.process().unwrap();

    // Send Hello through shared messages (simulating client.handshake())
    let node_id = UniqueSystemId::new(7);
    shared.push_request(&IamRequest::Hello {
        protocol_version: ProtocolVersion::current(),
        node_id,
    });

    // Server processes
    server.process().unwrap();

    // Check response
    let responses = shared.get_responses();
    match &responses[0] {
        IamResponse::HelloOk {
            negotiated_version,
            session_id,
        } => {
            assert_eq!(*negotiated_version, ProtocolVersion::current());
            assert!(session_id.is_valid());
        }
        _ => panic!("Expected HelloOk"),
    }
}

#[test]
fn test_integration_ack_retirement_without_pending() {
    let listener = MockListener::new();
    let client_channel = listener.create_channel_pair(test_credentials());
    let shared = Rc::clone(&client_channel.shared);
    let mut server = create_test_server(listener, 1000);

    // Complete handshake
    let node_id = UniqueSystemId::new(7);
    shared.push_request(&IamRequest::Hello {
        protocol_version: ProtocolVersion::current(),
        node_id,
    });

    server.process().unwrap();
    server.process().unwrap();
    shared.clear_responses();

    // Try to ack a retirement that doesn't exist
    let service_id = create_test_service_id("test/retirement");
    shared.push_request(&IamRequest::AckSegmentRetirement {
        service_id: service_id.clone(),
        segment_id: SegmentId::new(99),
    });

    server.process().unwrap();

    let responses = shared.get_responses();
    match &responses[0] {
        IamResponse::Denied { reason, .. } => {
            assert_eq!(*reason, DenialReason::Unauthorized);
        }
        _ => panic!("Expected Denied response, got {:?}", responses[0]),
    }
}

#[test]
fn test_integration_all_port_types() {
    let listener = MockListener::new();
    let client_channel = listener.create_channel_pair(test_credentials());
    let shared = Rc::clone(&client_channel.shared);
    let mut server = create_test_server(listener, 1000);

    // Complete handshake
    let node_id = UniqueSystemId::new(7);
    shared.push_request(&IamRequest::Hello {
        protocol_version: ProtocolVersion::current(),
        node_id,
    });

    server.process().unwrap();
    server.process().unwrap();

    let session_id = {
        let responses = shared.get_responses();
        match &responses[0] {
            IamResponse::HelloOk { session_id, .. } => *session_id,
            _ => panic!("Expected HelloOk"),
        }
    };

    shared.clear_responses();

    // Test all port types
    let service_id = create_test_service_id("test/all-ports");

    // Publisher
    shared.push_request(&IamRequest::AttachPublisher {
        service_id: service_id.clone(),
        history_size: 0,
        max_slice_len: 128,
    });
    server.process().unwrap();
    assert!(matches!(
        shared.get_responses()[0],
        IamResponse::AttachOk { .. }
    ));
    shared.clear_responses();

    // Subscriber
    shared.push_request(&IamRequest::AttachSubscriber {
        service_id: service_id.clone(),
        buffer_size: 16,
    });
    server.process().unwrap();
    assert!(matches!(
        shared.get_responses()[0],
        IamResponse::AttachOk { .. }
    ));
    shared.clear_responses();

    // Server port
    shared.push_request(&IamRequest::AttachServer {
        service_id: service_id.clone(),
        max_active_requests: 10,
    });
    server.process().unwrap();
    assert!(matches!(
        shared.get_responses()[0],
        IamResponse::AttachOk { .. }
    ));
    shared.clear_responses();

    // Client port
    shared.push_request(&IamRequest::AttachClient {
        service_id: service_id.clone(),
        max_pending_responses: 5,
    });
    server.process().unwrap();
    assert!(matches!(
        shared.get_responses()[0],
        IamResponse::AttachOk { .. }
    ));

    // Verify resource usage tracking
    let usage = server.get_session_usage(session_id).unwrap();
    assert_eq!(usage.publisher_count, 1);
    assert_eq!(usage.subscriber_count, 1);
    assert_eq!(usage.server_count, 1);
    assert_eq!(usage.client_count, 1);
}

// What the server promises beyond single requests

fn segment_request(service_id: &ServiceId, port_id: u128, requested_size: usize) -> IamRequest {
    IamRequest::AddSegment {
        service_id: service_id.clone(),
        port_id,
        requested_size,
        bucket_size: 128,
        bucket_align: 8,
    }
}

#[test]
fn a_server_without_a_factory_creates_no_segment() {
    let (mut server, session_id) = server_with_session();
    let service_id = create_test_service_id("test/segment");
    let port_id = attach(&mut server, session_id, &service_id, PortType::Publisher);
    match server.ask(session_id, segment_request(&service_id, port_id, 4096)) {
        IamResponse::Denied { reason, message } => {
            assert_eq!(reason, DenialReason::InvalidRequest);
            assert_eq!(message, "Segment creation not supported by this service");
        }
        other => panic!("Unexpected response: {:?}", other),
    }
    assert_eq!(server.segment_count(), 0);
}

#[test]
fn a_created_segment_is_handed_to_producer_and_consumer() {
    let (mut server, producer) = server_with_session();
    let consumer = join(&mut server, test_credentials());
    let service_id = create_test_service_id("test/segment");
    let port_id = attach(&mut server, producer, &service_id, PortType::Publisher);
    server.created = Ok((50, 8192));
    let (response, handles) = server
        .answer(producer, segment_request(&service_id, port_id, 4096), Vec::new())
        .unwrap();
    assert_eq!(handles, vec![50]);
    let segment_id = match response {
        IamResponse::AddSegmentOk { segment_id, size, handle_count } => {
            assert_eq!((size, handle_count), (8192, 1));
            segment_id
        }
        other => panic!("Unexpected response: {:?}", other),
    };
    let usage = server.get_session_usage(producer).unwrap();
    assert_eq!((usage.segment_count, usage.total_memory), (1, 8192));

    let request = IamRequest::RequestDynamicSegmentHandle {
        service_id,
        sender_port_id: port_id,
        segment_id: segment_id.value(),
    };
    let (response, handles) = server.answer(consumer, request, Vec::new()).unwrap();
    assert_eq!(handles, vec![2050]);
    match response {
        IamResponse::DynamicSegmentHandleOk { segment_info, handle_count } => {
            assert_eq!(segment_info.segment_id(), segment_id);
            assert_eq!(segment_info.size(), 8192);
            assert_eq!(handle_count, 1);
        }
        other => panic!("Unexpected response: {:?}", other),
    }
    assert!(server.iam.segments().is_session_authorized(segment_id, consumer));
}

#[test]
fn failures_to_create_a_segment_are_told_apart() {
    let (mut server, session_id) = server_with_session();
    let service_id = create_test_service_id("test/segment");
    server.created = Err(IamServerError::SegmentCreationFailed);
    match server.ask(session_id, segment_request(&service_id, 1, 4096)) {
        IamResponse::Denied { reason, message } => {
            assert_eq!(reason, DenialReason::InternalError);
            assert_eq!(message, "Failed to create segment");
        }
        other => panic!("Unexpected response: {:?}", other),
    }
    server.created = Err(IamServerError::InvalidConfiguration);
    assert_eq!(
        server
            .answer(session_id, segment_request(&service_id, 1, 4096), Vec::new())
            .unwrap_err(),
        IamServerError::InvalidConfiguration
    );
    server.created = Ok((50, 0));
    assert_eq!(
        server
            .answer(session_id, segment_request(&service_id, 1, 4096), Vec::new())
            .unwrap_err(),
        IamServerError::InvalidSegmentSize
    );
}

#[test]
fn a_handle_that_the_server_cannot_keep_is_a_failure() {
    let (mut server, session_id) = server_with_session();
    let service_id = create_test_service_id("test/segment");
    let outcome = server.iam.dispatch_request(session_id, segment_request(&service_id, 1, 64), Vec::new());
    match outcome.reply {
        Reply::CreateSegment { order } => {
            assert_eq!(order.requested_size, 64);
            let outcome = server.iam.complete_add_segment(order, Ok((50, 64)), None);
            assert!(matches!(
                outcome.reply,
                Reply::Failed { error: IamServerError::HandlePassingFailed }
            ));
        }
        other => panic!("Unexpected reply: {:?}", other),
    }
}

#[test]
fn registered_segments_are_brokered_read_only() {
    let (mut server, producer) = server_with_session();
    let consumer = join(&mut server, test_credentials());
    let service_id = create_test_service_id("test/broker");
    let port_id = attach(&mut server, producer, &service_id, PortType::Publisher);
    let segment_id = register(&mut server, producer, &service_id, port_id, 4096, 30);

    let request =
        IamRequest::RequestSegmentHandle { service_id: service_id.clone(), sender_port_id: port_id };
    let (response, handles) = server.answer(consumer, request, Vec::new()).unwrap();
    assert_eq!(handles, vec![1030]);
    match response {
        IamResponse::SegmentHandleOk { segment_info, .. } => {
            assert_eq!(segment_info.segment_id(), segment_id);
            assert!(!segment_info.access().can_write());
        }
        other => panic!("Unexpected response: {:?}", other),
    }

    let request = IamRequest::RequestSegmentHandle { service_id, sender_port_id: 999 };
    assert!(matches!(server.ask(consumer, request), IamResponse::SegmentHandleNotFound));
}

#[test]
fn dynamic_segments_are_brokered_by_index() {
    let (mut server, producer) = server_with_session();
    let service_id = create_test_service_id("test/dynamic");
    let port_id = attach(&mut server, producer, &service_id, PortType::Publisher);
    let request = IamRequest::RegisterDynamicSegment {
        service_id: service_id.clone(),
        port_id,
        segment_id: 0,
        segment_size: 512,
        handle_count: 1,
    };
    assert!(matches!(
        server.answer(producer, request, vec![40]),
        Ok((IamResponse::RegisterDynamicSegmentOk { segment_id: 0 }, _))
    ));
    let ask = |index: u8| IamRequest::RequestDynamicSegmentHandle {
        service_id: service_id.clone(),
        sender_port_id: port_id,
        segment_id: index,
    };
    let (response, handles) = server.answer(producer, ask(0), Vec::new()).unwrap();
    assert!(matches!(response, IamResponse::DynamicSegmentHandleOk { .. }));
    assert_eq!(handles, vec![1040]);
    assert!(matches!(server.ask(producer, ask(1)), IamResponse::DynamicSegmentPending));
}

#[test]
fn channels_and_management_segments_are_brokered() {
    let (mut server, session_id) = server_with_session();
    let service_id = create_test_service_id("test/channel");
    let request = IamRequest::RegisterChannel {
        service_id: service_id.clone(),
        sender_port_id: 1,
        receiver_port_id: 2,
        channel_size: 0,
        handle_count: 1,
    };
    assert!(server.answer(session_id, request, vec![60]).is_ok());
    let request = IamRequest::RegisterMgmtSegment {
        service_id: service_id.clone(),
        port_id: 1,
        mgmt_size: 64,
        handle_count: 1,
    };
    assert!(server.answer(session_id, request, vec![61]).is_ok());

    let request = IamRequest::RequestChannelHandle {
        service_id: service_id.clone(),
        sender_port_id: 1,
        receiver_port_id: 2,
    };
    let (response, handles) = server.answer(session_id, request, Vec::new()).unwrap();
    assert_eq!(handles, vec![1060]);
    match response {
        IamResponse::ChannelHandleOk { segment_info, .. } => {
            assert!(segment_info.access().can_write());
            assert_eq!(segment_info.size(), 1);
        }
        other => panic!("Unexpected response: {:?}", other),
    }
    let request =
        IamRequest::RequestMgmtSegmentHandle { service_id: service_id.clone(), port_id: 1 };
    let (response, handles) = server.answer(session_id, request, Vec::new()).unwrap();
    assert_eq!(handles, vec![1061]);
    match response {
        IamResponse::MgmtSegmentHandleOk { segment_info, .. } => {
            assert!(!segment_info.access().can_write());
        }
        other => panic!("Unexpected response: {:?}", other),
    }
    let request = IamRequest::RequestChannelHandle {
        service_id: service_id.clone(),
        sender_port_id: 2,
        receiver_port_id: 1,
    };
    assert!(matches!(server.ask(session_id, request), IamResponse::ChannelHandleNotFound));
    let request = IamRequest::RequestMgmtSegmentHandle { service_id, port_id: 2 };
    assert!(matches!(server.ask(session_id, request), IamResponse::MgmtSegmentHandleNotFound));
}

#[test]
fn a_registration_needs_a_handle() {
    let (mut server, session_id) = server_with_session();
    let service_id = create_test_service_id("test/handles");
    let registration = |handle_count: usize| IamRequest::RegisterSegment {
        service_id: service_id.clone(),
        port_id: 1,
        segment_size: 64,
        handle_count,
    };
    assert!(!matches!(
        server.ask(session_id, registration(0)),
        IamResponse::RegisterSegmentOk { .. }
    ));
    assert!(server.answer(session_id, registration(1), Vec::new()).is_err());
    assert_eq!(server.segment_count(), 0);
}

#[test]
fn nothing_is_done_before_the_handshake() {
    let mut server = create_test_server(MockListener::new(), 1000);
    server.listener.create_channel_pair(test_credentials());
    server.accept();
    let session_id = server.connections[0].0;
    let service_id = create_test_service_id("test/early");
    for request in [
        segment_request(&service_id, 1, 64),
        IamRequest::Detach { service_id: service_id.clone(), port_id: 1 },
        IamRequest::RequestSegmentHandle { service_id: service_id.clone(), sender_port_id: 1 },
        IamRequest::CreateService {
            service_name: ServiceName::new("early"),
            messaging_pattern: MessagingPatternKind::Event,
        },
    ] {
        match server.ask(session_id, request) {
            IamResponse::ProtocolError { message } => assert_eq!(message, "Handshake not complete"),
            other => panic!("Unexpected response: {:?}", other),
        }
    }
    assert_eq!(server.segment_count(), 0);
}

#[test]
fn a_session_that_is_not_there_is_refused() {
    let mut server = create_test_server(MockListener::new(), 1000);
    assert_eq!(
        server.answer(SessionId::from_value(5), hello(), Vec::new()).unwrap_err(),
        IamServerError::SessionNotFound
    );
}

#[test]
fn a_failed_turn_removes_the_session() {
    let (mut server, session_id) = server_with_session();
    attach(&mut server, session_id, &create_test_service_id("s"), PortType::Publisher);
    assert_eq!(server.iam.settle_turn(session_id, Ok(3)), 3);
    assert_eq!(server.session_count(), 1);
    assert_eq!(server.iam.settle_turn(session_id, Err(IamServerError::ReceiveFailed)), 0);
    assert_eq!(server.session_count(), 0);
    assert_eq!(server.iam.producer_count(), 0);
}

#[test]
fn consumers_are_told_of_new_segments() {
    let (mut server, producer) = server_with_session();
    let consumer = join(&mut server, test_credentials());
    let gone = join(&mut server, test_credentials());
    let service_id = create_test_service_id("test/push");
    let port_id = attach(&mut server, producer, &service_id, PortType::Publisher);
    attach(&mut server, consumer, &service_id, PortType::Subscriber);
    attach(&mut server, gone, &service_id, PortType::Subscriber);
    let segment_id = register(&mut server, producer, &service_id, port_id, 4096, 30);

    assert_eq!(server.iam.consumers_of(&service_id).len(), 2);
    let notices = server.iam.broadcast_segment_to_consumers(
        &service_id,
        segment_id,
        4096,
        vec![(Some(71), Some(72)), (Some(73), None)],
    );
    assert_eq!(notices.len(), 1);
    assert_eq!(notices[0].session_id, consumer);
    assert_eq!(notices[0].handle, 71);
    assert_eq!(
        notices[0].notification,
        IamNotification::SegmentUpdate { segment_id, size: 4096, handle_count: 1 }
    );
    assert!(server.iam.segments().is_session_authorized(segment_id, consumer));
    assert!(!server.iam.segments().is_session_authorized(segment_id, gone));
    assert!(server.iam.session(consumer).unwrap().has_segment(segment_id));
    assert!(!server.iam.session(gone).unwrap().has_segment(segment_id));
    assert_eq!(counted(&server, consumer), (1, 4096));
    assert_eq!(counted(&server, gone), (0, 0));
}

#[test]
fn access_can_be_granted_and_segments_retired() {
    let (mut server, session_id) = server_with_session();
    let segment_id =
        server.iam.register_segment(7, 100, AccessRights::read_write()).unwrap();
    assert_eq!(server.iam.authorize_segment_access(segment_id, session_id, Some(8)), Ok(8));
    assert_eq!(
        server.iam.authorize_segment_access(segment_id, SessionId::from_value(99), Some(8)),
        Err(IamServerError::SessionNotFound)
    );
    assert_eq!(server.get_session_usage(session_id).unwrap().total_memory, 100);
    assert!(server.iam.session(session_id).unwrap().has_segment(segment_id));
    assert_eq!(server.iam.begin_segment_retirement(segment_id), Some(vec![session_id]));
    assert_eq!(server.iam.begin_segment_retirement(SegmentId::new(9)), None);
    assert!(server.iam.segments().is_retiring(segment_id));
    assert_eq!(
        server.iam.known_sessions(&vec![session_id, SessionId::from_value(99)]),
        vec![session_id]
    );
}

#[test]
fn rulings_are_audited() {
    let (mut server, session_id) = server_with_session();
    let service_id = create_test_service_id("test/audit");
    let port_id = attach(&mut server, session_id, &service_id, PortType::Subscriber);
    detach(&mut server, session_id, &service_id, port_id);
    let kinds: Vec<String> = server.audited.iter().map(|record| record.kind.to_text()).collect();
    assert_eq!(kinds[0], "connect");
    assert_eq!(kinds[1], format!("attach:Subscriber:{}", port_id));
    assert_eq!(kinds[2], format!("detach:{}", port_id));
    assert!(server.audited.iter().all(|record| record.decision.is_allowed()));

    let record = AuditRecord {
        kind: AuditEventKind::Connect,
        credentials: test_credentials(),
        decision: PolicyDecision::allow(),
    };
    let named: IamServer<DefaultPolicy, u32> =
        IamServerBuilder::new(DefaultPolicy::with_owner(1)).service_name("named").build();
    let event = named.audit_event(record, None);
    assert_eq!(event.service_name, "named");
    assert_eq!(named.policy().owner_uid(), 1);
}

#[test]
fn segment_limits_are_enforced() {
    let limits = ResourceLimits::new(9, 9, 9, 9, 1, 1024);
    let mut server =
        TestServer::new(MockListener::new(), DefaultPolicy::with_limits(1000, limits));
    let session_id = join(&mut server, test_credentials());
    let service_id = create_test_service_id("test/limit");
    register(&mut server, session_id, &service_id, 1, 64, 7);
    server.created = Ok((50, 64));
    match server.ask(session_id, segment_request(&service_id, 1, 64)) {
        IamResponse::Denied { reason, .. } => {
            assert_eq!(reason, DenialReason::ResourceLimitExceeded);
        }
        other => panic!("Unexpected response: {:?}", other),
    }
    assert_eq!(server.segment_count(), 1);
}

#[test]
fn creating_a_service_is_judged_by_the_policy() {
    let (mut server, session_id) = server_with_session();
    let request = IamRequest::CreateService {
        service_name: ServiceName::new("new"),
        messaging_pattern: MessagingPatternKind::PublishSubscribe,
    };
    match server.ask(session_id, request.clone()) {
        IamResponse::ProtocolError { message } => {
            assert_eq!(message, "Service creation not yet implemented");
        }
        other => panic!("Unexpected response: {:?}", other),
    }
    let other = join(&mut server, unauthorized_credentials());
    match server.ask(other, request) {
        IamResponse::Denied { reason, .. } => assert_eq!(reason, DenialReason::Unauthorized),
        other => panic!("Unexpected response: {:?}", other),
    }
}

#[test]
fn segment_sizes_saturate() {
    assert_eq!(
        IamServer::<DefaultPolicy, u32>::calculate_publisher_segment_size(1, usize::MAX),
        usize::MAX
    );
}

#[test]
fn consumers_are_told_of_created_segments() {
    let (mut server, producer) = server_with_session();
    let consumer = join(&mut server, test_credentials());
    let service_id = create_test_service_id("test/announce");
    let port_id = attach(&mut server, producer, &service_id, PortType::Publisher);
    attach(&mut server, consumer, &service_id, PortType::Subscriber);
    server.created = Ok((50, 8192));
    match server.ask(producer, segment_request(&service_id, port_id, 4096)) {
        IamResponse::AddSegmentOk { segment_id, .. } => {
            assert_eq!(server.notices.len(), 1);
            assert_eq!(server.notices[0].session_id, consumer);
            assert_eq!(server.notices[0].handle, 150);
            assert_eq!(
                server.notices[0].notification,
                IamNotification::SegmentUpdate { segment_id, size: 8192, handle_count: 1 }
            );
            assert!(server.iam.segments().is_session_authorized(segment_id, consumer));
        }
        other => panic!("Unexpected response: {:?}", other),
    }
}

#[test]
fn a_segment_that_cannot_be_announced_is_still_handed_out() {
    let (mut server, producer) = server_with_session();
    let service_id = create_test_service_id("test/announce");
    let port_id = attach(&mut server, producer, &service_id, PortType::Publisher);
    let request = segment_request(&service_id, port_id, 64);
    let (_, step) = server.iam.begin_turn(producer, Ok(Some(request)), Vec::new());
    let Step::CreateSegment { order } = step else { panic!("expected an order") };
    let step = server.iam.segment_created(order, Ok((50, 64)), Some(51));
    let Step::Announce { announcement } = step else { panic!("expected an announcement") };
    assert_eq!(announcement.service_id, service_id);
    let (notices, step) = server.iam.handles_copied(announcement, None);
    assert!(notices.is_empty());
    let Step::Respond { response, handles } = step else { panic!("expected a response") };
    assert!(matches!(response, IamResponse::AddSegmentOk { .. }));
    assert_eq!(handles, vec![50]);
}

#[test]
fn a_turn_counts_the_request_that_was_answered() {
    let (mut server, session_id) = server_with_session();
    let (_, step) = server.iam.begin_turn(session_id, Ok(None), Vec::new());
    assert!(matches!(step, Step::Done { turn: Ok(0) }));
    let (_, step) = server.iam.begin_turn(session_id, Err(IamServerError::ReceiveFailed), Vec::new());
    assert!(matches!(step, Step::Done { turn: Err(IamServerError::ReceiveFailed) }));
    let (_, step) = server.iam.begin_turn(SessionId::from_value(99), Ok(None), Vec::new());
    assert!(matches!(step, Step::Done { turn: Err(IamServerError::SessionNotFound) }));

    assert!(matches!(response_sent(Ok(()), Vec::<u32>::new()), Step::Done { turn: Ok(1) }));
    assert!(matches!(response_sent(Ok(()), vec![4u32]), Step::PassHandles { .. }));
    assert!(matches!(
        response_sent(Err(IamServerError::SendFailed), vec![4u32]),
        Step::Done { turn: Err(IamServerError::SendFailed) }
    ));
    assert_eq!(handles_sent(Ok(())), Ok(1));
    assert_eq!(
        handles_sent(Err(IamServerError::HandlePassingFailed)),
        Err(IamServerError::HandlePassingFailed)
    );
}

#[test]
fn handles_that_do_not_arrive_end_the_turn() {
    let (mut server, session_id) = server_with_session();
    let request = IamRequest::RegisterSegment {
        service_id: create_test_service_id("test/handles"),
        port_id: 1,
        segment_size: 64,
        handle_count: 1,
    };
    let (audit, step) = server.iam.begin_turn(session_id, Ok(Some(request)), Vec::new());
    assert!(audit.is_some());
    let Step::ReceiveHandles { order } = step else { panic!("expected handles") };
    let step = server.iam.handles_received(order, Err(IamServerError::HandlePassingFailed));
    assert!(matches!(step, Step::Done { turn: Err(IamServerError::HandlePassingFailed) }));
    assert_eq!(server.segment_count(), 0);
}

fn ack(
    server: &mut TestServer<DefaultPolicy>,
    session_id: SessionId,
    segment_id: SegmentId,
) -> IamResponse {
    let service_id = create_test_service_id("test/retire");
    server.ask(session_id, IamRequest::AckSegmentRetirement { service_id, segment_id })
}

#[test]
fn a_segment_goes_with_the_last_acknowledgment() {
    let (mut server, first) = server_with_session();
    let second = join(&mut server, test_credentials());
    let stranger = join(&mut server, test_credentials());
    let segment_id = server.iam.register_segment(7, 100, AccessRights::read_only()).unwrap();
    server.iam.authorize_segment_access(segment_id, first, Some(8)).unwrap();
    server.iam.authorize_segment_access(segment_id, second, Some(9)).unwrap();
    assert!(matches!(ack(&mut server, first, segment_id), IamResponse::Denied { .. }));

    assert_eq!(server.iam.begin_segment_retirement(segment_id).unwrap().len(), 2);
    assert!(server.iam.session(first).unwrap().has_pending_retirement(segment_id));
    assert!(!server.iam.session(stranger).unwrap().has_pending_retirement(segment_id));
    assert!(matches!(
        ack(&mut server, stranger, segment_id),
        IamResponse::Denied { reason: DenialReason::Unauthorized, .. }
    ));
    assert!(matches!(ack(&mut server, second, segment_id), IamResponse::AckOk));
    assert!(matches!(ack(&mut server, second, segment_id), IamResponse::Denied { .. }));
    assert!(server.iam.segments().has_segment(segment_id));
    assert_eq!(server.iam.begin_segment_retirement(segment_id), Some(vec![first]));
    assert_eq!(counted(&server, first), (1, 100));
    assert_eq!(counted(&server, second), (1, 100));
    assert!(matches!(ack(&mut server, first, segment_id), IamResponse::AckOk));
    assert!(!server.iam.segments().has_segment(segment_id));

    // With the segment goes what it counted for.
    for session_id in [first, second] {
        assert_eq!(counted(&server, session_id), (0, 0));
        assert!(!server.iam.session(session_id).unwrap().has_segment(segment_id));
    }
}

#[test]
fn sessions_do_not_touch_each_other() {
    let (mut server, first) = server_with_session();
    let second = join(&mut server, test_credentials());
    let service_id = create_test_service_id("test/isolated");
    let kept = attach(&mut server, first, &service_id, PortType::Publisher);
    let segment_id = register(&mut server, first, &service_id, kept, 4096, 5);
    assert!(server.iam.can_allocate_port_id());
    let port_id = attach(&mut server, second, &service_id, PortType::Publisher);
    register(&mut server, second, &service_id, port_id, 4096, 6);
    assert_ne!(kept, port_id);

    let usage = *server.get_session_usage(first).unwrap();
    server.iam.settle_turn(second, Err(IamServerError::ReceiveFailed));
    assert_eq!(*server.get_session_usage(first).unwrap(), usage);
    assert_eq!(server.segment_count(), 1);
    assert!(server.iam.segments().has_segment(segment_id));
    assert_eq!(server.iam.producer_count(), 1);
    assert!(server.iam.service_of_port(kept).is_some());
    assert!(server.iam.service_of_port(port_id).is_none());
}

#[test]
fn the_policy_can_be_replaced() {
    let (mut server, session_id) = server_with_session();
    *server.iam.policy_mut() = DefaultPolicy::with_owner(2000);
    assert_eq!(server.iam.policy().owner_uid(), 2000);
    let request = IamRequest::AttachPublisher {
        service_id: create_test_service_id("test/replaced"),
        history_size: 1,
        max_slice_len: 1,
    };
    assert!(matches!(server.ask(session_id, request), IamResponse::Denied { .. }));
    assert_eq!(server.session_count(), 1);
}

/// What a session counts: segments and memory.
fn counted<P: IamPolicy>(server: &TestServer<P>, session_id: SessionId) -> (usize, usize) {
    let usage = server.get_session_usage(session_id).unwrap();
    (usage.segment_count, usage.total_memory)
}

/// A server whose policy bounds the Quality of Service.
fn bounded_server(bounds: QosBounds) -> (TestServer<ConfiguredPolicy>, SessionId) {
    let rule = AllowRule {
        principal: PrincipalMatcher::Uid { uid: 1000 },
        roles: vec![String::from("publisher"), String::from("subscriber"), String::from("server")],
    };
    let policy = ConfiguredPolicy::with_qos_bounds(
        1000,
        vec![rule],
        Vec::new(),
        ResourceLimits::default(),
        bounds,
    );
    let mut server = TestServer::new(MockListener::new(), policy);
    let session_id = join(&mut server, test_credentials());
    (server, session_id)
}

#[test]
fn buffers_are_bounded_by_the_policy() {
    let (mut server, session_id) = bounded_server(QosBounds::new(Some(512), Some(4)));
    let service_id = create_test_service_id("test/bounds");
    let subscriber =
        |buffer_size| IamRequest::AttachSubscriber { service_id: service_id.clone(), buffer_size };
    match server.ask(session_id, subscriber(513)) {
        IamResponse::Denied { reason, message } => {
            assert_eq!(reason, DenialReason::IncompatibleQos);
            assert_eq!(message, "Requested buffer size exceeds the QoS bounds");
        }
        other => panic!("Unexpected response: {:?}", other),
    }
    assert_eq!(server.get_session_usage(session_id).unwrap().subscriber_count, 0);
    assert_eq!(server.iam.consumer_count(), 0);
    let record = server.audited.last().unwrap();
    assert_eq!(record.kind.to_text(), "attach:Subscriber:0");

    assert!(matches!(server.ask(session_id, subscriber(512)), IamResponse::AttachOk { .. }));
    assert_eq!(server.get_session_usage(session_id).unwrap().subscriber_count, 1);
}

#[test]
fn histories_are_bounded_by_the_policy() {
    let (mut server, session_id) = bounded_server(QosBounds::new(Some(1), Some(4)));
    let service_id = create_test_service_id("test/bounds");
    let publisher = |history_size| IamRequest::AttachPublisher {
        service_id: service_id.clone(),
        history_size,
        max_slice_len: 64,
    };
    match server.ask(session_id, publisher(5)) {
        IamResponse::Denied { reason, message } => {
            assert_eq!(reason, DenialReason::IncompatibleQos);
            assert_eq!(message, "Requested history size exceeds the QoS bounds");
        }
        other => panic!("Unexpected response: {:?}", other),
    }
    assert_eq!(server.get_session_usage(session_id).unwrap().publisher_count, 0);
    assert!(matches!(server.ask(session_id, publisher(4)), IamResponse::AttachOk { .. }));
    // A server asks for neither.
    let request = attach_request(&service_id, PortType::Server);
    assert!(matches!(server.ask(session_id, request), IamResponse::AttachOk { .. }));
}

#[test]
fn subscribers_get_the_handles_of_their_segments() {
    let (mut server, producer) = server_with_session();
    let consumer = join(&mut server, test_credentials());
    let service_id = create_test_service_id("test/late");
    let port_id = attach(&mut server, producer, &service_id, PortType::Publisher);
    for handle in [30, 31, 32] {
        let segment_id = register(&mut server, producer, &service_id, port_id, 4096, handle);
        server.iam.authorize_segment_access(segment_id, consumer, Some(handle)).unwrap();
    }
    let known = server.iam.segments().get_session_segments(consumer);
    assert_eq!(known.len(), 3);

    let request = attach_request(&service_id, PortType::Subscriber);
    let (response, handles) = server.answer(consumer, request, Vec::new()).unwrap();
    assert_eq!(handles, vec![1030, 1031, 1032]);
    match response {
        IamResponse::AttachOk { segment_info, handle_count, .. } => {
            assert_eq!(segment_info, known);
            assert_eq!(handle_count, 3);
        }
        other => panic!("Unexpected response: {:?}", other),
    }
    // A publisher is offered none.
    let request = attach_request(&service_id, PortType::Publisher);
    let (response, handles) = server.answer(consumer, request, Vec::new()).unwrap();
    assert!(matches!(response, IamResponse::AttachOk { handle_count: 0, .. }));
    assert!(handles.is_empty());
}

#[test]
fn segments_without_a_duplicate_are_not_offered() {
    let (mut server, consumer) = server_with_session();
    let service_id = create_test_service_id("test/late");
    let mut ids = Vec::new();
    for handle in [30, 31] {
        let id = server.iam.register_segment(handle, 64, AccessRights::read_only()).unwrap();
        server.iam.authorize_segment_access(id, consumer, Some(handle)).unwrap();
        ids.push(id);
    }
    let request = attach_request(&service_id, PortType::Subscriber);
    let (_, step) = server.iam.begin_turn(consumer, Ok(Some(request)), vec![None, Some(7)]);
    let Step::Respond { response, handles } = step else { panic!("expected a response") };
    assert_eq!(handles, vec![7]);
    match response {
        IamResponse::AttachOk { segment_info, handle_count, .. } => {
            assert_eq!(segment_info.len(), 1);
            assert_eq!(segment_info[0].segment_id(), ids[1]);
            assert_eq!(handle_count, 1);
        }
        other => panic!("Unexpected response: {:?}", other),
    }
}

#[test]
fn a_subscriber_gets_no_more_handles_than_a_message_can_pass() {
    let (mut server, consumer) = server_with_session();
    let service_id = create_test_service_id("test/many");
    for handle in 0..70 {
        let id = server.iam.register_segment(handle, 64, AccessRights::read_only()).unwrap();
        server.iam.authorize_segment_access(id, consumer, Some(handle)).unwrap();
    }
    let request = attach_request(&service_id, PortType::Subscriber);
    assert_eq!(server.iam.wanted_handles(consumer, &request).len(), MAX_HANDLES_PER_MESSAGE);
    let (response, handles) = server.answer(consumer, request, Vec::new()).unwrap();
    assert_eq!(handles.len(), MAX_HANDLES_PER_MESSAGE);
    match response {
        IamResponse::AttachOk { segment_info, handle_count, .. } => {
            assert_eq!(segment_info.len(), MAX_HANDLES_PER_MESSAGE);
            assert_eq!(handle_count, MAX_HANDLES_PER_MESSAGE);
        }
        other => panic!("Unexpected response: {:?}", other),
    }
}

#[test]
fn detaching_gives_back_what_was_registered() {
    let (mut server, session_id) = server_with_session();
    let service_id = create_test_service_id("test/refund");
    let kept = attach(&mut server, session_id, &service_id, PortType::Publisher);
    register(&mut server, session_id, &service_id, kept, 100, 6);
    let port_id = attach(&mut server, session_id, &service_id, PortType::Publisher);
    let before = *server.get_session_usage(session_id).unwrap();

    register(&mut server, session_id, &service_id, port_id, 4096, 7);
    let request = IamRequest::RegisterDynamicSegment {
        service_id: service_id.clone(),
        port_id,
        segment_id: 3,
        segment_size: 512,
        handle_count: 1,
    };
    assert!(server.answer(session_id, request, vec![8]).is_ok());
    // A management segment and a channel that are registered twice count once.
    for _ in 0..2 {
        let request = IamRequest::RegisterMgmtSegment {
            service_id: service_id.clone(),
            port_id,
            mgmt_size: 32,
            handle_count: 1,
        };
        assert!(server.answer(session_id, request, vec![9]).is_ok());
        let request = IamRequest::RegisterChannel {
            service_id: service_id.clone(),
            sender_port_id: 77,
            receiver_port_id: port_id,
            channel_size: 16,
            handle_count: 1,
        };
        assert!(server.answer(session_id, request, vec![10]).is_ok());
    }
    server.created = Ok((50, 8192));
    let request = segment_request(&service_id, port_id, 8192);
    assert!(matches!(server.ask(session_id, request), IamResponse::AddSegmentOk { .. }));
    assert_eq!(counted(&server, session_id), (6, 100 + 4096 + 512 + 32 + 16 + 8192));

    detach(&mut server, session_id, &service_id, port_id);
    let after = server.get_session_usage(session_id).unwrap();
    assert_eq!(after.segment_count, before.segment_count);
    assert_eq!(after.total_memory, before.total_memory);
    assert_eq!(after.publisher_count, before.publisher_count - 1);
    assert_eq!(counted(&server, session_id), (1, 100));
}

#[test]
fn room_that_was_given_back_can_be_used_again() {
    let limits = ResourceLimits::new(9, 9, 9, 9, 1, 1024);
    let mut server =
        TestServer::new(MockListener::new(), DefaultPolicy::with_limits(1000, limits));
    let session_id = join(&mut server, test_credentials());
    let service_id = create_test_service_id("test/again");
    for handle in 0..5 {
        let port_id = attach(&mut server, session_id, &service_id, PortType::Publisher);
        register(&mut server, session_id, &service_id, port_id, 64, handle);
        detach(&mut server, session_id, &service_id, port_id);
    }
    assert_eq!(counted(&server, session_id), (0, 0));
}

#[test]
fn granted_segments_are_tracked_and_given_back() {
    let (mut server, producer) = server_with_session();
    let consumer = join(&mut server, test_credentials());
    let service_id = create_test_service_id("test/granted");
    let port_id = attach(&mut server, producer, &service_id, PortType::Publisher);
    let first = register(&mut server, producer, &service_id, port_id, 4096, 7);
    let request = IamRequest::RegisterDynamicSegment {
        service_id: service_id.clone(),
        port_id,
        segment_id: 1,
        segment_size: 512,
        handle_count: 1,
    };
    assert!(server.answer(producer, request, vec![8]).is_ok());

    // Asking twice counts once.
    for _ in 0..2 {
        let request = IamRequest::RequestSegmentHandle {
            service_id: service_id.clone(),
            sender_port_id: port_id,
        };
        assert!(matches!(server.ask(consumer, request), IamResponse::SegmentHandleOk { .. }));
    }
    assert!(server.iam.session(consumer).unwrap().has_segment(first));
    assert_eq!(counted(&server, consumer), (1, 4096));
    let request = IamRequest::RequestDynamicSegmentHandle {
        service_id: service_id.clone(),
        sender_port_id: port_id,
        segment_id: 1,
    };
    assert!(matches!(server.ask(consumer, request), IamResponse::DynamicSegmentHandleOk { .. }));
    assert_eq!(counted(&server, consumer), (2, 4608));

    // Once the producer is gone there is nothing left that could count.
    server.iam.remove_session(producer);
    assert_eq!(counted(&server, consumer), (0, 0));
    assert!(!server.iam.session(consumer).unwrap().has_segment(first));
}

#[test]
fn announced_segments_are_tracked_by_their_consumers() {
    let (mut server, producer) = server_with_session();
    let consumer = join(&mut server, test_credentials());
    let service_id = create_test_service_id("test/tracked");
    let port_id = attach(&mut server, producer, &service_id, PortType::Publisher);
    attach(&mut server, consumer, &service_id, PortType::Subscriber);
    attach(&mut server, consumer, &service_id, PortType::Subscriber);
    server.created = Ok((50, 8192));
    let response = server.ask(producer, segment_request(&service_id, port_id, 4096));
    let IamResponse::AddSegmentOk { segment_id, .. } = response else { panic!("expected a segment") };
    assert_eq!(server.notices.len(), 2);
    assert!(server.iam.session(consumer).unwrap().has_segment(segment_id));
    assert!(server.iam.can_grant(consumer, segment_id));
    assert_eq!(counted(&server, consumer), (1, 8192));
    detach(&mut server, producer, &service_id, port_id);
    assert_eq!(counted(&server, consumer), (0, 0));
    assert_eq!(counted(&server, producer), (0, 0));
}

/// A server with one session that publishes and subscribes at once, and the port that publishes.
fn server_with_loopback(service_id: &ServiceId) -> (TestServer<DefaultPolicy>, SessionId, u128) {
    let (mut server, session_id) = server_with_session();
    let port_id = attach(&mut server, session_id, service_id, PortType::Publisher);
    attach(&mut server, session_id, service_id, PortType::Subscriber);
    (server, session_id, port_id)
}

#[test]
fn a_segment_that_is_announced_to_its_own_session_counts_once() {
    let service_id = create_test_service_id("test/loopback");
    let (mut server, session_id, port_id) = server_with_loopback(&service_id);
    server.created = Ok((50, 8192));
    let response = server.ask(session_id, segment_request(&service_id, port_id, 4096));
    let IamResponse::AddSegmentOk { segment_id, .. } = response else {
        panic!("expected a segment")
    };
    assert_eq!(server.notices.len(), 1);
    assert_eq!(server.notices[0].session_id, session_id);
    assert!(server.iam.session(session_id).unwrap().has_segment(segment_id));
    assert!(server.iam.segments().is_session_authorized(segment_id, session_id));
    assert_eq!(counted(&server, session_id), (1, 8192));

    detach(&mut server, session_id, &service_id, port_id);
    assert!(!server.iam.session(session_id).unwrap().has_segment(segment_id));
    assert_eq!(counted(&server, session_id), (0, 0));
}

#[test]
fn a_session_that_asks_for_its_own_segment_counts_it_once() {
    let service_id = create_test_service_id("test/own");
    let (mut server, session_id, port_id) = server_with_loopback(&service_id);
    let first = register(&mut server, session_id, &service_id, port_id, 4096, 7);
    let request = IamRequest::RegisterDynamicSegment {
        service_id: service_id.clone(),
        port_id,
        segment_id: 1,
        segment_size: 512,
        handle_count: 1,
    };
    assert!(server.answer(session_id, request, vec![8]).is_ok());
    assert_eq!(counted(&server, session_id), (2, 4608));
    assert!(!server.iam.session(session_id).unwrap().has_segment(first));

    let request = IamRequest::RequestSegmentHandle {
        service_id: service_id.clone(),
        sender_port_id: port_id,
    };
    assert!(matches!(server.ask(session_id, request), IamResponse::SegmentHandleOk { .. }));
    let request = IamRequest::RequestDynamicSegmentHandle {
        service_id: service_id.clone(),
        sender_port_id: port_id,
        segment_id: 1,
    };
    assert!(matches!(server.ask(session_id, request), IamResponse::DynamicSegmentHandleOk { .. }));
    assert!(server.iam.session(session_id).unwrap().has_segment(first));
    assert_eq!(counted(&server, session_id), (2, 4608));

    detach(&mut server, session_id, &service_id, port_id);
    assert_eq!(counted(&server, session_id), (0, 0));
    assert!(!server.iam.session(session_id).unwrap().has_segment(first));
}

#[test]
fn access_to_an_own_segment_counts_it_once() {
    let service_id = create_test_service_id("test/own_access");
    let (mut server, session_id, port_id) = server_with_loopback(&service_id);
    let segment_id = register(&mut server, session_id, &service_id, port_id, 4096, 7);
    for _ in 0..2 {
        assert_eq!(server.iam.authorize_segment_access(segment_id, session_id, Some(8)), Ok(8));
        assert!(server.iam.session(session_id).unwrap().has_segment(segment_id));
        assert_eq!(counted(&server, session_id), (1, 4096));
    }
}

#[test]
fn own_segments_that_are_shared_leave_room_up_to_the_limit() {
    let limits = ResourceLimits::new(9, 9, 9, 9, 2, 1024);
    let mut server =
        TestServer::new(MockListener::new(), DefaultPolicy::with_limits(1000, limits));
    let session_id = join(&mut server, test_credentials());
    let service_id = create_test_service_id("test/room");
    let port_id = attach(&mut server, session_id, &service_id, PortType::Publisher);
    attach(&mut server, session_id, &service_id, PortType::Subscriber);
    server.created = Ok((50, 64));
    for expected in 1..3 {
        let request = segment_request(&service_id, port_id, 64);
        assert!(matches!(server.ask(session_id, request), IamResponse::AddSegmentOk { .. }));
        assert_eq!(counted(&server, session_id), (expected, 64 * expected));
    }
    let request = segment_request(&service_id, port_id, 64);
    assert!(matches!(
        server.ask(session_id, request),
        IamResponse::Denied { reason: DenialReason::ResourceLimitExceeded, .. }
    ));
}

#[test]
fn grants_do_not_come_under_the_limit_but_count_towards_it() {
    let limits = ResourceLimits::new(9, 9, 9, 9, 1, 1024);
    let mut server =
        TestServer::new(MockListener::new(), DefaultPolicy::with_limits(1000, limits));
    let session_id = join(&mut server, test_credentials());
    let service_id = create_test_service_id("test/granted_room");
    let port_id = attach(&mut server, session_id, &service_id, PortType::Publisher);
    for handle in 0..2 {
        let segment_id =
            server.iam.register_segment(handle, 100, AccessRights::read_only()).unwrap();
        assert!(server.iam.authorize_segment_access(segment_id, session_id, Some(8)).is_ok());
    }
    assert_eq!(counted(&server, session_id), (2, 200));
    server.created = Ok((50, 64));
    assert!(matches!(
        server.ask(session_id, segment_request(&service_id, port_id, 64)),
        IamResponse::Denied { reason: DenialReason::ResourceLimitExceeded, .. }
    ));
}

#[test]
fn a_segment_of_a_single_session_goes_with_its_acknowledgment() {
    let (mut server, session_id) = server_with_session();
    let segment_id = server.iam.register_segment(7, 100, AccessRights::read_only()).unwrap();
    server.iam.authorize_segment_access(segment_id, session_id, Some(8)).unwrap();
    assert_eq!(server.iam.begin_segment_retirement(segment_id), Some(vec![session_id]));
    assert!(matches!(ack(&mut server, session_id, segment_id), IamResponse::AckOk));
    assert!(!server.iam.segments().has_segment(segment_id));
    assert!(!server.iam.session(session_id).unwrap().has_pending_retirement(segment_id));
    assert_eq!(counted(&server, session_id), (0, 0));
}

#[test]
fn registrations_announce_no_more_handles_than_a_message_can_pass() {
    let (mut server, session_id) = server_with_session();
    let service_id = create_test_service_id("test/handles");
    let registration = |handle_count: usize| IamRequest::RegisterChannel {
        service_id: service_id.clone(),
        sender_port_id: 1,
        receiver_port_id: 2,
        channel_size: 64,
        handle_count,
    };
    match server.ask(session_id, registration(MAX_HANDLES_PER_MESSAGE + 1)) {
        IamResponse::ProtocolError { message } => {
            assert_eq!(message, "RegisterChannel announces too many handles");
        }
        other => panic!("Unexpected response: {:?}", other),
    }
    assert_eq!(counted(&server, session_id), (0, 0));
    assert!(matches!(
        server.answer(session_id, registration(MAX_HANDLES_PER_MESSAGE), vec![7]),
        Ok((IamResponse::RegisterChannelOk, _))
    ));
}

#[test]
fn a_server_is_ready_for_requests() {
    let (server, session_id) = server_with_session();
    let service_id = create_test_service_id("test/ready");
    let request = attach_request(&service_id, PortType::Client);
    assert!(server.iam.is_ready_for(session_id, &request));
    let request = IamRequest::RequestSegmentHandle { service_id, sender_port_id: 1 };
    assert!(server.iam.is_ready_for(session_id, &request));
    assert!(server.iam.can_count_segments(session_id));
    assert!(server.iam.can_count_segments(SessionId::from_value(99)));
}
