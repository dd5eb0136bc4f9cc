use std::cell::RefCell;

use iceoryx2_iam::client::{
    check_handles, handle_add_segment_response, handle_attach_response,
    handle_dynamic_segment_handle_response, handle_segment_handle_response,
    ClientControlChannelConnection, IamClient,
};
use iceoryx2_iam::error::IamClientError;
use iceoryx2_iam::protocol::{
    DenialReason, IamNotification, IamRequest, IamResponse, MessagingPatternKind,
    ProtocolVersion, SegmentInfo, SessionId, INVALID_SESSION_ID, MAX_HANDLES_PER_MESSAGE,
    MAX_SEGMENTS_PER_ATTACH,
};
use iceoryx2_iam::secured_context::SecuredServiceContext;
use iceoryx2_iam::types::{AccessRights, SegmentId, ServiceId, ServiceName, UniqueSystemId};

/// Mock connection for testing.
struct MockConnection {
    /// Requests that have been sent.
    sent_requests: RefCell<Vec<IamRequest>>,
    /// Handles that have been sent.
    sent_handles: RefCell<Vec<u32>>,
    /// Responses to return (FIFO queue).
    responses_to_return: RefCell<Vec<IamResponse>>,
    /// Notifications to return (FIFO queue).
    notifications_to_return: RefCell<Vec<IamNotification>>,
    /// Handles to return on next receive_handles call.
    handles_to_return: RefCell<Vec<u32>>,
    /// How often the connection has been closed.
    closed: RefCell<usize>,
    /// Error to return on send (if any).
    send_error: RefCell<Option<IamClientError>>,
    /// Error to return on receive (if any).
    receive_error: RefCell<Option<IamClientError>>,
}

impl MockConnection {
    fn new() -> Self {
        Self {
            sent_requests: RefCell::new(Vec::new()),
            sent_handles: RefCell::new(Vec::new()),
            responses_to_return: RefCell::new(Vec::new()),
            notifications_to_return: RefCell::new(Vec::new()),
            handles_to_return: RefCell::new(Vec::new()),
            closed: RefCell::new(0),
            send_error: RefCell::new(None),
            receive_error: RefCell::new(None),
        }
    }

    fn add_response(&self, response: IamResponse) {
        self.responses_to_return.borrow_mut().push(response);
    }

    fn set_send_error(&self, error: IamClientError) {
        *self.send_error.borrow_mut() = Some(error);
    }

    fn set_receive_error(&self, error: IamClientError) {
        *self.receive_error.borrow_mut() = Some(error);
    }

    fn get_sent_requests(&self) -> Vec<IamRequest> {
        self.sent_requests.borrow().clone()
    }
}

impl ClientControlChannelConnection for MockConnection {
    type Handle = u32;

    fn send_request(&self, request: &IamRequest) -> Result<(), IamClientError> {
        if let Some(error) = self.send_error.borrow_mut().take() {
            return Err(error);
        }
        self.sent_requests.borrow_mut().push(request.clone());
        Ok(())
    }

    fn receive_response(&self) -> Result<IamResponse, IamClientError> {
        if let Some(error) = self.receive_error.borrow_mut().take() {
            return Err(error);
        }
        let mut responses = self.responses_to_return.borrow_mut();
        if responses.is_empty() {
            Err(IamClientError::ReceiveFailed)
        } else {
            Ok(responses.remove(0)) // FIFO: remove from front
        }
    }

    fn receive_handles(&self, count: usize) -> Result<Vec<u32>, IamClientError> {
        let mut handles = self.handles_to_return.borrow_mut();
        if handles.len() < count {
            return Err(IamClientError::HandleReceiveFailed);
        }
        Ok(handles.drain(..count).collect())
    }

    fn send_handle(&self, handle: &u32) -> Result<(), IamClientError> {
        self.sent_handles.borrow_mut().push(*handle);
        Ok(())
    }

    fn try_receive_notification(&self) -> Result<Option<IamNotification>, IamClientError> {
        let mut notifications = self.notifications_to_return.borrow_mut();
        if notifications.is_empty() {
            Ok(None)
        } else {
            Ok(Some(notifications.remove(0)))
        }
    }

    fn close(&self) {
        *self.closed.borrow_mut() += 1;
    }
}

fn active_client(connection: MockConnection) -> IamClient<MockConnection> {
    let mut client = IamClient::new(connection);
    client
        .handle_hello_response(IamResponse::HelloOk {
            negotiated_version: ProtocolVersion::current(),
            session_id: SessionId::from_value(42),
        })
        .unwrap();
    client
}

#[test]
fn test_client_new() {
    let connection = MockConnection::new();
    let client = IamClient::new(connection);

    assert_eq!(client.session_id().value(), INVALID_SESSION_ID);
    assert_eq!(client.protocol_version(), ProtocolVersion::current());
    assert!(client.is_connected());
    assert!(!client.is_active());
}

#[test]
fn test_client_handshake_success() {
    let connection = MockConnection::new();
    let expected_session_id = SessionId::from_value(42);
    connection.add_response(IamResponse::HelloOk {
        negotiated_version: ProtocolVersion::current(),
        session_id: expected_session_id,
    });

    let mut client = IamClient::new(connection);
    let node_id = UniqueSystemId::new(77);

    let result = client.handshake(node_id);
    assert!(result.is_ok());
    assert_eq!(result.unwrap(), expected_session_id);
    assert_eq!(client.session_id(), expected_session_id);
    assert!(client.is_active());
}

#[test]
fn test_client_handshake_version_mismatch() {
    let connection = MockConnection::new();
    connection.add_response(IamResponse::Denied {
        reason: DenialReason::VersionMismatch,
        message: String::from("Version mismatch"),
    });

    let mut client = IamClient::new(connection);
    let node_id = UniqueSystemId::new(77);

    let result = client.handshake(node_id);
    assert!(result.is_err());
    assert_eq!(result.unwrap_err(), IamClientError::VersionMismatch);
    assert!(!client.is_active());
}

#[test]
fn test_client_handshake_denied() {
    let connection = MockConnection::new();
    connection.add_response(IamResponse::Denied {
        reason: DenialReason::Unauthorized,
        message: String::from("Not authorized"),
    });

    let mut client = IamClient::new(connection);
    let node_id = UniqueSystemId::new(77);

    let result = client.handshake(node_id);
    assert!(result.is_err());
    assert_eq!(result.unwrap_err(), IamClientError::RequestDenied);
}

#[test]
fn test_client_handshake_send_failed() {
    let connection = MockConnection::new();
    connection.set_send_error(IamClientError::SendFailed);

    let mut client = IamClient::new(connection);
    let node_id = UniqueSystemId::new(77);

    let result = client.handshake(node_id);
    assert!(result.is_err());
    assert_eq!(result.unwrap_err(), IamClientError::SendFailed);
}

#[test]
fn test_client_handshake_receive_failed() {
    let connection = MockConnection::new();
    connection.set_receive_error(IamClientError::ReceiveFailed);

    let mut client = IamClient::new(connection);
    let node_id = UniqueSystemId::new(77);

    let result = client.handshake(node_id);
    assert!(result.is_err());
    assert_eq!(result.unwrap_err(), IamClientError::ReceiveFailed);
}

#[test]
fn test_client_handshake_already_active() {
    let connection = MockConnection::new();
    connection.add_response(IamResponse::HelloOk {
        negotiated_version: ProtocolVersion::current(),
        session_id: SessionId::from_value(42),
    });

    let mut client = IamClient::new(connection);
    let node_id = UniqueSystemId::new(77);

    // First handshake succeeds
    assert!(client.handshake(node_id).is_ok());

    // Second handshake fails (already active)
    let result = client.handshake(node_id);
    assert!(result.is_err());
    assert_eq!(result.unwrap_err(), IamClientError::HandshakeFailed);
}

#[test]
fn test_client_disconnect() {
    let connection = MockConnection::new();
    connection.add_response(IamResponse::HelloOk {
        negotiated_version: ProtocolVersion::current(),
        session_id: SessionId::from_value(42),
    });

    let mut client = IamClient::new(connection);
    let node_id = UniqueSystemId::new(77);
    client.handshake(node_id).unwrap();

    assert!(client.is_active());
    client.disconnect();
    assert!(!client.is_active());
    assert!(!client.is_connected());
    assert_eq!(client.session_id().value(), INVALID_SESSION_ID);
}

#[test]
fn test_client_disconnect_idempotent() {
    let connection = MockConnection::new();
    let mut client = IamClient::new(connection);

    client.disconnect();
    client.disconnect(); // Should not panic
    assert!(!client.is_connected());
}

#[test]
fn test_client_create_service_not_active() {
    let connection = MockConnection::new();
    let mut client = IamClient::new(connection);

    let service_name = ServiceName::new("test/service");
    let result = client.create_service(&service_name, MessagingPatternKind::PublishSubscribe);

    assert!(result.is_err());
    assert_eq!(result.unwrap_err(), IamClientError::SessionInvalid);
}

#[test]
fn test_client_create_service_success() {
    let connection = MockConnection::new();
    let service_name = ServiceName::new("test/service");
    let expected_service_id =
        ServiceId::new(service_name.as_str());

    connection.add_response(IamResponse::CreateServiceOk {
        service_id: expected_service_id.clone(),
    });

    let mut client = active_client(connection);

    let result = client.create_service(&service_name, MessagingPatternKind::PublishSubscribe);
    assert!(result.is_ok());
    assert_eq!(result.unwrap(), expected_service_id);
}

#[test]
fn test_client_create_service_denied() {
    let connection = MockConnection::new();
    connection.add_response(IamResponse::Denied {
        reason: DenialReason::Unauthorized,
        message: String::from("Not authorized"),
    });

    let mut client = active_client(connection);

    let service_name = ServiceName::new("test/service");
    let result = client.create_service(&service_name, MessagingPatternKind::PublishSubscribe);

    assert!(result.is_err());
    assert_eq!(result.unwrap_err(), IamClientError::RequestDenied);
}

#[test]
fn test_client_attach_publisher_success() {
    let connection = MockConnection::new();
    let service_name = ServiceName::new("test/service");
    let service_id = ServiceId::new(service_name.as_str());

    connection.add_response(IamResponse::AttachOk {
        port_id: 123,
        segment_info: vec![],
        handle_count: 0,
    });

    let mut client = active_client(connection);

    let result = client.attach_publisher(&service_id, 8, 1024);
    assert!(result.is_ok());

    let (port_id, segments, handles) = result.unwrap();
    assert_eq!(port_id, 123);
    assert!(segments.is_empty());
    assert!(handles.is_empty());
}

#[test]
fn test_client_attach_publisher_with_segments() {
    let connection = MockConnection::new();
    let service_name = ServiceName::new("test/service");
    let service_id = ServiceId::new(service_name.as_str());

    let segment_info = vec![SegmentInfo::new(
        SegmentId::new(1),
        4096,
        AccessRights::read_write(),
    )];

    connection.add_response(IamResponse::AttachOk {
        port_id: 456,
        segment_info: segment_info.clone(),
        handle_count: 0, // No actual handles in this test
    });

    let mut client = active_client(connection);

    let result = client.attach_publisher(&service_id, 8, 1024);
    assert!(result.is_ok());

    let (port_id, segments, _handles) = result.unwrap();
    assert_eq!(port_id, 456);
    assert_eq!(segments.len(), 1);
    assert_eq!(segments[0].segment_id().value(), 1);
}

#[test]
fn test_client_attach_subscriber_success() {
    let connection = MockConnection::new();
    let service_name = ServiceName::new("test/service");
    let service_id = ServiceId::new(service_name.as_str());

    connection.add_response(IamResponse::AttachOk {
        port_id: 789,
        segment_info: vec![],
        handle_count: 0,
    });

    let mut client = active_client(connection);

    let result = client.attach_subscriber(&service_id, 16);
    assert!(result.is_ok());

    let (port_id, _, _) = result.unwrap();
    assert_eq!(port_id, 789);
}

#[test]
fn test_client_attach_server_success() {
    let connection = MockConnection::new();
    let service_name = ServiceName::new("test/service");
    let service_id = ServiceId::new(service_name.as_str());

    connection.add_response(IamResponse::AttachOk {
        port_id: 111,
        segment_info: vec![],
        handle_count: 0,
    });

    let mut client = active_client(connection);

    let result = client.attach_server(&service_id, 10);
    assert!(result.is_ok());
    assert_eq!(result.unwrap().0, 111);
}

#[test]
fn test_client_attach_client_success() {
    let connection = MockConnection::new();
    let service_name = ServiceName::new("test/service");
    let service_id = ServiceId::new(service_name.as_str());

    connection.add_response(IamResponse::AttachOk {
        port_id: 222,
        segment_info: vec![],
        handle_count: 0,
    });

    let mut client = active_client(connection);

    let result = client.attach_client(&service_id, 5);
    assert!(result.is_ok());
    assert_eq!(result.unwrap().0, 222);
}

#[test]
fn test_client_attach_denied() {
    let connection = MockConnection::new();
    let service_name = ServiceName::new("test/service");
    let service_id = ServiceId::new(service_name.as_str());

    connection.add_response(IamResponse::Denied {
        reason: DenialReason::ResourceLimitExceeded,
        message: String::from("Too many ports"),
    });

    let mut client = active_client(connection);

    let result = client.attach_publisher(&service_id, 8, 1024);
    assert!(result.is_err());
    assert_eq!(result.unwrap_err(), IamClientError::RequestDenied);
}

#[test]
fn test_client_detach_success() {
    let connection = MockConnection::new();
    let service_name = ServiceName::new("test/service");
    let service_id = ServiceId::new(service_name.as_str());

    connection.add_response(IamResponse::DetachOk);

    let mut client = active_client(connection);

    let result = client.detach(&service_id, 123);
    assert!(result.is_ok());
}

#[test]
fn test_client_detach_not_active() {
    let connection = MockConnection::new();
    let service_name = ServiceName::new("test/service");
    let service_id = ServiceId::new(service_name.as_str());

    let mut client = IamClient::new(connection);

    let result = client.detach(&service_id, 123);
    assert!(result.is_err());
    assert_eq!(result.unwrap_err(), IamClientError::SessionInvalid);
}

#[test]
fn test_client_add_segment_success() {
    let connection = MockConnection::new();
    let service_name = ServiceName::new("test/service");
    let service_id = ServiceId::new(service_name.as_str());

    connection.add_response(IamResponse::AddSegmentOk {
        segment_id: SegmentId::new(5),
        size: 8192,
        handle_count: 0,
    });

    let mut client = active_client(connection);

    let result = client.add_segment(&service_id, 123, 8192, 1024, 8);
    assert!(result.is_ok());

    let (segment_id, size, handles) = result.unwrap();
    assert_eq!(segment_id.value(), 5);
    assert_eq!(size, 8192);
    assert!(handles.is_empty());
}

#[test]
fn test_client_add_segment_denied() {
    let connection = MockConnection::new();
    let service_name = ServiceName::new("test/service");
    let service_id = ServiceId::new(service_name.as_str());

    connection.add_response(IamResponse::Denied {
        reason: DenialReason::ResourceLimitExceeded,
        message: String::from("Maximum segments reached"),
    });

    let mut client = active_client(connection);

    let result = client.add_segment(&service_id, 123, 8192, 1024, 8);
    assert!(result.is_err());
    assert_eq!(result.unwrap_err(), IamClientError::RequestDenied);
}

#[test]
fn test_client_ack_retirement_success() {
    let connection = MockConnection::new();
    let service_name = ServiceName::new("test/service");
    let service_id = ServiceId::new(service_name.as_str());

    connection.add_response(IamResponse::AckOk);

    let mut client = active_client(connection);

    let result = client.ack_retirement(&service_id, SegmentId::new(7));
    assert!(result.is_ok());
}

#[test]
fn test_client_ack_retirement_denied() {
    let connection = MockConnection::new();
    let service_name = ServiceName::new("test/service");
    let service_id = ServiceId::new(service_name.as_str());

    connection.add_response(IamResponse::Denied {
        reason: DenialReason::Unauthorized,
        message: String::from("Not authorized for segment"),
    });

    let mut client = active_client(connection);

    let result = client.ack_retirement(&service_id, SegmentId::new(7));
    assert!(result.is_err());
    assert_eq!(result.unwrap_err(), IamClientError::RequestDenied);
}

#[test]
fn test_client_handshake_invalid_session_id() {
    let connection = MockConnection::new();
    // Server returns invalid session_id (0)
    connection.add_response(IamResponse::HelloOk {
        negotiated_version: ProtocolVersion::current(),
        session_id: SessionId::from_value(INVALID_SESSION_ID),
    });

    let mut client = IamClient::new(connection);
    let node_id = UniqueSystemId::new(77);

    let result = client.handshake(node_id);
    assert!(result.is_err());
    assert_eq!(result.unwrap_err(), IamClientError::HandshakeFailed);
    assert!(!client.is_active());
}

#[test]
fn test_client_attach_handle_count_exceeds_limit() {
    let connection = MockConnection::new();
    let service_name = ServiceName::new("test/service");
    let service_id = ServiceId::new(service_name.as_str());

    // Server claims to send more handles than protocol allows (DoS attempt)
    connection.add_response(IamResponse::AttachOk {
        port_id: 123,
        segment_info: vec![],
        handle_count: MAX_HANDLES_PER_MESSAGE + 1,
    });

    let mut client = active_client(connection);

    let result = client.attach_publisher(&service_id, 8, 1024);
    assert!(result.is_err());
    assert_eq!(result.unwrap_err(), IamClientError::ProtocolError);
}

#[test]
fn test_client_attach_segment_count_exceeds_limit() {
    let connection = MockConnection::new();
    let service_name = ServiceName::new("test/service");
    let service_id = ServiceId::new(service_name.as_str());

    // Server sends more segments than protocol allows (DoS attempt)
    let too_many_segments: Vec<SegmentInfo> = (0..MAX_SEGMENTS_PER_ATTACH + 1)
        .map(|i| SegmentInfo::new(SegmentId::new(i as u8), 4096, AccessRights::read_write()))
        .collect();

    connection.add_response(IamResponse::AttachOk {
        port_id: 123,
        segment_info: too_many_segments,
        handle_count: 0,
    });

    let mut client = active_client(connection);

    let result = client.attach_publisher(&service_id, 8, 1024);
    assert!(result.is_err());
    assert_eq!(result.unwrap_err(), IamClientError::ProtocolError);
}

#[test]
fn test_client_add_segment_handle_count_exceeds_limit() {
    let connection = MockConnection::new();
    let service_name = ServiceName::new("test/service");
    let service_id = ServiceId::new(service_name.as_str());

    // Server claims to send more handles than protocol allows (DoS attempt)
    connection.add_response(IamResponse::AddSegmentOk {
        segment_id: SegmentId::new(5),
        size: 8192,
        handle_count: MAX_HANDLES_PER_MESSAGE + 1,
    });

    let mut client = active_client(connection);

    let result = client.add_segment(&service_id, 123, 8192, 1024, 8);
    assert!(result.is_err());
    assert_eq!(result.unwrap_err(), IamClientError::ProtocolError);
}

#[test]
fn test_client_protocol_error_response() {
    let connection = MockConnection::new();
    let service_name = ServiceName::new("test/service");
    let service_id = ServiceId::new(service_name.as_str());

    connection.add_response(IamResponse::ProtocolError {
        message: String::from("Unexpected error"),
    });

    let mut client = active_client(connection);

    let result = client.attach_publisher(&service_id, 8, 1024);
    assert!(result.is_err());
    assert_eq!(result.unwrap_err(), IamClientError::ProtocolError);
}

#[test]
fn test_client_is_send() {
    fn assert_send<T: Send>() {}
    assert_send::<IamClient<MockConnection>>();
}

#[test]
fn test_client_sends_correct_handshake_request() {
    let connection = MockConnection::new();
    connection.add_response(IamResponse::HelloOk {
        negotiated_version: ProtocolVersion::current(),
        session_id: SessionId::from_value(42),
    });

    let mut client = IamClient::new(connection);
    let node_id = UniqueSystemId::new(77);
    client.handshake(node_id).unwrap();

    let requests = client.connection().get_sent_requests();
    assert_eq!(requests.len(), 1);

    match &requests[0] {
        IamRequest::Hello {
            protocol_version,
            node_id: sent_node_id,
        } => {
            assert_eq!(*protocol_version, ProtocolVersion::current());
            assert_eq!(*sent_node_id, node_id);
        }
        _ => panic!("Expected Hello request"),
    }
}

#[test]
fn test_client_sends_correct_create_service_request() {
    let connection = MockConnection::new();
    let service_name = ServiceName::new("test/service");
    let expected_service_id =
        ServiceId::new(service_name.as_str());

    connection.add_response(IamResponse::CreateServiceOk {
        service_id: expected_service_id.clone(),
    });

    let mut client = active_client(connection);

    client
        .create_service(&service_name, MessagingPatternKind::PublishSubscribe)
        .unwrap();

    let requests = client.connection().get_sent_requests();
    assert_eq!(requests.len(), 1);

    match &requests[0] {
        IamRequest::CreateService {
            service_name: sent_name,
            messaging_pattern,
        } => {
            assert_eq!(*sent_name, service_name);
            assert_eq!(*messaging_pattern, MessagingPatternKind::PublishSubscribe);
        }
        _ => panic!("Expected CreateService request"),
    }
}

#[test]
fn a_denied_handshake_may_be_repeated() {
    let connection = MockConnection::new();
    connection.add_response(IamResponse::denied(DenialReason::Unauthorized, "not yet"));
    connection.add_response(IamResponse::HelloOk {
        negotiated_version: ProtocolVersion::current(),
        session_id: SessionId::from_value(9),
    });
    let mut client = IamClient::new(connection);
    assert_eq!(client.handshake(UniqueSystemId::new(1)), Err(IamClientError::RequestDenied));
    assert!(client.is_connected());
    assert_eq!(client.handshake(UniqueSystemId::new(1)), Ok(SessionId::from_value(9)));
    assert!(client.is_active());
}

#[test]
fn another_major_version_disconnects() {
    let connection = MockConnection::new();
    connection.add_response(IamResponse::HelloOk {
        negotiated_version: ProtocolVersion::new(2, 0),
        session_id: SessionId::from_value(9),
    });
    let mut client = IamClient::new(connection);
    assert_eq!(client.handshake(UniqueSystemId::new(1)), Err(IamClientError::VersionMismatch));
    assert!(!client.is_connected());
    assert_eq!(*client.connection().closed.borrow(), 1);
    assert_eq!(client.handshake(UniqueSystemId::new(1)), Err(IamClientError::HandshakeFailed));
}

#[test]
fn unexpected_answers_to_hello_are_failures() {
    let mut client = IamClient::new(MockConnection::new());
    assert_eq!(
        client.handle_hello_response(IamResponse::AckOk),
        Err(IamClientError::HandshakeFailed)
    );
    assert_eq!(
        client.handle_hello_response(IamResponse::protocol_error("?")),
        Err(IamClientError::ProtocolError)
    );
    assert!(client.is_connected());
}

#[test]
fn the_connection_is_closed_once() {
    let mut client = active_client(MockConnection::new());
    for _ in 0..5 {
        client.disconnect();
        assert_eq!(*client.connection().closed.borrow(), 1);
        assert!(!client.is_connected());
    }
    let mut client = IamClient::new(MockConnection::new());
    for _ in 0..5 {
        client.disconnect();
        assert_eq!(*client.connection().closed.borrow(), 1);
    }
}

#[test]
fn an_inactive_client_sends_nothing() {
    let mut client = IamClient::new(MockConnection::new());
    let service_id = ServiceId::new("service");
    let invalid = IamClientError::SessionInvalid;
    assert_eq!(client.attach_publisher(&service_id, 1, 1).unwrap_err(), invalid);
    assert_eq!(client.attach_subscriber(&service_id, 1).unwrap_err(), invalid);
    assert_eq!(client.attach_server(&service_id, 1).unwrap_err(), invalid);
    assert_eq!(client.attach_client(&service_id, 1).unwrap_err(), invalid);
    assert_eq!(client.add_segment(&service_id, 1, 1, 1, 1).unwrap_err(), invalid);
    assert_eq!(client.ack_retirement(&service_id, SegmentId::new(1)).unwrap_err(), invalid);
    assert_eq!(client.register_segment(&service_id, 1, 1, &5).unwrap_err(), invalid);
    assert_eq!(client.request_segment_handle(&service_id, 1).unwrap_err(), invalid);
    assert_eq!(client.register_dynamic_segment(&service_id, 1, 0, 1, &5).unwrap_err(), invalid);
    assert_eq!(client.request_dynamic_segment_handle(&service_id, 1, 0).unwrap_err(), invalid);
    assert_eq!(client.try_receive_notification().unwrap_err(), invalid);
    assert!(client.connection().get_sent_requests().is_empty());
    assert!(client.connection().sent_handles.borrow().is_empty());
}

#[test]
fn handles_follow_an_attachment() {
    let connection = MockConnection::new();
    connection.handles_to_return.borrow_mut().extend([11, 12, 13]);
    connection.add_response(IamResponse::AttachOk {
        port_id: 3,
        segment_info: vec![],
        handle_count: 2,
    });
    let mut client = active_client(connection);
    let (port_id, _, handles) = client.attach_subscriber(&ServiceId::new("s"), 4).unwrap();
    assert_eq!(port_id, 3);
    assert_eq!(handles, vec![11, 12]);
}

#[test]
fn missing_handles_are_an_error() {
    let connection = MockConnection::new();
    connection.add_response(IamResponse::AttachOk {
        port_id: 3,
        segment_info: vec![],
        handle_count: 2,
    });
    let mut client = active_client(connection);
    assert_eq!(
        client.attach_subscriber(&ServiceId::new("s"), 4).unwrap_err(),
        IamClientError::HandleReceiveFailed
    );
    assert_eq!(check_handles(Ok(vec![1]), 1), Ok(vec![1]));
    assert_eq!(check_handles(Ok(vec![1]), 2), Err(IamClientError::HandleReceiveFailed));
    assert_eq!(
        check_handles(Err::<Vec<u32>, _>(IamClientError::Timeout), 2),
        Err(IamClientError::Timeout)
    );
}

#[test]
fn the_limits_themselves_are_allowed() {
    let info = SegmentInfo::new(SegmentId::new(1), 1, AccessRights::read_only());
    let response = IamResponse::AttachOk {
        port_id: 1,
        segment_info: vec![info; MAX_SEGMENTS_PER_ATTACH],
        handle_count: MAX_HANDLES_PER_MESSAGE,
    };
    assert_eq!(handle_attach_response(response).unwrap().2, MAX_HANDLES_PER_MESSAGE);
    let response = IamResponse::AddSegmentOk {
        segment_id: SegmentId::new(1),
        size: 1,
        handle_count: MAX_HANDLES_PER_MESSAGE,
    };
    assert!(handle_add_segment_response(response).is_ok());
}

#[test]
fn segments_are_registered_with_a_handle() {
    let connection = MockConnection::new();
    connection.add_response(IamResponse::RegisterSegmentOk { segment_id: SegmentId::new(6) });
    connection.add_response(IamResponse::RegisterDynamicSegmentOk { segment_id: 3 });
    connection.add_response(IamResponse::denied(DenialReason::Unauthorized, "no"));
    let mut client = active_client(connection);
    let service_id = ServiceId::new("s");
    assert_eq!(client.register_segment(&service_id, 9, 4096, &21), Ok(SegmentId::new(6)));
    assert_eq!(client.register_dynamic_segment(&service_id, 9, 3, 64, &22), Ok(3));
    assert_eq!(
        client.register_segment(&service_id, 9, 4096, &23),
        Err(IamClientError::RequestDenied)
    );
    assert_eq!(*client.connection().sent_handles.borrow(), vec![21, 22, 23]);
    match &client.connection().get_sent_requests()[0] {
        IamRequest::RegisterSegment { port_id, segment_size, handle_count, .. } => {
            assert_eq!((*port_id, *segment_size, *handle_count), (9, 4096, 1));
        }
        _ => panic!("expected a registration"),
    }
}

#[test]
fn segments_are_requested_by_port_and_index() {
    let info = SegmentInfo::new(SegmentId::new(4), 512, AccessRights::read_only());
    let connection = MockConnection::new();
    connection.handles_to_return.borrow_mut().extend([31, 32]);
    connection.add_response(IamResponse::SegmentHandleOk { segment_info: info, handle_count: 1 });
    connection.add_response(IamResponse::SegmentHandleNotFound);
    connection.add_response(IamResponse::DynamicSegmentHandleOk {
        segment_info: info,
        handle_count: 1,
    });
    connection.add_response(IamResponse::DynamicSegmentPending);
    let mut client = active_client(connection);
    let service_id = ServiceId::new("s");
    assert_eq!(client.request_segment_handle(&service_id, 9), Ok(Some((info, 31))));
    assert_eq!(client.request_segment_handle(&service_id, 9), Ok(None));
    assert_eq!(client.request_dynamic_segment_handle(&service_id, 9, 1), Ok(Some((info, 32))));
    assert_eq!(client.request_dynamic_segment_handle(&service_id, 9, 2), Ok(None));
}

#[test]
fn announced_handles_are_checked() {
    let info = SegmentInfo::new(SegmentId::new(4), 512, AccessRights::read_only());
    let none = IamResponse::SegmentHandleOk { segment_info: info, handle_count: 0 };
    assert_eq!(handle_segment_handle_response(none), Err(IamClientError::HandleReceiveFailed));
    let many = IamResponse::DynamicSegmentHandleOk {
        segment_info: info,
        handle_count: MAX_HANDLES_PER_MESSAGE + 1,
    };
    assert_eq!(
        handle_dynamic_segment_handle_response(many),
        Err(IamClientError::ProtocolError)
    );
    assert_eq!(
        handle_segment_handle_response(IamResponse::DynamicSegmentPending),
        Err(IamClientError::ProtocolError)
    );
}

#[test]
fn notifications_come_with_their_handles() {
    let connection = MockConnection::new();
    connection.handles_to_return.borrow_mut().push(41);
    let update = IamNotification::SegmentUpdate {
        segment_id: SegmentId::new(2),
        size: 100,
        handle_count: 1,
    };
    connection.notifications_to_return.borrow_mut().push(update);
    connection.notifications_to_return.borrow_mut().push(IamNotification::ServiceStopping);
    connection.notifications_to_return.borrow_mut().push(IamNotification::SegmentUpdate {
        segment_id: SegmentId::new(2),
        size: 100,
        handle_count: MAX_HANDLES_PER_MESSAGE + 1,
    });
    let mut client = active_client(connection);
    assert_eq!(client.try_receive_notification(), Ok(Some((update, vec![41]))));
    assert_eq!(
        client.try_receive_notification(),
        Ok(Some((IamNotification::ServiceStopping, vec![])))
    );
    assert_eq!(client.try_receive_notification(), Err(IamClientError::ProtocolError));
    assert_eq!(client.try_receive_notification(), Ok(None));
}

#[test]
fn a_context_asks_for_its_own_service() {
    let connection = MockConnection::new();
    for port_id in 1..=4 {
        connection.add_response(IamResponse::AttachOk {
            port_id,
            segment_info: vec![],
            handle_count: 0,
        });
    }
    connection.add_response(IamResponse::AddSegmentOk {
        segment_id: SegmentId::new(5),
        size: 64,
        handle_count: 0,
    });
    connection.add_response(IamResponse::RegisterSegmentOk { segment_id: SegmentId::new(6) });
    connection.add_response(IamResponse::SegmentHandleNotFound);
    connection.add_response(IamResponse::RegisterDynamicSegmentOk { segment_id: 1 });
    connection.add_response(IamResponse::DynamicSegmentPending);
    let mut context =
        SecuredServiceContext::new(active_client(connection), ServiceId::new("mine"));
    assert!(context.is_active());
    assert_eq!(context.session_id().value(), 42);
    assert_eq!(context.service_id().as_str(), "mine");
    assert_eq!(context.attach_publisher(1, 2).unwrap().0, 1);
    assert_eq!(context.attach_subscriber(3).unwrap().0, 2);
    assert_eq!(context.attach_server(4).unwrap().0, 3);
    assert_eq!(context.attach_client(5).unwrap().0, 4);
    assert_eq!(context.add_segment(1, 64, 8, 8).unwrap().0, SegmentId::new(5));
    assert_eq!(context.register_segment(1, 64, &7), Ok(SegmentId::new(6)));
    assert_eq!(context.request_segment_handle(1), Ok(None));
    assert_eq!(context.register_dynamic_segment(1, 1, 64, &8), Ok(1));
    assert_eq!(context.request_dynamic_segment_handle(1, 2), Ok(None));
    assert_eq!(context.try_receive_notification(), Ok(None));
    context.acquire_ownership();
    assert!(!context.is_active());
    context.disconnect();
    assert_eq!(context.attach_client(5).unwrap_err(), IamClientError::SessionInvalid);
}

#[test]
fn overlong_messages_are_protocol_errors() {
    let longest = "m".repeat(512);
    let overlong = "m".repeat(513);
    let wide = "\u{e9}".repeat(257);
    let denied = |message: &str| IamResponse::denied(DenialReason::Unauthorized, message);
    assert_eq!(
        handle_attach_response(denied(&longest)).unwrap_err(),
        IamClientError::RequestDenied
    );
    for message in [&overlong, &wide] {
        assert_eq!(
            handle_attach_response(denied(message)).unwrap_err(),
            IamClientError::ProtocolError
        );
        assert_eq!(
            handle_add_segment_response(denied(message)).unwrap_err(),
            IamClientError::ProtocolError
        );
        let connection = MockConnection::new();
        connection.add_response(denied(message));
        let mut client = IamClient::new(connection);
        assert_eq!(client.handshake(UniqueSystemId::new(1)), Err(IamClientError::ProtocolError));
    }
}

#[test]
fn a_greeting_without_a_session_closes_the_connection() {
    let connection = MockConnection::new();
    connection.add_response(IamResponse::HelloOk {
        negotiated_version: ProtocolVersion::current(),
        session_id: SessionId::from_value(INVALID_SESSION_ID),
    });
    let mut client = IamClient::new(connection);
    assert!(client.handshake(UniqueSystemId::new(1)).is_err());
    assert!(!client.is_connected());
    assert_eq!(*client.connection().closed.borrow(), 1);
}
