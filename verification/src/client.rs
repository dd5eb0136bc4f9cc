//! The client: the handshake with the server, and the requests of an active session.

use vstd::prelude::*;
use crate::error::IamClientError;
use crate::protocol;
use crate::protocol::{
    DenialReason, IamNotification, IamRequest, IamResponse, MessagingPatternKind,
    ProtocolVersion, SegmentInfo, SessionId, INVALID_SESSION_ID, MAX_HANDLES_PER_MESSAGE,
    MAX_SEGMENTS_PER_ATTACH,
};
use crate::types::{SegmentId, ServiceId, ServiceName, UniqueSystemId};

verus! {

/// Trait for client-side control channel connections.
///
/// Nothing is promised of a connection: each result is one that it may give, and a connection
/// may give any result at any time. What it may give is for the connection to say.
pub trait ClientControlChannelConnection: Send {
    /// The handles that the server passes.
    type Handle;

    /// What may come of sending a request.
    open spec fn may_send(&self, request: IamRequest, result: Result<(), IamClientError>) -> bool {
        true
    }

    /// What may come of waiting for a response.
    open spec fn may_receive(&self, result: Result<IamResponse, IamClientError>) -> bool {
        true
    }

    /// What may come of waiting for handles.
    open spec fn may_receive_handles(
        &self,
        count: usize,
        result: Result<Vec<Self::Handle>, IamClientError>,
    ) -> bool {
        true
    }

    /// What may come of sending a handle.
    open spec fn may_send_handle(
        &self,
        handle: Self::Handle,
        result: Result<(), IamClientError>,
    ) -> bool {
        true
    }

    /// What may come of looking for a notification.
    open spec fn may_notice(&self, result: Result<Option<IamNotification>, IamClientError>) -> bool {
        true
    }

    /// What holds once the connection was closed.
    open spec fn was_closed(&self) -> bool {
        true
    }

    /// Sends a request to the server.
    fn send_request(&self, request: &IamRequest) -> (result: Result<(), IamClientError>)
        ensures
            self.may_send(*request, result),
    ;

    /// Receives a response from the server; may block until there is one.
    fn receive_response(&self) -> (result: Result<IamResponse, IamClientError>)
        ensures
            self.may_receive(result),
    ;

    /// Receives handles passed by the server, after a response that says how many.
    fn receive_handles(&self, count: usize) -> (result: Result<Vec<Self::Handle>, IamClientError>)
        ensures
            self.may_receive_handles(count, result),
    ;

    /// Sends a handle to the server, after a request that announces it.
    fn send_handle(&self, handle: &Self::Handle) -> (result: Result<(), IamClientError>)
        ensures
            self.may_send_handle(*handle, result),
    ;

    /// Looks for a notification without blocking.
    fn try_receive_notification(&self) -> (result: Result<Option<IamNotification>, IamClientError>)
        ensures
            self.may_notice(result),
    ;

    /// Closes the connection to the server.
    fn close(&self)
        ensures
            self.was_closed(),
    ;
}

/// The state of the client connection.
#[derive(Debug, Clone, Copy, PartialEq, Eq, Structural)]
pub enum ConnectionState {
    /// Connection established but handshake not yet completed.
    Connected,
    /// Handshake completed, session is active.
    Active,
    /// Connection has been closed.
    Disconnected,
}

/// What a client knows of its session.
pub struct ClientState {
    /// The session, zero if there is none.
    pub session_id: SessionId,
    /// The protocol version: the negotiated one once the handshake is complete.
    pub protocol_version: ProtocolVersion,
    /// The state of the connection.
    pub state: ConnectionState,
}

impl ClientState {
    /// Whether requests can be sent.
    pub open spec fn active(self) -> bool {
        self.state is Active && self.session_id.value != INVALID_SESSION_ID
    }

    /// A client has a session while it is active, and then only.
    pub open spec fn consistent(self) -> bool {
        self.state is Active <==> self.session_id.value != INVALID_SESSION_ID
    }

    /// Whether a client that disconnects has a connection to close.
    pub open spec fn must_close(self) -> bool {
        !(self.state is Disconnected)
    }

    /// How often a client that disconnects a number of times closes its connection.
    pub open spec fn closings(self, times: nat) -> nat
        decreases times,
    {
        if times == 0 {
            0
        } else {
            let first: nat = if self.must_close() {
                1
            } else {
                0
            };
            first + self.closed().closings((times - 1) as nat)
        }
    }

    /// The client once its connection is closed; a client without a connection stays as it is.
    pub open spec fn closed(self) -> ClientState {
        if self.state is Disconnected {
            self
        } else {
            ClientState {
                session_id: SessionId { value: INVALID_SESSION_ID },
                state: ConnectionState::Disconnected,
                ..self
            }
        }
    }

    /// The client once the server has answered hello.
    pub open spec fn greeted(self, response: IamResponse) -> ClientState {
        match response {
            IamResponse::HelloOk { negotiated_version, session_id } => {
                if greeting(response) is Ok {
                    ClientState {
                        session_id,
                        protocol_version: negotiated_version,
                        state: ConnectionState::Active,
                    }
                } else {
                    self.closed()
                }
            },
            _ => self,
        }
    }
}

/// What the server's answer to hello means: the session, or why there is none.
pub open spec fn greeting(response: IamResponse) -> Result<SessionId, IamClientError> {
    match response {
        IamResponse::HelloOk { negotiated_version, session_id } => {
            if !protocol::versions_compatible(ProtocolVersion::current(), negotiated_version) {
                Err(IamClientError::VersionMismatch)
            } else if session_id.value == INVALID_SESSION_ID {
                Err(IamClientError::HandshakeFailed)
            } else {
                Ok(session_id)
            }
        },
        IamResponse::Denied { reason, message } => if !protocol::message_fits(message@) {
            Err(IamClientError::ProtocolError)
        } else if reason == DenialReason::VersionMismatch {
            Err(IamClientError::VersionMismatch)
        } else {
            Err(IamClientError::RequestDenied)
        },
        IamResponse::ProtocolError { .. } => Err(IamClientError::ProtocolError),
        _ => Err(IamClientError::HandshakeFailed),
    }
}

/// Why a response is not the one that was hoped for: a denial, unless its message is beyond the
/// protocol's limit, is a denial; all else is a protocol error.
pub open spec fn disappointment(response: IamResponse) -> IamClientError {
    match response {
        IamResponse::Denied { message, .. } => if protocol::message_fits(message@) {
            IamClientError::RequestDenied
        } else {
            IamClientError::ProtocolError
        },
        _ => IamClientError::ProtocolError,
    }
}

/// The created service, or why there is none.
pub open spec fn created_service(response: IamResponse) -> Result<ServiceId, IamClientError> {
    match response {
        IamResponse::CreateServiceOk { service_id } => Ok(service_id),
        _ => Err(disappointment(response)),
    }
}

/// The attached port with its segments and the number of handles that follow, or why there is
/// none. Responses beyond the protocol's limits are protocol errors.
pub open spec fn attached_port(response: IamResponse) -> Result<
    (u128, Vec<SegmentInfo>, usize),
    IamClientError,
> {
    match response {
        IamResponse::AttachOk { port_id, segment_info, handle_count } => {
            if segment_info@.len() > MAX_SEGMENTS_PER_ATTACH || handle_count
                > MAX_HANDLES_PER_MESSAGE {
                Err(IamClientError::ProtocolError)
            } else {
                Ok((port_id, segment_info, handle_count))
            }
        },
        _ => Err(disappointment(response)),
    }
}

/// The added segment with its size and the number of handles that follow, or why there is none.
pub open spec fn added_segment(response: IamResponse) -> Result<
    (SegmentId, usize, usize),
    IamClientError,
> {
    match response {
        IamResponse::AddSegmentOk { segment_id, size, handle_count } => {
            if handle_count > MAX_HANDLES_PER_MESSAGE {
                Err(IamClientError::ProtocolError)
            } else {
                Ok((segment_id, size, handle_count))
            }
        },
        _ => Err(disappointment(response)),
    }
}

/// The registered segment, or why there is none.
pub open spec fn registered_segment(response: IamResponse) -> Result<SegmentId, IamClientError> {
    match response {
        IamResponse::RegisterSegmentOk { segment_id } => Ok(segment_id),
        _ => Err(disappointment(response)),
    }
}

/// The index under which a dynamic segment is registered, or why there is none.
pub open spec fn registered_index(response: IamResponse) -> Result<u8, IamClientError> {
    match response {
        IamResponse::RegisterDynamicSegmentOk { segment_id } => Ok(segment_id),
        _ => Err(disappointment(response)),
    }
}

/// The segment whose handles follow and how many they are, none if there is none yet, or why
/// it cannot be had. A segment is of no use without a handle.
pub open spec fn announced(segment_info: SegmentInfo, count: usize) -> Result<
    Option<(SegmentInfo, usize)>,
    IamClientError,
> {
    if count > MAX_HANDLES_PER_MESSAGE {
        Err(IamClientError::ProtocolError)
    } else if count == 0 {
        Err(IamClientError::HandleReceiveFailed)
    } else {
        Ok(Some((segment_info, count)))
    }
}

/// What the answer to a request for a segment means.
pub open spec fn granted_segment(response: IamResponse) -> Result<
    Option<(SegmentInfo, usize)>,
    IamClientError,
> {
    match response {
        IamResponse::SegmentHandleOk { segment_info, handle_count } => announced(
            segment_info,
            handle_count,
        ),
        IamResponse::SegmentHandleNotFound => Ok(None),
        _ => Err(disappointment(response)),
    }
}

/// What the answer to a request for a dynamic segment means.
pub open spec fn granted_dynamic_segment(response: IamResponse) -> Result<
    Option<(SegmentInfo, usize)>,
    IamClientError,
> {
    match response {
        IamResponse::DynamicSegmentHandleOk { segment_info, handle_count } => announced(
            segment_info,
            handle_count,
        ),
        IamResponse::DynamicSegmentPending => Ok(None),
        _ => Err(disappointment(response)),
    }
}

/// The number of handles that follow a notification.
pub open spec fn handles_after(notification: IamNotification) -> usize {
    match notification {
        IamNotification::SegmentUpdate { handle_count, .. } => handle_count,
        _ => 0,
    }
}

/// Whether handles that were received are as many as were announced.
pub open spec fn counted<H>(
    received: Result<Vec<H>, IamClientError>,
    count: usize,
) -> Result<Vec<H>, IamClientError> {
    match received {
        Ok(handles) => if handles@.len() == count {
            Ok(handles)
        } else {
            Err(IamClientError::HandleReceiveFailed)
        },
        Err(error) => Err(error),
    }
}

/// What may come of a request: the response, or the error with which the exchange ended.
pub open spec fn may_answer<C: ClientControlChannelConnection>(
    connection: C,
    request: IamRequest,
    answer: Result<IamResponse, IamClientError>,
) -> bool {
    exists|sent: Result<(), IamClientError>| #[trigger]
        connection.may_send(request, sent) && match sent {
            Ok(_) => connection.may_receive(answer),
            Err(error) => answer == Err::<IamResponse, _>(error),
        }
}

/// What may come of handles that were announced: none are waited for if none were announced.
pub open spec fn may_collect<C: ClientControlChannelConnection>(
    connection: C,
    count: usize,
    collected: Result<Vec<C::Handle>, IamClientError>,
) -> bool {
    if count == 0 {
        collected matches Ok(handles) && handles@.len() == 0
    } else {
        exists|received: Result<Vec<C::Handle>, IamClientError>| #[trigger]
            connection.may_receive_handles(count, received) && collected == counted(
                received,
                count,
            )
    }
}

/// What may come of a request that a handle follows.
pub open spec fn may_answer_to_handle<C: ClientControlChannelConnection>(
    connection: C,
    request: IamRequest,
    handle: C::Handle,
    answer: Result<IamResponse, IamClientError>,
) -> bool {
    exists|sent: Result<(), IamClientError>| #[trigger]
        connection.may_send(request, sent) && match sent {
            Ok(_) => may_answer_handle(connection, handle, answer),
            Err(error) => answer == Err::<IamResponse, _>(error),
        }
}

/// What may come of a handle that is sent.
pub open spec fn may_answer_handle<C: ClientControlChannelConnection>(
    connection: C,
    handle: C::Handle,
    answer: Result<IamResponse, IamClientError>,
) -> bool {
    exists|passed: Result<(), IamClientError>| #[trigger]
        connection.may_send_handle(handle, passed) && match passed {
            Ok(_) => connection.may_receive(answer),
            Err(error) => answer == Err::<IamResponse, _>(error),
        }
}

/// What may come of a grant: the segment with the first of its handles, if there is a segment.
pub open spec fn may_obtain<C: ClientControlChannelConnection>(
    connection: C,
    grant: Result<Option<(SegmentInfo, usize)>, IamClientError>,
    result: Result<Option<(SegmentInfo, C::Handle)>, IamClientError>,
) -> bool {
    match grant {
        Err(error) => result == Err::<Option<(SegmentInfo, C::Handle)>, _>(error),
        Ok(None) => result == Ok::<Option<(SegmentInfo, C::Handle)>, IamClientError>(None),
        Ok(Some((segment_info, count))) => exists|
            collected: Result<Vec<C::Handle>, IamClientError>,
        | #[trigger]
            may_collect(connection, count, collected) && result == (match collected {
                Ok(handles) => Ok(Some((segment_info, handles@[0]))),
                Err(error) => Err(error),
            }),
    }
}

/// What may come of an attach request.
pub open spec fn may_attach<C: ClientControlChannelConnection>(
    connection: C,
    request: IamRequest,
    result: Result<(u128, Vec<SegmentInfo>, Vec<C::Handle>), IamClientError>,
) -> bool {
    exists|answer: Result<IamResponse, IamClientError>| #[trigger]
        may_answer(connection, request, answer) && match answer {
            Err(error) => result == Err::<(u128, Vec<SegmentInfo>, Vec<C::Handle>), _>(error),
            Ok(response) => match attached_port(response) {
                Err(error) => result == Err::<(u128, Vec<SegmentInfo>, Vec<C::Handle>), _>(error),
                Ok((port_id, segment_info, count)) => match result {
                    Ok((id, info, handles)) => id == port_id && info == segment_info
                        && may_collect(connection, count, Ok(handles)),
                    Err(error) => may_collect(connection, count, Err(error)),
                },
            },
        }
}

/// What may come of an AddSegment request.
pub open spec fn may_add_segment<C: ClientControlChannelConnection>(
    connection: C,
    request: IamRequest,
    result: Result<(SegmentId, usize, Vec<C::Handle>), IamClientError>,
) -> bool {
    exists|answer: Result<IamResponse, IamClientError>| #[trigger]
        may_answer(connection, request, answer) && match answer {
            Err(error) => result == Err::<(SegmentId, usize, Vec<C::Handle>), _>(error),
            Ok(response) => match added_segment(response) {
                Err(error) => result == Err::<(SegmentId, usize, Vec<C::Handle>), _>(error),
                Ok((segment_id, size, count)) => match result {
                    Ok((id, actual_size, handles)) => id == segment_id && actual_size == size
                        && may_collect(connection, count, Ok(handles)),
                    Err(error) => may_collect(connection, count, Err(error)),
                },
            },
        }
}

/// What may come of a RegisterSegment request.
pub open spec fn may_register_segment<C: ClientControlChannelConnection>(
    connection: C,
    request: IamRequest,
    handle: C::Handle,
    result: Result<SegmentId, IamClientError>,
) -> bool {
    exists|answer: Result<IamResponse, IamClientError>| #[trigger]
        may_answer_to_handle(connection, request, handle, answer) && result == (match answer {
            Ok(response) => registered_segment(response),
            Err(error) => Err(error),
        })
}

/// What may come of a RegisterDynamicSegment request.
pub open spec fn may_register_dynamic_segment<C: ClientControlChannelConnection>(
    connection: C,
    request: IamRequest,
    handle: C::Handle,
    result: Result<u8, IamClientError>,
) -> bool {
    exists|answer: Result<IamResponse, IamClientError>| #[trigger]
        may_answer_to_handle(connection, request, handle, answer) && result == (match answer {
            Ok(response) => registered_index(response),
            Err(error) => Err(error),
        })
}

/// What may come of a RequestSegmentHandle request.
pub open spec fn may_request_segment<C: ClientControlChannelConnection>(
    connection: C,
    request: IamRequest,
    result: Result<Option<(SegmentInfo, C::Handle)>, IamClientError>,
) -> bool {
    exists|answer: Result<IamResponse, IamClientError>| #[trigger]
        may_answer(connection, request, answer) && may_obtain(
            connection,
            match answer {
                Ok(response) => granted_segment(response),
                Err(error) => Err(error),
            },
            result,
        )
}

/// What may come of a RequestDynamicSegmentHandle request.
pub open spec fn may_request_dynamic_segment<C: ClientControlChannelConnection>(
    connection: C,
    request: IamRequest,
    result: Result<Option<(SegmentInfo, C::Handle)>, IamClientError>,
) -> bool {
    exists|answer: Result<IamResponse, IamClientError>| #[trigger]
        may_answer(connection, request, answer) && may_obtain(
            connection,
            match answer {
                Ok(response) => granted_dynamic_segment(response),
                Err(error) => Err(error),
            },
            result,
        )
}

/// What may come of looking for a notification and its handles.
pub open spec fn may_be_notified<C: ClientControlChannelConnection>(
    connection: C,
    result: Result<Option<(IamNotification, Vec<C::Handle>)>, IamClientError>,
) -> bool {
    exists|noticed: Result<Option<IamNotification>, IamClientError>| #[trigger]
        connection.may_notice(noticed) && match noticed {
            Err(error) => result == Err::<Option<(IamNotification, Vec<C::Handle>)>, _>(error),
            Ok(None) => result == Ok::<Option<(IamNotification, Vec<C::Handle>)>, IamClientError>(
                None,
            ),
            Ok(Some(notification)) => {
                if handles_after(notification) > MAX_HANDLES_PER_MESSAGE {
                    result == Err::<Option<(IamNotification, Vec<C::Handle>)>, _>(
                        IamClientError::ProtocolError,
                    )
                } else {
                    match result {
                        Ok(Some((told, handles))) => told == notification && may_collect(
                            connection,
                            handles_after(notification),
                            Ok(handles),
                        ),
                        Ok(None) => false,
                        Err(error) => may_collect(
                            connection,
                            handles_after(notification),
                            Err(error),
                        ),
                    }
                }
            },
        }
}

/// Client for communicating with the server.
///
/// A client is connected when it is created, active once the handshake is complete, and in the
/// end disconnected.
#[derive(Debug)]
pub struct IamClient<C> {
    connection: C,
    session_id: SessionId,
    protocol_version: ProtocolVersion,
    state: ConnectionState,
}

impl<C> View for IamClient<C> {
    type V = ClientState;

    closed spec fn view(&self) -> ClientState {
        ClientState {
            session_id: self.session_id,
            protocol_version: self.protocol_version,
            state: self.state,
        }
    }
}

impl<C> IamClient<C> {
    /// The control channel connection to the server.
    pub closed spec fn channel(&self) -> C {
        self.connection
    }

    /// Creates a new client with the given connection.
    #[must_use]
    pub fn new(connection: C) -> (client: Self)
        ensures
            client@ == (ClientState {
                session_id: SessionId { value: INVALID_SESSION_ID },
                protocol_version: ProtocolVersion::current(),
                state: ConnectionState::Connected,
            }),
            client@.consistent(),
            client.channel() == connection,
    {
        IamClient {
            connection,
            session_id: SessionId::from_value(INVALID_SESSION_ID),
            protocol_version: ProtocolVersion::current(),
            state: ConnectionState::Connected,
        }
    }

    /// Returns a reference to the connection.
    pub fn connection(&self) -> (connection: &C)
        ensures
            *connection == self.channel(),
    {
        &self.connection
    }

    /// Returns the session ID assigned during handshake, zero before.
    #[must_use]
    pub fn session_id(&self) -> (id: SessionId)
        ensures
            id == self@.session_id,
    {
        self.session_id
    }

    /// Returns the negotiated protocol version, the current one before handshake.
    #[must_use]
    pub fn protocol_version(&self) -> (version: ProtocolVersion)
        ensures
            version == self@.protocol_version,
    {
        self.protocol_version
    }

    /// Returns true if the client is connected and ready for operations.
    #[must_use]
    pub fn is_active(&self) -> (active: bool)
        ensures
            active == (self@.state is Active),
    {
        match self.state {
            ConnectionState::Active => true,
            _ => false,
        }
    }

    /// Returns true if the client is connected (but may not have completed handshake).
    #[must_use]
    pub fn is_connected(&self) -> (connected: bool)
        ensures
            connected == !(self@.state is Disconnected),
    {
        match self.state {
            ConnectionState::Disconnected => false,
            _ => true,
        }
    }

    /// Ensures the client is in the active state with a valid session.
    fn ensure_active(&self) -> (result: Result<(), IamClientError>)
        ensures
            result == (if self@.active() {
                Ok(())
            } else {
                Err(IamClientError::SessionInvalid)
            }),
    {
        if self.is_active() && self.session_id.is_valid() {
            Ok(())
        } else {
            Err(IamClientError::SessionInvalid)
        }
    }
}

/// Returns why a response is not the one that was hoped for.
fn refused(response: &IamResponse) -> (error: IamClientError)
    ensures
        error == disappointment(*response),
{
    match response {
        IamResponse::Denied { message, .. } => {
            if protocol::is_within_message_limit(message.as_str()) {
                IamClientError::RequestDenied
            } else {
                IamClientError::ProtocolError
            }
        },
        _ => IamClientError::ProtocolError,
    }
}

/// Handles the response to a CreateService request.
pub fn handle_create_service_response(response: IamResponse) -> (result: Result<
    ServiceId,
    IamClientError,
>)
    ensures
        result == created_service(response),
{
    match response {
        IamResponse::CreateServiceOk { service_id } => Ok(service_id),
        _ => Err(refused(&response)),
    }
}

/// Handles the response to an attach request, up to the handles that follow it.
pub fn handle_attach_response(response: IamResponse) -> (result: Result<
    (u128, Vec<SegmentInfo>, usize),
    IamClientError,
>)
    ensures
        result == attached_port(response),
{
    match response {
        IamResponse::AttachOk { port_id, segment_info, handle_count } => {
            if segment_info.len() > MAX_SEGMENTS_PER_ATTACH {
                return Err(IamClientError::ProtocolError);
            }
            if handle_count > MAX_HANDLES_PER_MESSAGE {
                return Err(IamClientError::ProtocolError);
            }
            Ok((port_id, segment_info, handle_count))
        },
        _ => Err(refused(&response)),
    }
}

/// Handles the response to an AddSegment request, up to the handles that follow it.
pub fn handle_add_segment_response(response: IamResponse) -> (result: Result<
    (SegmentId, usize, usize),
    IamClientError,
>)
    ensures
        result == added_segment(response),
{
    match response {
        IamResponse::AddSegmentOk { segment_id, size, handle_count } => {
            if handle_count > MAX_HANDLES_PER_MESSAGE {
                return Err(IamClientError::ProtocolError);
            }
            Ok((segment_id, size, handle_count))
        },
        _ => Err(refused(&response)),
    }
}

/// Handles the response to a RequestSegmentHandle request, up to the handles that follow it.
pub fn handle_segment_handle_response(response: IamResponse) -> (grant: Result<
    Option<(SegmentInfo, usize)>,
    IamClientError,
>)
    ensures
        grant == granted_segment(response),
{
    match response {
        IamResponse::SegmentHandleOk { segment_info, handle_count } => check_announced(
            segment_info,
            handle_count,
        ),
        IamResponse::SegmentHandleNotFound => Ok(None),
        _ => Err(refused(&response)),
    }
}

/// Handles the response to a RequestDynamicSegmentHandle request, up to the handles that follow
/// it.
pub fn handle_dynamic_segment_handle_response(response: IamResponse) -> (grant: Result<
    Option<(SegmentInfo, usize)>,
    IamClientError,
>)
    ensures
        grant == granted_dynamic_segment(response),
{
    match response {
        IamResponse::DynamicSegmentHandleOk { segment_info, handle_count } => check_announced(
            segment_info,
            handle_count,
        ),
        IamResponse::DynamicSegmentPending => Ok(None),
        _ => Err(refused(&response)),
    }
}

/// Checks the number of handles that are announced for a segment.
fn check_announced(segment_info: SegmentInfo, count: usize) -> (grant: Result<
    Option<(SegmentInfo, usize)>,
    IamClientError,
>)
    ensures
        grant == announced(segment_info, count),
{
    if count > MAX_HANDLES_PER_MESSAGE {
        Err(IamClientError::ProtocolError)
    } else if count == 0 {
        Err(IamClientError::HandleReceiveFailed)
    } else {
        Ok(Some((segment_info, count)))
    }
}

/// Checks that the handles that were received are as many as were announced.
pub fn check_handles<H>(received: Result<Vec<H>, IamClientError>, count: usize) -> (checked: Result<
    Vec<H>,
    IamClientError,
>)
    ensures
        checked == counted(received, count),
{
    match received {
        Ok(handles) => {
            if handles.len() != count {
                return Err(IamClientError::HandleReceiveFailed);
            }
            Ok(handles)
        },
        Err(error) => Err(error),
    }
}

impl<C> IamClient<C> {
    /// Gives the session up, and returns `true` if there is a connection to close.
    fn let_go(&mut self) -> (close: bool)
        ensures
            close == old(self)@.must_close(),
            final(self)@ == old(self)@.closed(),
            final(self).channel() == old(self).channel(),
    {
        match self.state {
            ConnectionState::Disconnected => false,
            _ => {
                self.state = ConnectionState::Disconnected;
                self.session_id = SessionId::from_value(INVALID_SESSION_ID);
                true
            },
        }
    }
}

impl<C: ClientControlChannelConnection> IamClient<C> {
    /// Disconnects from the server. A client that is already disconnected is left alone.
    pub fn disconnect(&mut self)
        ensures
            final(self)@ == old(self)@.closed(),
            final(self).channel() == old(self).channel(),
            old(self)@.must_close() ==> old(self).channel().was_closed(),
    {
        if self.let_go() {
            self.connection.close();
        }
    }

    /// Handles the response to hello.
    ///
    /// With a compatible version and a valid session the client is active. Without, the client
    /// disconnects; a denial leaves it connected.
    pub fn handle_hello_response(&mut self, response: IamResponse) -> (result: Result<
        SessionId,
        IamClientError,
    >)
        ensures
            result == greeting(response),
            final(self)@ == old(self)@.greeted(response),
            final(self).channel() == old(self).channel(),
            old(self)@.must_close() && !final(self)@.must_close() ==> old(self).channel().was_closed(),
    {
        match response {
            IamResponse::HelloOk { negotiated_version, session_id } => {
                if !ProtocolVersion::current().is_compatible_with(&negotiated_version) {
                    self.disconnect();
                    return Err(IamClientError::VersionMismatch);
                }
                if !session_id.is_valid() {
                    self.disconnect();
                    return Err(IamClientError::HandshakeFailed);
                }
                self.protocol_version = negotiated_version;
                self.session_id = session_id;
                self.state = ConnectionState::Active;
                Ok(session_id)
            },
            IamResponse::Denied { reason, message } => {
                if !protocol::is_within_message_limit(message.as_str()) {
                    return Err(IamClientError::ProtocolError);
                }
                match reason {
                    DenialReason::VersionMismatch => Err(IamClientError::VersionMismatch),
                    _ => Err(IamClientError::RequestDenied),
                }
            },
            IamResponse::ProtocolError { .. } => Err(IamClientError::ProtocolError),
            _ => Err(IamClientError::HandshakeFailed),
        }
    }

    /// Sends a request and waits for the response.
    fn exchange(&self, request: &IamRequest) -> (answer: Result<IamResponse, IamClientError>)
        ensures
            may_answer(self.channel(), *request, answer),
    {
        let sent = self.connection.send_request(request);
        assert(self.channel().may_send(*request, sent));
        match sent {
            Ok(()) => self.connection.receive_response(),
            Err(error) => Err(error),
        }
    }

    /// Waits for handles that were announced.
    fn collect(&self, count: usize) -> (collected: Result<Vec<C::Handle>, IamClientError>)
        ensures
            may_collect(self.channel(), count, collected),
    {
        if count == 0 {
            return Ok(Vec::new());
        }
        let received = self.connection.receive_handles(count);
        assert(self.channel().may_receive_handles(count, received));
        check_handles(received, count)
    }

    /// Performs the handshake with the server: says hello with the current version and the node
    /// identifier.
    ///
    /// Only a client that is connected, and not active, can do so; for any other it is
    /// [`IamClientError::HandshakeFailed`]. Errors of the connection are handed on.
    pub fn handshake(&mut self, node_id: UniqueSystemId) -> (result: Result<
        SessionId,
        IamClientError,
    >)
        ensures
            !(old(self)@.state is Connected) ==> result == Err::<SessionId, _>(
                IamClientError::HandshakeFailed,
            ) && final(self)@ == old(self)@,
            old(self)@.state is Connected ==> exists|
                answer: Result<IamResponse, IamClientError>,
            | #[trigger]
                may_answer(
                    old(self).channel(),
                    IamRequest::Hello { protocol_version: ProtocolVersion::current(), node_id },
                    answer,
                ) && match answer {
                    Ok(response) => result == greeting(response) && final(self)@ == old(self)@.greeted(response),
                    Err(error) => result == Err::<SessionId, _>(error) && final(self)@
                        == old(self)@,
                },
            final(self).channel() == old(self).channel(),
            old(self)@.must_close() && !final(self)@.must_close()
                ==> old(self).channel().was_closed(),
    {
        match self.state {
            ConnectionState::Connected => {},
            _ => {
                return Err(IamClientError::HandshakeFailed);
            },
        }
        let request = IamRequest::Hello { protocol_version: ProtocolVersion::current(), node_id };
        match self.exchange(&request) {
            Ok(response) => self.handle_hello_response(response),
            Err(error) => Err(error),
        }
    }

    /// Creates a new service on the server.
    ///
    /// As for all requests, a client that is not active gets
    /// [`IamClientError::SessionInvalid`] and nothing is sent; errors of the connection are
    /// handed on.
    pub fn create_service(
        &mut self,
        service_name: &ServiceName,
        messaging_pattern: MessagingPatternKind,
    ) -> (result: Result<ServiceId, IamClientError>)
        ensures
            !old(self)@.active() ==> result == Err::<ServiceId, _>(IamClientError::SessionInvalid),
            old(self)@.active() ==> exists|answer: Result<IamResponse, IamClientError>| #[trigger]
                may_answer(
                    old(self).channel(),
                    IamRequest::CreateService { service_name: *service_name, messaging_pattern },
                    answer,
                ) && result == (match answer {
                    Ok(response) => created_service(response),
                    Err(error) => Err(error),
                }),
            final(self)@ == old(self)@,
            final(self).channel() == old(self).channel(),
    {
        if let Err(error) = self.ensure_active() {
            return Err(error);
        }
        let request = IamRequest::CreateService {
            service_name: service_name.clone(),
            messaging_pattern,
        };
        match self.exchange(&request) {
            Ok(response) => handle_create_service_response(response),
            Err(error) => Err(error),
        }
    }

    /// Sends an attach request and waits for the port, its segments and their handles.
    fn attach(&self, request: &IamRequest) -> (result: Result<
        (u128, Vec<SegmentInfo>, Vec<C::Handle>),
        IamClientError,
    >)
        ensures
            may_attach(self.channel(), *request, result),
    {
        let answer = self.exchange(request);
        assert(may_answer(self.channel(), *request, answer));
        let response = match answer {
            Ok(response) => response,
            Err(error) => {
                return Err(error);
            },
        };
        match handle_attach_response(response) {
            Ok((port_id, segment_info, count)) => match self.collect(count) {
                Ok(handles) => Ok((port_id, segment_info, handles)),
                Err(error) => Err(error),
            },
            Err(error) => Err(error),
        }
    }

    /// Attaches as a publisher to a service and returns the port with its segments and their
    /// handles.
    pub fn attach_publisher(
        &mut self,
        service_id: &ServiceId,
        history_size: usize,
        max_slice_len: usize,
    ) -> (result: Result<(u128, Vec<SegmentInfo>, Vec<C::Handle>), IamClientError>)
        ensures
            !old(self)@.active() ==> result == Err::<
                (u128, Vec<SegmentInfo>, Vec<C::Handle>),
                _,
            >(IamClientError::SessionInvalid),
            old(self)@.active() ==> may_attach(
                old(self).channel(),
                IamRequest::AttachPublisher {
                    service_id: *service_id,
                    history_size,
                    max_slice_len,
                },
                result,
            ),
            final(self)@ == old(self)@,
            final(self).channel() == old(self).channel(),
    {
        if let Err(error) = self.ensure_active() {
            return Err(error);
        }
        self.attach(
            &IamRequest::AttachPublisher {
                service_id: service_id.clone(),
                history_size,
                max_slice_len,
            },
        )
    }

    /// Attaches as a subscriber to a service and returns the port with its segments and their
    /// handles.
    pub fn attach_subscriber(&mut self, service_id: &ServiceId, buffer_size: usize) -> (result:
        Result<(u128, Vec<SegmentInfo>, Vec<C::Handle>), IamClientError>)
        ensures
            !old(self)@.active() ==> result == Err::<
                (u128, Vec<SegmentInfo>, Vec<C::Handle>),
                _,
            >(IamClientError::SessionInvalid),
            old(self)@.active() ==> may_attach(
                old(self).channel(),
                IamRequest::AttachSubscriber { service_id: *service_id, buffer_size },
                result,
            ),
            final(self)@ == old(self)@,
            final(self).channel() == old(self).channel(),
    {
        if let Err(error) = self.ensure_active() {
            return Err(error);
        }
        self.attach(
            &IamRequest::AttachSubscriber { service_id: service_id.clone(), buffer_size },
        )
    }

    /// Attaches as a server to a service and returns the port with its segments and their
    /// handles.
    pub fn attach_server(&mut self, service_id: &ServiceId, max_active_requests: usize) -> (result:
        Result<(u128, Vec<SegmentInfo>, Vec<C::Handle>), IamClientError>)
        ensures
            !old(self)@.active() ==> result == Err::<
                (u128, Vec<SegmentInfo>, Vec<C::Handle>),
                _,
            >(IamClientError::SessionInvalid),
            old(self)@.active() ==> may_attach(
                old(self).channel(),
                IamRequest::AttachServer { service_id: *service_id, max_active_requests },
                result,
            ),
            final(self)@ == old(self)@,
            final(self).channel() == old(self).channel(),
    {
        if let Err(error) = self.ensure_active() {
            return Err(error);
        }
        self.attach(
            &IamRequest::AttachServer { service_id: service_id.clone(), max_active_requests },
        )
    }

    /// Attaches as a client to a service and returns the port with its segments and their
    /// handles.
    pub fn attach_client(&mut self, service_id: &ServiceId, max_pending_responses: usize) -> (result:
        Result<(u128, Vec<SegmentInfo>, Vec<C::Handle>), IamClientError>)
        ensures
            !old(self)@.active() ==> result == Err::<
                (u128, Vec<SegmentInfo>, Vec<C::Handle>),
                _,
            >(IamClientError::SessionInvalid),
            old(self)@.active() ==> may_attach(
                old(self).channel(),
                IamRequest::AttachClient { service_id: *service_id, max_pending_responses },
                result,
            ),
            final(self)@ == old(self)@,
            final(self).channel() == old(self).channel(),
    {
        if let Err(error) = self.ensure_active() {
            return Err(error);
        }
        self.attach(
            &IamRequest::AttachClient { service_id: service_id.clone(), max_pending_responses },
        )
    }

    /// Detaches a port from a service.
    pub fn detach(&mut self, service_id: &ServiceId, port_id: u128) -> (result: Result<
        (),
        IamClientError,
    >)
        ensures
            !old(self)@.active() ==> result == Err::<(), _>(IamClientError::SessionInvalid),
            old(self)@.active() ==> exists|answer: Result<IamResponse, IamClientError>| #[trigger]
                may_answer(
                    old(self).channel(),
                    IamRequest::Detach { service_id: *service_id, port_id },
                    answer,
                ) && result == (match answer {
                    Ok(IamResponse::DetachOk) => Ok(()),
                    Ok(response) => Err(disappointment(response)),
                    Err(error) => Err(error),
                }),
            final(self)@ == old(self)@,
            final(self).channel() == old(self).channel(),
    {
        if let Err(error) = self.ensure_active() {
            return Err(error);
        }
        let request = IamRequest::Detach { service_id: service_id.clone(), port_id };
        match self.exchange(&request) {
            Ok(IamResponse::DetachOk) => Ok(()),
            Ok(response) => Err(refused(&response)),
            Err(error) => Err(error),
        }
    }

    /// Adds a new segment for a port and returns it with its actual size and its handles.
    pub fn add_segment(
        &mut self,
        service_id: &ServiceId,
        port_id: u128,
        requested_size: usize,
        bucket_size: usize,
        bucket_align: usize,
    ) -> (result: Result<(SegmentId, usize, Vec<C::Handle>), IamClientError>)
        ensures
            !old(self)@.active() ==> result == Err::<(SegmentId, usize, Vec<C::Handle>), _>(
                IamClientError::SessionInvalid,
            ),
            old(self)@.active() ==> may_add_segment(
                old(self).channel(),
                IamRequest::AddSegment {
                    service_id: *service_id,
                    port_id,
                    requested_size,
                    bucket_size,
                    bucket_align,
                },
                result,
            ),
            final(self)@ == old(self)@,
            final(self).channel() == old(self).channel(),
    {
        if let Err(error) = self.ensure_active() {
            return Err(error);
        }
        let request = IamRequest::AddSegment {
            service_id: service_id.clone(),
            port_id,
            requested_size,
            bucket_size,
            bucket_align,
        };
        let answer = self.exchange(&request);
        assert(may_answer(self.channel(), request, answer));
        let response = match answer {
            Ok(response) => response,
            Err(error) => {
                return Err(error);
            },
        };
        match handle_add_segment_response(response) {
            Ok((segment_id, size, count)) => match self.collect(count) {
                Ok(handles) => Ok((segment_id, size, handles)),
                Err(error) => Err(error),
            },
            Err(error) => Err(error),
        }
    }

    /// Acknowledges a segment retirement notification.
    pub fn ack_retirement(&mut self, service_id: &ServiceId, segment_id: SegmentId) -> (result:
        Result<(), IamClientError>)
        ensures
            !old(self)@.active() ==> result == Err::<(), _>(IamClientError::SessionInvalid),
            old(self)@.active() ==> exists|answer: Result<IamResponse, IamClientError>| #[trigger]
                may_answer(
                    old(self).channel(),
                    IamRequest::AckSegmentRetirement { service_id: *service_id, segment_id },
                    answer,
                ) && result == (match answer {
                    Ok(IamResponse::AckOk) => Ok(()),
                    Ok(response) => Err(disappointment(response)),
                    Err(error) => Err(error),
                }),
            final(self)@ == old(self)@,
            final(self).channel() == old(self).channel(),
    {
        if let Err(error) = self.ensure_active() {
            return Err(error);
        }
        let request = IamRequest::AckSegmentRetirement {
            service_id: service_id.clone(),
            segment_id,
        };
        match self.exchange(&request) {
            Ok(IamResponse::AckOk) => Ok(()),
            Ok(response) => Err(refused(&response)),
            Err(error) => Err(error),
        }
    }

    /// Sends a request and the handle that it announces, and waits for the response.
    fn exchange_with_handle(&self, request: &IamRequest, handle: &C::Handle) -> (answer: Result<
        IamResponse,
        IamClientError,
    >)
        ensures
            may_answer_to_handle(self.channel(), *request, *handle, answer),
    {
        let sent = self.connection.send_request(request);
        assert(self.channel().may_send(*request, sent));
        match sent {
            Ok(()) => {
                let passed = self.connection.send_handle(handle);
                assert(self.channel().may_send_handle(*handle, passed));
                match passed {
                    Ok(()) => self.connection.receive_response(),
                    Err(error) => Err(error),
                }
            },
            Err(error) => Err(error),
        }
    }

    /// Waits for the handles of a segment that was granted.
    fn obtain(&self, grant: Result<Option<(SegmentInfo, usize)>, IamClientError>) -> (result:
        Result<Option<(SegmentInfo, C::Handle)>, IamClientError>)
        requires
            grant matches Ok(Some((_, count))) ==> count > 0,
        ensures
            may_obtain(self.channel(), grant, result),
    {
        match grant {
            Err(error) => Err(error),
            Ok(None) => Ok(None),
            Ok(Some((segment_info, count))) => {
                let collected = self.collect(count);
                assert(may_collect(self.channel(), count, collected));
                match collected {
                    Ok(mut handles) => Ok(Some((segment_info, handles.remove(0)))),
                    Err(error) => Err(error),
                }
            },
        }
    }

    /// Registers a segment that the port has created, and hands its handle to the server for
    /// brokering.
    pub fn register_segment(
        &mut self,
        service_id: &ServiceId,
        port_id: u128,
        segment_size: usize,
        handle: &C::Handle,
    ) -> (result: Result<SegmentId, IamClientError>)
        ensures
            !old(self)@.active() ==> result == Err::<SegmentId, _>(IamClientError::SessionInvalid),
            old(self)@.active() ==> may_register_segment(
                old(self).channel(),
                IamRequest::RegisterSegment {
                    service_id: *service_id,
                    port_id,
                    segment_size,
                    handle_count: 1,
                },
                *handle,
                result,
            ),
            final(self)@ == old(self)@,
            final(self).channel() == old(self).channel(),
    {
        if let Err(error) = self.ensure_active() {
            return Err(error);
        }
        let request = IamRequest::RegisterSegment {
            service_id: service_id.clone(),
            port_id,
            segment_size,
            handle_count: 1,
        };
        let answer = self.exchange_with_handle(&request, handle);
        assert(may_answer_to_handle(self.channel(), request, *handle, answer));
        match answer {
            Ok(IamResponse::RegisterSegmentOk { segment_id }) => Ok(segment_id),
            Ok(response) => Err(refused(&response)),
            Err(error) => Err(error),
        }
    }

    /// Requests the handle of a producer's segment. There may be none yet.
    pub fn request_segment_handle(&mut self, service_id: &ServiceId, sender_port_id: u128) -> (result:
        Result<Option<(SegmentInfo, C::Handle)>, IamClientError>)
        ensures
            !old(self)@.active() ==> result == Err::<Option<(SegmentInfo, C::Handle)>, _>(
                IamClientError::SessionInvalid,
            ),
            old(self)@.active() ==> may_request_segment(
                old(self).channel(),
                IamRequest::RequestSegmentHandle { service_id: *service_id, sender_port_id },
                result,
            ),
            final(self)@ == old(self)@,
            final(self).channel() == old(self).channel(),
    {
        if let Err(error) = self.ensure_active() {
            return Err(error);
        }
        let request = IamRequest::RequestSegmentHandle {
            service_id: service_id.clone(),
            sender_port_id,
        };
        let answer = self.exchange(&request);
        assert(may_answer(self.channel(), request, answer));
        match answer {
            Ok(response) => self.obtain(handle_segment_handle_response(response)),
            Err(error) => Err(error),
        }
    }

    /// Registers a segment of the port's dynamic segment set under an index, and hands its
    /// handle to the server for brokering.
    pub fn register_dynamic_segment(
        &mut self,
        service_id: &ServiceId,
        port_id: u128,
        segment_index: u8,
        segment_size: usize,
        handle: &C::Handle,
    ) -> (result: Result<u8, IamClientError>)
        ensures
            !old(self)@.active() ==> result == Err::<u8, _>(IamClientError::SessionInvalid),
            old(self)@.active() ==> may_register_dynamic_segment(
                old(self).channel(),
                IamRequest::RegisterDynamicSegment {
                    service_id: *service_id,
                    port_id,
                    segment_id: segment_index,
                    segment_size,
                    handle_count: 1,
                },
                *handle,
                result,
            ),
            final(self)@ == old(self)@,
            final(self).channel() == old(self).channel(),
    {
        if let Err(error) = self.ensure_active() {
            return Err(error);
        }
        let request = IamRequest::RegisterDynamicSegment {
            service_id: service_id.clone(),
            port_id,
            segment_id: segment_index,
            segment_size,
            handle_count: 1,
        };
        let answer = self.exchange_with_handle(&request, handle);
        assert(may_answer_to_handle(self.channel(), request, *handle, answer));
        match answer {
            Ok(IamResponse::RegisterDynamicSegmentOk { segment_id }) => Ok(segment_id),
            Ok(response) => Err(refused(&response)),
            Err(error) => Err(error),
        }
    }

    /// Requests the handle of one segment of a producer's dynamic segment set. It may not be
    /// registered yet.
    pub fn request_dynamic_segment_handle(
        &mut self,
        service_id: &ServiceId,
        sender_port_id: u128,
        segment_index: u8,
    ) -> (result: Result<Option<(SegmentInfo, C::Handle)>, IamClientError>)
        ensures
            !old(self)@.active() ==> result == Err::<Option<(SegmentInfo, C::Handle)>, _>(
                IamClientError::SessionInvalid,
            ),
            old(self)@.active() ==> may_request_dynamic_segment(
                old(self).channel(),
                IamRequest::RequestDynamicSegmentHandle {
                    service_id: *service_id,
                    sender_port_id,
                    segment_id: segment_index,
                },
                result,
            ),
            final(self)@ == old(self)@,
            final(self).channel() == old(self).channel(),
    {
        if let Err(error) = self.ensure_active() {
            return Err(error);
        }
        let request = IamRequest::RequestDynamicSegmentHandle {
            service_id: service_id.clone(),
            sender_port_id,
            segment_id: segment_index,
        };
        let answer = self.exchange(&request);
        assert(may_answer(self.channel(), request, answer));
        match answer {
            Ok(response) => self.obtain(handle_dynamic_segment_handle_response(response)),
            Err(error) => Err(error),
        }
    }

    /// Looks for a notification without blocking. The handles of a segment update are waited
    /// for.
    pub fn try_receive_notification(&mut self) -> (result: Result<
        Option<(IamNotification, Vec<C::Handle>)>,
        IamClientError,
    >)
        ensures
            !old(self)@.active() ==> result == Err::<
                Option<(IamNotification, Vec<C::Handle>)>,
                _,
            >(IamClientError::SessionInvalid),
            old(self)@.active() ==> may_be_notified(old(self).channel(), result),
            final(self)@ == old(self)@,
            final(self).channel() == old(self).channel(),
    {
        if let Err(error) = self.ensure_active() {
            return Err(error);
        }
        let noticed = self.connection.try_receive_notification();
        assert(self.channel().may_notice(noticed));
        let notification = match noticed {
            Ok(Some(notification)) => notification,
            Ok(None) => {
                return Ok(None);
            },
            Err(error) => {
                return Err(error);
            },
        };
        let count: usize = match notification {
            IamNotification::SegmentUpdate { handle_count, .. } => handle_count,
            _ => 0,
        };
        if count > MAX_HANDLES_PER_MESSAGE {
            return Err(IamClientError::ProtocolError);
        }
        match self.collect(count) {
            Ok(handles) => Ok(Some((notification, handles))),
            Err(error) => Err(error),
        }
    }
}

/// A disconnected client stays disconnected, and disconnecting it again changes nothing.
pub proof fn law_disconnecting_again_changes_nothing(client: ClientState)
    ensures
        client.closed().closed() == client.closed(),
        client.closed().state is Disconnected,
{
}

/// However often a client disconnects, it closes its connection exactly once, the first time, and
/// not at all if it had none; each further time changes nothing.
pub proof fn law_connection_is_closed_once(client: ClientState, times: nat)
    requires
        times > 0,
    ensures
        client.closings(times) == (if client.must_close() {
            1nat
        } else {
            0nat
        }),
        client.closed().closings(times) == 0,
        client.closed().closed() == client.closed(),
{
    lemma_nothing_left_to_close(client.closed(), times);
    lemma_nothing_left_to_close(client.closed(), (times - 1) as nat);
}

proof fn lemma_nothing_left_to_close(client: ClientState, times: nat)
    requires
        client.state is Disconnected,
    ensures
        client.closings(times) == 0,
    decreases times,
{
    if times > 0 {
        lemma_nothing_left_to_close(client, (times - 1) as nat);
    }
}

/// A client that has disconnected holds no session, and sends no request: every operation
/// answers [`IamClientError::SessionInvalid`].
pub proof fn law_disconnected_client_is_inactive(client: ClientState)
    requires
        client.consistent(),
    ensures
        !client.closed().active(),
        client.closed().session_id.value == INVALID_SESSION_ID,
{
}

/// A client has a session exactly while it is active: a new client has none, and neither
/// disconnecting nor an answer to hello changes that. No other operation changes the client.
pub proof fn law_session_is_held_while_active(client: ClientState, response: IamResponse)
    requires
        client.consistent(),
    ensures
        client.closed().consistent(),
        client.greeted(response).consistent(),
{
}

/// A handshake succeeds exactly if it makes the client active, and what it gives is the client's
/// session.
pub proof fn law_handshake_activates(client: ClientState, response: IamResponse)
    requires
        client.state is Connected,
    ensures
        greeting(response) is Ok <==> client.greeted(response).active(),
        greeting(response) matches Ok(session_id) ==> client.greeted(response).session_id
            == session_id,
{
}

/// A denial leaves the client connected: it may try the handshake again.
pub proof fn law_denied_handshake_may_be_repeated(client: ClientState, response: IamResponse)
    requires
        client.state is Connected,
        response is Denied,
    ensures
        greeting(response) is Err,
        client.greeted(response) == client,
{
}

/// A client never becomes active with a server of another major version: it disconnects.
pub proof fn law_other_major_version_is_refused(client: ClientState, response: IamResponse)
    requires
        client.state is Connected,
        response is HelloOk,
        response->HelloOk_negotiated_version.major != ProtocolVersion::current().major,
    ensures
        greeting(response) == Err::<SessionId, _>(IamClientError::VersionMismatch),
        client.greeted(response).state is Disconnected,
{
}

/// Hello is answered with a session by a server of major version 1, whose session number is not
/// zero; by any other server it is answered in vain. A denial for the version is told from other
/// denials, and one of more than 512 bytes, or anything else that is no answer to hello, is none.
pub proof fn law_greetings_are_read(response: IamResponse)
    ensures
        ({
            let read = greeting(response);
            match response {
                IamResponse::HelloOk { negotiated_version, session_id } => {
                    if negotiated_version.major != 1 {
                        read == Err::<SessionId, _>(IamClientError::VersionMismatch)
                    } else if session_id.value == 0 {
                        read == Err::<SessionId, _>(IamClientError::HandshakeFailed)
                    } else {
                        read == Ok::<SessionId, IamClientError>(session_id)
                    }
                },
                IamResponse::Denied { reason, message } => {
                    if vstd::utf8::encode_utf8(message@).len() > 512 {
                        read == Err::<SessionId, _>(IamClientError::ProtocolError)
                    } else if reason is VersionMismatch {
                        read == Err::<SessionId, _>(IamClientError::VersionMismatch)
                    } else {
                        read == Err::<SessionId, _>(IamClientError::RequestDenied)
                    }
                },
                IamResponse::ProtocolError { .. } => read == Err::<SessionId, _>(
                    IamClientError::ProtocolError,
                ),
                _ => read == Err::<SessionId, _>(IamClientError::HandshakeFailed),
            }
        }),
{
}

/// What an answer to hello makes of a client: a session and the server's version make it active; a
/// version that does not fit, or no session, closes its connection; any other answer leaves it.
pub proof fn law_greetings_change_the_client(client: ClientState, response: IamResponse)
    ensures
        ({
            let after = client.greeted(response);
            match response {
                IamResponse::HelloOk { negotiated_version, session_id } => {
                    if negotiated_version.major == 1 && session_id.value != 0 {
                        &&& after.session_id == session_id
                        &&& after.protocol_version == negotiated_version
                        &&& after.state is Active
                    } else {
                        &&& after.state is Disconnected
                        &&& !(client.state is Disconnected) ==> after.session_id.value == 0
                        &&& after.protocol_version == client.protocol_version
                    }
                },
                _ => after == client,
            }
        }),
{
}

/// A client can send requests exactly while its handshake is complete and it has a session; closing
/// the connection takes both from it.
pub proof fn law_clients_are_active_with_a_session(client: ClientState)
    ensures
        client.active() <==> client.state is Active && client.session_id.value != 0,
        client.must_close() <==> client.state is Connected || client.state is Active,
        client.closed().state is Disconnected,
        client.must_close() ==> client.closed().session_id.value == 0,
        client.closed().protocol_version == client.protocol_version,
{
}

/// A response that is not the one that was hoped for is a denial, if it is one of 512 bytes at most;
/// else it is a protocol error.
pub open spec fn let_down(response: IamResponse) -> IamClientError {
    if response is Denied && vstd::utf8::encode_utf8(response->Denied_message@).len() <= 512 {
        IamClientError::RequestDenied
    } else {
        IamClientError::ProtocolError
    }
}

/// Each response is understood as what it is, for the request that it answers, and for no other: the
/// service, the port with its segments, 256 at most, and the number of handles, 64 at most, the
/// segment with its size and the number of handles, the segment, and the index.
pub proof fn law_responses_are_read(response: IamResponse)
    ensures
        created_service(response) == (match response {
            IamResponse::CreateServiceOk { service_id } => Ok(service_id),
            _ => Err(let_down(response)),
        }),
        attached_port(response) == (match response {
            IamResponse::AttachOk { port_id, segment_info, handle_count } => {
                if segment_info@.len() <= 256 && handle_count <= 64 {
                    Ok((port_id, segment_info, handle_count))
                } else {
                    Err(IamClientError::ProtocolError)
                }
            },
            _ => Err(let_down(response)),
        }),
        added_segment(response) == (match response {
            IamResponse::AddSegmentOk { segment_id, size, handle_count } => {
                if handle_count <= 64 {
                    Ok((segment_id, size, handle_count))
                } else {
                    Err(IamClientError::ProtocolError)
                }
            },
            _ => Err(let_down(response)),
        }),
        registered_segment(response) == (match response {
            IamResponse::RegisterSegmentOk { segment_id } => Ok(segment_id),
            _ => Err(let_down(response)),
        }),
        registered_index(response) == (match response {
            IamResponse::RegisterDynamicSegmentOk { segment_id } => Ok(segment_id),
            _ => Err(let_down(response)),
        }),
{
}

/// The answer to a request for a segment announces one handle at least and 64 at most, or says that
/// there is none; more are a protocol error, and a segment without a handle is a failure.
pub proof fn law_grants_are_read(response: IamResponse)
    ensures
        granted_segment(response) == (match response {
            IamResponse::SegmentHandleOk { segment_info, handle_count } => {
                if handle_count > 64 {
                    Err(IamClientError::ProtocolError)
                } else if handle_count < 1 {
                    Err(IamClientError::HandleReceiveFailed)
                } else {
                    Ok(Some((segment_info, handle_count)))
                }
            },
            IamResponse::SegmentHandleNotFound => Ok(None),
            _ => Err(let_down(response)),
        }),
        granted_dynamic_segment(response) == (match response {
            IamResponse::DynamicSegmentHandleOk { segment_info, handle_count } => {
                if handle_count > 64 {
                    Err(IamClientError::ProtocolError)
                } else if handle_count < 1 {
                    Err(IamClientError::HandleReceiveFailed)
                } else {
                    Ok(Some((segment_info, handle_count)))
                }
            },
            IamResponse::DynamicSegmentPending => Ok(None),
            _ => Err(let_down(response)),
        }),
{
}

/// Handles follow only a notification of a new segment, as many as it announces; handles that are
/// not as many as were announced are a failure.
pub proof fn law_handles_are_counted<H>(
    notification: IamNotification,
    handles: Vec<H>,
    error: IamClientError,
    count: usize,
)
    ensures
        handles_after(notification) == (match notification {
            IamNotification::SegmentUpdate { handle_count, .. } => handle_count,
            IamNotification::SegmentRetiring { .. } => 0,
            IamNotification::PortJoined { .. } => 0,
            IamNotification::PortLeft { .. } => 0,
            IamNotification::ServiceStopping => 0,
        }),
        handles@.len() == count ==> counted(Ok(handles), count) == Ok::<Vec<H>, IamClientError>(
            handles,
        ),
        handles@.len() != count ==> counted(Ok(handles), count) == Err::<Vec<H>, _>(
            IamClientError::HandleReceiveFailed,
        ),
        counted(Err::<Vec<H>, _>(error), count) == Err::<Vec<H>, _>(error),
{
}

/// Whether a server that was sent a request may have answered with a response.
pub open spec fn heard<C: ClientControlChannelConnection>(
    connection: C,
    request: IamRequest,
    response: IamResponse,
) -> bool {
    exists|sent: Result<(), IamClientError>| #[trigger]
        connection.may_send(request, sent) && sent is Ok && connection.may_receive(Ok(response))
}

/// Whether handles may have arrived, as many as were announced.
pub open spec fn arrived<C: ClientControlChannelConnection>(
    connection: C,
    count: usize,
    handles: Vec<C::Handle>,
) -> bool {
    handles@.len() == count && (count > 0 ==> connection.may_receive_handles(count, Ok(handles)))
}

proof fn lemma_arrived<C: ClientControlChannelConnection>(
    connection: C,
    count: usize,
    handles: Vec<C::Handle>,
)
    requires
        may_collect(connection, count, Ok(handles)),
    ensures
        arrived(connection, count, handles),
{
    if count > 0 {
        let collected: Result<Vec<C::Handle>, IamClientError> = Ok(handles);
        let received = choose|received: Result<Vec<C::Handle>, IamClientError>| #[trigger]
            connection.may_receive_handles(count, received) && collected == counted(
                received,
                count,
            );
        assert(received == Ok::<Vec<C::Handle>, IamClientError>(handles));
    }
}

/// A port that a client has attached is one that the server has answered with, with its very
/// identifier and segments, and as many handles as it has announced, all of which have arrived.
pub proof fn law_attached_ports_are_the_servers<C: ClientControlChannelConnection>(
    connection: C,
    request: IamRequest,
    port_id: u128,
    segment_info: Vec<SegmentInfo>,
    handles: Vec<C::Handle>,
)
    requires
        may_attach(connection, request, Ok((port_id, segment_info, handles))),
    ensures
        handles@.len() <= 64,
        segment_info@.len() <= 256,
        heard(
            connection,
            request,
            IamResponse::AttachOk { port_id, segment_info, handle_count: handles@.len() as usize },
        ),
        arrived(connection, handles@.len() as usize, handles),
{
    let result: Result<(u128, Vec<SegmentInfo>, Vec<C::Handle>), IamClientError> = Ok(
        (port_id, segment_info, handles),
    );
    let answer = choose|answer: Result<IamResponse, IamClientError>| #[trigger]
        may_answer(connection, request, answer) && match answer {
            Err(error) => result == Err::<(u128, Vec<SegmentInfo>, Vec<C::Handle>), _>(error),
            Ok(response) => match attached_port(response) {
                Err(error) => result == Err::<(u128, Vec<SegmentInfo>, Vec<C::Handle>), _>(error),
                Ok((port_id, segment_info, count)) => match result {
                    Ok((id, info, handles)) => id == port_id && info == segment_info
                        && may_collect(connection, count, Ok(handles)),
                    Err(error) => may_collect(connection, count, Err(error)),
                },
            },
        };
    let response = answer->Ok_0;
    let count = response->AttachOk_handle_count;
    lemma_arrived(connection, count, handles);
    lemma_heard(connection, request, response);
    assert(response == (IamResponse::AttachOk {
        port_id,
        segment_info,
        handle_count: handles@.len() as usize,
    }));
}

proof fn lemma_heard<C: ClientControlChannelConnection>(
    connection: C,
    request: IamRequest,
    response: IamResponse,
)
    requires
        may_answer(connection, request, Ok(response)),
    ensures
        heard(connection, request, response),
{
    let answer: Result<IamResponse, IamClientError> = Ok(response);
    let sent = choose|sent: Result<(), IamClientError>| #[trigger]
        connection.may_send(request, sent) && match sent {
            Ok(_) => connection.may_receive(answer),
            Err(error) => answer == Err::<IamResponse, _>(error),
        };
    assert(connection.may_send(request, sent) && sent is Ok);
}

/// A segment that a client has added is one that the server has answered with, with its very
/// identifier and size, and as many handles as it has announced, all of which have arrived.
pub proof fn law_added_segments_are_the_servers<C: ClientControlChannelConnection>(
    connection: C,
    request: IamRequest,
    segment_id: SegmentId,
    size: usize,
    handles: Vec<C::Handle>,
)
    requires
        may_add_segment(connection, request, Ok((segment_id, size, handles))),
    ensures
        handles@.len() <= 64,
        heard(
            connection,
            request,
            IamResponse::AddSegmentOk { segment_id, size, handle_count: handles@.len() as usize },
        ),
        arrived(connection, handles@.len() as usize, handles),
{
    let result: Result<(SegmentId, usize, Vec<C::Handle>), IamClientError> = Ok(
        (segment_id, size, handles),
    );
    let answer = choose|answer: Result<IamResponse, IamClientError>| #[trigger]
        may_answer(connection, request, answer) && match answer {
            Err(error) => result == Err::<(SegmentId, usize, Vec<C::Handle>), _>(error),
            Ok(response) => match added_segment(response) {
                Err(error) => result == Err::<(SegmentId, usize, Vec<C::Handle>), _>(error),
                Ok((segment_id, size, count)) => match result {
                    Ok((id, actual_size, handles)) => id == segment_id && actual_size == size
                        && may_collect(connection, count, Ok(handles)),
                    Err(error) => may_collect(connection, count, Err(error)),
                },
            },
        };
    let response = answer->Ok_0;
    lemma_arrived(connection, response->AddSegmentOk_handle_count, handles);
    lemma_heard(connection, request, response);
    assert(response == (IamResponse::AddSegmentOk {
        segment_id,
        size,
        handle_count: handles@.len() as usize,
    }));
}

/// Whether a server that was sent a request and then a handle may have answered with a response.
pub open spec fn heard_of_handle<C: ClientControlChannelConnection>(
    connection: C,
    request: IamRequest,
    handle: C::Handle,
    response: IamResponse,
) -> bool {
    &&& connection.may_receive(Ok(response))
    &&& exists|sent: Result<(), IamClientError>| #[trigger]
        connection.may_send(request, sent) && sent is Ok
    &&& exists|passed: Result<(), IamClientError>| #[trigger]
        connection.may_send_handle(handle, passed) && passed is Ok
}

proof fn lemma_heard_of_handle<C: ClientControlChannelConnection>(
    connection: C,
    request: IamRequest,
    handle: C::Handle,
    response: IamResponse,
)
    requires
        may_answer_to_handle(connection, request, handle, Ok(response)),
    ensures
        heard_of_handle(connection, request, handle, response),
{
    let answer: Result<IamResponse, IamClientError> = Ok(response);
    let sent = choose|sent: Result<(), IamClientError>| #[trigger]
        connection.may_send(request, sent) && match sent {
            Ok(_) => may_answer_handle(connection, handle, answer),
            Err(error) => answer == Err::<IamResponse, _>(error),
        };
    assert(connection.may_send(request, sent) && sent is Ok);
    let passed = choose|passed: Result<(), IamClientError>| #[trigger]
        connection.may_send_handle(handle, passed) && match passed {
            Ok(_) => connection.may_receive(answer),
            Err(error) => answer == Err::<IamResponse, _>(error),
        };
    assert(connection.may_send_handle(handle, passed) && passed is Ok);
}

/// A segment that a client has registered is one whose request and handle the server was sent, and
/// that it has answered with the very identifier, or index.
pub proof fn law_registered_segments_are_the_servers<C: ClientControlChannelConnection>(
    connection: C,
    request: IamRequest,
    handle: C::Handle,
    segment_id: SegmentId,
    index: u8,
)
    ensures
        may_register_segment(connection, request, handle, Ok(segment_id)) ==> heard_of_handle(
            connection,
            request,
            handle,
            IamResponse::RegisterSegmentOk { segment_id },
        ),
        may_register_dynamic_segment(connection, request, handle, Ok(index)) ==> heard_of_handle(
            connection,
            request,
            handle,
            IamResponse::RegisterDynamicSegmentOk { segment_id: index },
        ),
{
    if may_register_segment(connection, request, handle, Ok(segment_id)) {
        let result: Result<SegmentId, IamClientError> = Ok(segment_id);
        let answer = choose|answer: Result<IamResponse, IamClientError>| #[trigger]
            may_answer_to_handle(connection, request, handle, answer) && result == (match answer {
                Ok(response) => registered_segment(response),
                Err(error) => Err(error),
            });
        lemma_heard_of_handle(connection, request, handle, answer->Ok_0);
        assert(answer->Ok_0 == (IamResponse::RegisterSegmentOk { segment_id }));
    }
    if may_register_dynamic_segment(connection, request, handle, Ok(index)) {
        let result: Result<u8, IamClientError> = Ok(index);
        let answer = choose|answer: Result<IamResponse, IamClientError>| #[trigger]
            may_answer_to_handle(connection, request, handle, answer) && result == (match answer {
                Ok(response) => registered_index(response),
                Err(error) => Err(error),
            });
        lemma_heard_of_handle(connection, request, handle, answer->Ok_0);
        assert(answer->Ok_0 == (IamResponse::RegisterDynamicSegmentOk { segment_id: index }));
    }
}

/// A segment that a client has got is one that the server has answered with, with the first of the
/// handles that have arrived, as many as it has announced; there is none only if the server has
/// said so.
pub proof fn law_requested_segments_are_the_servers<C: ClientControlChannelConnection>(
    connection: C,
    request: IamRequest,
    segment_info: SegmentInfo,
    handle: C::Handle,
)
    ensures
        may_request_segment(connection, request, Ok(Some((segment_info, handle)))) ==> exists|
            handles: Vec<C::Handle>,
        | #[trigger]
            arrived(connection, handles@.len() as usize, handles) && 0 < handles@.len() <= 64
                && handles@[0] == handle && heard(
                connection,
                request,
                IamResponse::SegmentHandleOk {
                    segment_info,
                    handle_count: handles@.len() as usize,
                },
            ),
        may_request_segment(connection, request, Ok(None)) ==> heard(
            connection,
            request,
            IamResponse::SegmentHandleNotFound,
        ),
        may_request_dynamic_segment(connection, request, Ok(Some((segment_info, handle))))
            ==> exists|handles: Vec<C::Handle>| #[trigger]
            arrived(connection, handles@.len() as usize, handles) && 0 < handles@.len() <= 64
                && handles@[0] == handle && heard(
                connection,
                request,
                IamResponse::DynamicSegmentHandleOk {
                    segment_info,
                    handle_count: handles@.len() as usize,
                },
            ),
        may_request_dynamic_segment(connection, request, Ok(None)) ==> heard(
            connection,
            request,
            IamResponse::DynamicSegmentPending,
        ),
{
    let some: Result<Option<(SegmentInfo, C::Handle)>, IamClientError> = Ok(
        Some((segment_info, handle)),
    );
    let none: Result<Option<(SegmentInfo, C::Handle)>, IamClientError> = Ok(None);
    if may_request_segment(connection, request, some) {
        let answer = choose|answer: Result<IamResponse, IamClientError>| #[trigger]
            may_answer(connection, request, answer) && may_obtain(
                connection,
                match answer {
                    Ok(response) => granted_segment(response),
                    Err(error) => Err(error),
                },
                some,
            );
        let response = answer->Ok_0;
        lemma_heard(connection, request, response);
        lemma_obtained(connection, granted_segment(response), segment_info, handle);
    }
    if may_request_segment(connection, request, none) {
        let answer = choose|answer: Result<IamResponse, IamClientError>| #[trigger]
            may_answer(connection, request, answer) && may_obtain(
                connection,
                match answer {
                    Ok(response) => granted_segment(response),
                    Err(error) => Err(error),
                },
                none,
            );
        lemma_heard(connection, request, answer->Ok_0);
        assert(answer->Ok_0 == IamResponse::SegmentHandleNotFound);
    }
    if may_request_dynamic_segment(connection, request, some) {
        let answer = choose|answer: Result<IamResponse, IamClientError>| #[trigger]
            may_answer(connection, request, answer) && may_obtain(
                connection,
                match answer {
                    Ok(response) => granted_dynamic_segment(response),
                    Err(error) => Err(error),
                },
                some,
            );
        let response = answer->Ok_0;
        lemma_heard(connection, request, response);
        lemma_obtained(connection, granted_dynamic_segment(response), segment_info, handle);
    }
    if may_request_dynamic_segment(connection, request, none) {
        let answer = choose|answer: Result<IamResponse, IamClientError>| #[trigger]
            may_answer(connection, request, answer) && may_obtain(
                connection,
                match answer {
                    Ok(response) => granted_dynamic_segment(response),
                    Err(error) => Err(error),
                },
                none,
            );
        lemma_heard(connection, request, answer->Ok_0);
        assert(answer->Ok_0 == IamResponse::DynamicSegmentPending);
    }
}

proof fn lemma_obtained<C: ClientControlChannelConnection>(
    connection: C,
    grant: Result<Option<(SegmentInfo, usize)>, IamClientError>,
    segment_info: SegmentInfo,
    handle: C::Handle,
)
    requires
        may_obtain(connection, grant, Ok(Some((segment_info, handle)))),
    ensures
        grant matches Ok(Some((info, count))) && info == segment_info && exists|
            handles: Vec<C::Handle>,
        | #[trigger]
            arrived(connection, handles@.len() as usize, handles) && handles@.len() == count
                && handles@[0] == handle,
{
    let result: Result<Option<(SegmentInfo, C::Handle)>, IamClientError> = Ok(
        Some((segment_info, handle)),
    );
    let (info, count) = (grant->Ok_0)->Some_0;
    let collected = choose|collected: Result<Vec<C::Handle>, IamClientError>| #[trigger]
        may_collect(connection, count, collected) && result == (match collected {
            Ok(handles) => Ok(Some((info, handles@[0]))),
            Err(error) => Err(error),
        });
    let handles = collected->Ok_0;
    lemma_arrived(connection, count, handles);
    assert(arrived(connection, handles@.len() as usize, handles));
}

/// A notification that a client has got is one that has come, with as many handles as it announces,
/// 64 at most, all of which have arrived; there is none only if none has come.
pub proof fn law_notifications_are_the_servers<C: ClientControlChannelConnection>(
    connection: C,
    notification: IamNotification,
    handles: Vec<C::Handle>,
)
    ensures
        may_be_notified(connection, Ok(Some((notification, handles)))) ==> {
            &&& connection.may_notice(Ok(Some(notification)))
            &&& handles@.len() <= 64
            &&& match notification {
                IamNotification::SegmentUpdate { handle_count, .. } => handles@.len()
                    == handle_count,
                _ => handles@.len() == 0,
            }
            &&& arrived(connection, handles@.len() as usize, handles)
        },
        may_be_notified(connection, Ok(None)) ==> connection.may_notice(Ok(None)),
{
    let some: Result<Option<(IamNotification, Vec<C::Handle>)>, IamClientError> = Ok(
        Some((notification, handles)),
    );
    if may_be_notified(connection, some) {
        if handles_after(notification) <= MAX_HANDLES_PER_MESSAGE && may_collect(
            connection,
            handles_after(notification),
            Ok(handles),
        ) {
            lemma_arrived(connection, handles_after(notification), handles);
        }
    }
}

/// Whether an exchange may have ended with an error before there was a response.
pub open spec fn broke_off<C: ClientControlChannelConnection>(
    connection: C,
    request: IamRequest,
    error: IamClientError,
) -> bool {
    connection.may_send(request, Err(error)) || (connection.may_receive(Err(error)) && exists|
        sent: Result<(), IamClientError>,
    | #[trigger] connection.may_send(request, sent) && sent is Ok)
}

/// Whether the handles that were announced may have failed to arrive.
pub open spec fn did_not_arrive<C: ClientControlChannelConnection>(
    connection: C,
    count: usize,
    error: IamClientError,
) -> bool {
    count > 0 && (connection.may_receive_handles(count, Err(error)) || (error
        == IamClientError::HandleReceiveFailed && exists|handles: Vec<C::Handle>| #[trigger]
        connection.may_receive_handles(count, Ok(handles)) && handles@.len() != count))
}

/// An attachment fails only for what the connection reports, for handles that did not arrive, or for
/// a response that attaches nothing or goes beyond the limits.
pub proof fn law_attaching_fails_for_a_reason<C: ClientControlChannelConnection>(
    connection: C,
    request: IamRequest,
    error: IamClientError,
)
    requires
        may_attach(connection, request, Err(error)),
    ensures
        broke_off(connection, request, error) || exists|response: IamResponse| #[trigger]
            heard(connection, request, response) && match response {
                IamResponse::AttachOk { segment_info, handle_count, .. } => {
                    ||| error == IamClientError::ProtocolError && (segment_info@.len() > 256
                        || handle_count > 64)
                    ||| did_not_arrive(connection, handle_count, error)
                },
                _ => error == let_down(response),
            },
{
    let result: Result<(u128, Vec<SegmentInfo>, Vec<C::Handle>), IamClientError> = Err(error);
    let answer = choose|answer: Result<IamResponse, IamClientError>| #[trigger]
        may_answer(connection, request, answer) && match answer {
            Err(error) => result == Err::<(u128, Vec<SegmentInfo>, Vec<C::Handle>), _>(error),
            Ok(response) => match attached_port(response) {
                Err(error) => result == Err::<(u128, Vec<SegmentInfo>, Vec<C::Handle>), _>(error),
                Ok((port_id, segment_info, count)) => match result {
                    Ok((id, info, handles)) => id == port_id && info == segment_info
                        && may_collect(connection, count, Ok(handles)),
                    Err(error) => may_collect(connection, count, Err(error)),
                },
            },
        };
    match answer {
        Ok(response) => {
            lemma_heard(connection, request, response);
            if let Ok((_, _, count)) = attached_port(response) {
                lemma_did_not_arrive(connection, count, error);
            }
        },
        Err(_) => {
            lemma_broke_off(connection, request, error);
        },
    }
}

proof fn lemma_broke_off<C: ClientControlChannelConnection>(
    connection: C,
    request: IamRequest,
    error: IamClientError,
)
    requires
        may_answer(connection, request, Err(error)),
    ensures
        broke_off(connection, request, error),
{
    let answer: Result<IamResponse, IamClientError> = Err(error);
    let sent = choose|sent: Result<(), IamClientError>| #[trigger]
        connection.may_send(request, sent) && match sent {
            Ok(_) => connection.may_receive(answer),
            Err(error) => answer == Err::<IamResponse, _>(error),
        };
    match sent {
        Ok(_) => {
            assert(connection.may_send(request, sent) && sent is Ok);
        },
        Err(e) => {
            assert(sent == Err::<(), IamClientError>(error));
        },
    }
}

proof fn lemma_did_not_arrive<C: ClientControlChannelConnection>(
    connection: C,
    count: usize,
    error: IamClientError,
)
    requires
        may_collect(connection, count, Err(error)),
    ensures
        did_not_arrive(connection, count, error),
{
    let collected: Result<Vec<C::Handle>, IamClientError> = Err(error);
    let received = choose|received: Result<Vec<C::Handle>, IamClientError>| #[trigger]
        connection.may_receive_handles(count, received) && collected == counted(received, count);
    match received {
        Ok(handles) => {
            assert(connection.may_receive_handles(count, Ok(handles)) && handles@.len() != count);
        },
        Err(e) => {
            assert(received == Err::<Vec<C::Handle>, IamClientError>(error));
        },
    }
}

/// Adding a segment fails only for what the connection reports, for handles that did not arrive, or
/// for a response that adds nothing or announces more than 64 handles.
pub proof fn law_adding_fails_for_a_reason<C: ClientControlChannelConnection>(
    connection: C,
    request: IamRequest,
    error: IamClientError,
)
    requires
        may_add_segment(connection, request, Err(error)),
    ensures
        broke_off(connection, request, error) || exists|response: IamResponse| #[trigger]
            heard(connection, request, response) && match response {
                IamResponse::AddSegmentOk { handle_count, .. } => {
                    ||| error == IamClientError::ProtocolError && handle_count > 64
                    ||| did_not_arrive(connection, handle_count, error)
                },
                _ => error == let_down(response),
            },
{
    let result: Result<(SegmentId, usize, Vec<C::Handle>), IamClientError> = Err(error);
    let answer = choose|answer: Result<IamResponse, IamClientError>| #[trigger]
        may_answer(connection, request, answer) && match answer {
            Err(error) => result == Err::<(SegmentId, usize, Vec<C::Handle>), _>(error),
            Ok(response) => match added_segment(response) {
                Err(error) => result == Err::<(SegmentId, usize, Vec<C::Handle>), _>(error),
                Ok((segment_id, size, count)) => match result {
                    Ok((id, actual_size, handles)) => id == segment_id && actual_size == size
                        && may_collect(connection, count, Ok(handles)),
                    Err(error) => may_collect(connection, count, Err(error)),
                },
            },
        };
    match answer {
        Ok(response) => {
            lemma_heard(connection, request, response);
            if let Ok((_, _, count)) = added_segment(response) {
                lemma_did_not_arrive(connection, count, error);
            }
        },
        Err(_) => {
            lemma_broke_off(connection, request, error);
        },
    }
}

/// Whether sending a request and then a handle may have ended with an error before there was a
/// response.
pub open spec fn broke_off_at_handle<C: ClientControlChannelConnection>(
    connection: C,
    request: IamRequest,
    handle: C::Handle,
    error: IamClientError,
) -> bool {
    connection.may_send(request, Err(error)) || ((exists|sent: Result<(), IamClientError>| #[trigger]
        connection.may_send(request, sent) && sent is Ok) && (connection.may_send_handle(
        handle,
        Err(error),
    ) || (connection.may_receive(Err(error)) && exists|passed: Result<(), IamClientError>| #[trigger]
        connection.may_send_handle(handle, passed) && passed is Ok)))
}

proof fn lemma_broke_off_at_handle<C: ClientControlChannelConnection>(
    connection: C,
    request: IamRequest,
    handle: C::Handle,
    error: IamClientError,
)
    requires
        may_answer_to_handle(connection, request, handle, Err(error)),
    ensures
        broke_off_at_handle(connection, request, handle, error),
{
    let answer: Result<IamResponse, IamClientError> = Err(error);
    let sent = choose|sent: Result<(), IamClientError>| #[trigger]
        connection.may_send(request, sent) && match sent {
            Ok(_) => may_answer_handle(connection, handle, answer),
            Err(error) => answer == Err::<IamResponse, _>(error),
        };
    match sent {
        Ok(_) => {
            assert(connection.may_send(request, sent) && sent is Ok);
            let passed = choose|passed: Result<(), IamClientError>| #[trigger]
                connection.may_send_handle(handle, passed) && match passed {
                    Ok(_) => connection.may_receive(answer),
                    Err(error) => answer == Err::<IamResponse, _>(error),
                };
            match passed {
                Ok(_) => {
                    assert(connection.may_send_handle(handle, passed) && passed is Ok);
                },
                Err(_) => {
                    assert(passed == Err::<(), IamClientError>(error));
                },
            }
        },
        Err(_) => {
            assert(sent == Err::<(), IamClientError>(error));
        },
    }
}

/// A registration fails only for what the connection reports, or for a response that registers
/// nothing.
pub proof fn law_registering_fails_for_a_reason<C: ClientControlChannelConnection>(
    connection: C,
    request: IamRequest,
    handle: C::Handle,
    error: IamClientError,
)
    ensures
        may_register_segment(connection, request, handle, Err(error)) ==> broke_off_at_handle(
            connection,
            request,
            handle,
            error,
        ) || exists|response: IamResponse| #[trigger]
            heard_of_handle(connection, request, handle, response) && response
                !is RegisterSegmentOk && error == let_down(response),
        may_register_dynamic_segment(connection, request, handle, Err(error))
            ==> broke_off_at_handle(connection, request, handle, error) || exists|
            response: IamResponse,
        | #[trigger]
            heard_of_handle(connection, request, handle, response) && response
                !is RegisterDynamicSegmentOk && error == let_down(response),
{
    if may_register_segment(connection, request, handle, Err(error)) {
        let result: Result<SegmentId, IamClientError> = Err(error);
        let answer = choose|answer: Result<IamResponse, IamClientError>| #[trigger]
            may_answer_to_handle(connection, request, handle, answer) && result == (match answer {
                Ok(response) => registered_segment(response),
                Err(error) => Err(error),
            });
        match answer {
            Ok(response) => {
                lemma_heard_of_handle(connection, request, handle, response);
            },
            Err(_) => {
                lemma_broke_off_at_handle(connection, request, handle, error);
            },
        }
    }
    if may_register_dynamic_segment(connection, request, handle, Err(error)) {
        let result: Result<u8, IamClientError> = Err(error);
        let answer = choose|answer: Result<IamResponse, IamClientError>| #[trigger]
            may_answer_to_handle(connection, request, handle, answer) && result == (match answer {
                Ok(response) => registered_index(response),
                Err(error) => Err(error),
            });
        match answer {
            Ok(response) => {
                lemma_heard_of_handle(connection, request, handle, response);
            },
            Err(_) => {
                lemma_broke_off_at_handle(connection, request, handle, error);
            },
        }
    }
}

proof fn lemma_not_obtained<C: ClientControlChannelConnection>(
    connection: C,
    grant: Result<Option<(SegmentInfo, usize)>, IamClientError>,
    count: usize,
    error: IamClientError,
)
    requires
        may_obtain(connection, grant, Err(error)),
        grant matches Ok(Some(granted)) && granted.1 == count,
    ensures
        did_not_arrive(connection, count, error),
{
    let result: Result<Option<(SegmentInfo, C::Handle)>, IamClientError> = Err(error);
    let info = ((grant->Ok_0)->Some_0).0;
    let collected = choose|collected: Result<Vec<C::Handle>, IamClientError>| #[trigger]
        may_collect(connection, count, collected) && result == (match collected {
            Ok(handles) => Ok(Some((info, handles@[0]))),
            Err(error) => Err(error),
        });
    assert(collected == Err::<Vec<C::Handle>, IamClientError>(error));
    lemma_did_not_arrive(connection, count, error);
}

/// Requesting a segment fails only for what the connection reports, for handles that did not arrive,
/// or for a response that neither gives a segment nor says that there is none; one that gives a
/// segment announces 1 to 64 handles.
pub proof fn law_requesting_fails_for_a_reason<C: ClientControlChannelConnection>(
    connection: C,
    request: IamRequest,
    error: IamClientError,
)
    ensures
        may_request_segment(connection, request, Err(error)) ==> broke_off(
            connection,
            request,
            error,
        ) || exists|response: IamResponse| #[trigger]
            heard(connection, request, response) && match response {
                IamResponse::SegmentHandleOk { handle_count, .. } => {
                    ||| error == IamClientError::ProtocolError && handle_count > 64
                    ||| error == IamClientError::HandleReceiveFailed && handle_count == 0
                    ||| did_not_arrive(connection, handle_count, error)
                },
                IamResponse::SegmentHandleNotFound => false,
                _ => error == let_down(response),
            },
        may_request_dynamic_segment(connection, request, Err(error)) ==> broke_off(
            connection,
            request,
            error,
        ) || exists|response: IamResponse| #[trigger]
            heard(connection, request, response) && match response {
                IamResponse::DynamicSegmentHandleOk { handle_count, .. } => {
                    ||| error == IamClientError::ProtocolError && handle_count > 64
                    ||| error == IamClientError::HandleReceiveFailed && handle_count == 0
                    ||| did_not_arrive(connection, handle_count, error)
                },
                IamResponse::DynamicSegmentPending => false,
                _ => error == let_down(response),
            },
{
    let result: Result<Option<(SegmentInfo, C::Handle)>, IamClientError> = Err(error);
    if may_request_segment(connection, request, result) {
        let answer = choose|answer: Result<IamResponse, IamClientError>| #[trigger]
            may_answer(connection, request, answer) && may_obtain(
                connection,
                match answer {
                    Ok(response) => granted_segment(response),
                    Err(error) => Err(error),
                },
                result,
            );
        match answer {
            Ok(response) => {
                lemma_heard(connection, request, response);
                if let Ok(Some((_, count))) = granted_segment(response) {
                    lemma_not_obtained(connection, granted_segment(response), count, error);
                }
            },
            Err(_) => {
                lemma_broke_off(connection, request, error);
            },
        }
    }
    if may_request_dynamic_segment(connection, request, result) {
        let answer = choose|answer: Result<IamResponse, IamClientError>| #[trigger]
            may_answer(connection, request, answer) && may_obtain(
                connection,
                match answer {
                    Ok(response) => granted_dynamic_segment(response),
                    Err(error) => Err(error),
                },
                result,
            );
        match answer {
            Ok(response) => {
                lemma_heard(connection, request, response);
                if let Ok(Some((_, count))) = granted_dynamic_segment(response) {
                    lemma_not_obtained(connection, granted_dynamic_segment(response), count, error);
                }
            },
            Err(_) => {
                lemma_broke_off(connection, request, error);
            },
        }
    }
}

/// Looking for a notification fails only for what the connection reports, for handles that did not
/// arrive, or for a notification that announces more than 64 handles.
pub proof fn law_listening_fails_for_a_reason<C: ClientControlChannelConnection>(
    connection: C,
    error: IamClientError,
)
    requires
        may_be_notified(connection, Err(error)),
    ensures
        connection.may_notice(Err(error)) || exists|segment_id: SegmentId, size: usize, count: usize|
            #[trigger] connection.may_notice(
                Ok(
                    Some(
                        IamNotification::SegmentUpdate { segment_id, size, handle_count: count },
                    ),
                ),
            ) && ((error == IamClientError::ProtocolError && count > 64) || did_not_arrive(
                connection,
                count,
                error,
            )),
{
    let result: Result<Option<(IamNotification, Vec<C::Handle>)>, IamClientError> = Err(error);
    let noticed = choose|noticed: Result<Option<IamNotification>, IamClientError>| #[trigger]
        connection.may_notice(noticed) && match noticed {
            Err(error) => result == Err::<Option<(IamNotification, Vec<C::Handle>)>, _>(error),
            Ok(None) => result == Ok::<Option<(IamNotification, Vec<C::Handle>)>, IamClientError>(
                None,
            ),
            Ok(Some(notification)) => {
                if handles_after(notification) > MAX_HANDLES_PER_MESSAGE {
                    result == Err::<Option<(IamNotification, Vec<C::Handle>)>, _>(
                        IamClientError::ProtocolError,
                    )
                } else {
                    match result {
                        Ok(Some((told, handles))) => told == notification && may_collect(
                            connection,
                            handles_after(notification),
                            Ok(handles),
                        ),
                        Ok(None) => false,
                        Err(error) => may_collect(
                            connection,
                            handles_after(notification),
                            Err(error),
                        ),
                    }
                }
            },
        };
    match noticed {
        Err(_) => {
            assert(noticed == Err::<Option<IamNotification>, IamClientError>(error));
        },
        Ok(None) => {},
        Ok(Some(notification)) => {
            if handles_after(notification) <= MAX_HANDLES_PER_MESSAGE {
                lemma_did_not_arrive(connection, handles_after(notification), error);
            }
            if let IamNotification::SegmentUpdate { segment_id, size, handle_count } = notification {
                assert(connection.may_notice(
                    Ok(Some(IamNotification::SegmentUpdate { segment_id, size, handle_count })),
                ));
            }
        },
    }
}

} // verus!
