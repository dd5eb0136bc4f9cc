//! Messages that clients and the server exchange, and the limits on them.

use vstd::prelude::*;
use crate::types::{AccessRights, SegmentId, ServiceId, ServiceName, UniqueSystemId};

verus! {

/// Maximum number of segments that can be returned in a single attach response.
pub const MAX_SEGMENTS_PER_ATTACH: usize = 256;

/// Maximum number of handles that can be passed in a single message.
pub const MAX_HANDLES_PER_MESSAGE: usize = 64;

/// Maximum length of error messages in bytes.
pub const MAX_ERROR_MESSAGE_LENGTH: usize = 512;

/// Whether an error message is within the limit.
pub open spec fn message_fits(message: Seq<char>) -> bool {
    vstd::utf8::encode_utf8(message).len() <= MAX_ERROR_MESSAGE_LENGTH
}

/// Returns `true` if an error message is within [`MAX_ERROR_MESSAGE_LENGTH`].
pub fn is_within_message_limit(message: &str) -> (within: bool)
    ensures
        within == message_fits(message@),
{
    message.as_bytes().len() <= MAX_ERROR_MESSAGE_LENGTH
}

/// The protocol version for client-server communication.
///
/// Major versions break the protocol; minor versions add features. A client with version X.Y
/// can communicate with a server with version X.Z if and only if Y <= Z.
#[derive(Debug, Clone, Copy, PartialEq, Eq, Hash, Structural)]
pub struct ProtocolVersion {
    /// The major number.
    pub major: u16,
    /// The minor number.
    pub minor: u16,
}

/// Whether a client of one version can talk to a server of another.
pub open spec fn versions_compatible(client: ProtocolVersion, server: ProtocolVersion) -> bool {
    client.major == server.major && client.minor <= server.minor
}

impl ProtocolVersion {
    /// The current protocol version (1.0).
    pub open spec fn spec_current() -> ProtocolVersion {
        ProtocolVersion { major: 1, minor: 0 }
    }

    /// Returns the current protocol version (1.0).
    #[verifier::when_used_as_spec(spec_current)]
    pub fn current() -> (version: ProtocolVersion)
        ensures
            version == ProtocolVersion::spec_current(),
    {
        ProtocolVersion { major: 1, minor: 0 }
    }

    /// Creates a new protocol version with the given major and minor numbers.
    pub fn new(major: u16, minor: u16) -> (version: ProtocolVersion)
        ensures
            version == (ProtocolVersion { major, minor }),
    {
        ProtocolVersion { major, minor }
    }

    /// Returns the major version number.
    pub fn major(&self) -> (major: u16)
        ensures
            major == self.major,
    {
        self.major
    }

    /// Returns the minor version number.
    pub fn minor(&self) -> (minor: u16)
        ensures
            minor == self.minor,
    {
        self.minor
    }

    /// Checks if a client with this version can communicate with a server.
    pub fn is_compatible_with(&self, server: &ProtocolVersion) -> (compatible: bool)
        ensures
            compatible == versions_compatible(*self, *server),
    {
        self.major == server.major && self.minor <= server.minor
    }

    /// Checks if a server with this version can accept a client version.
    pub fn accepts_client(&self, client: &ProtocolVersion) -> (accepted: bool)
        ensures
            accepted == versions_compatible(*client, *self),
    {
        client.major == self.major && client.minor <= self.minor
    }
}

impl Default for ProtocolVersion {
    fn default() -> (version: Self)
        ensures
            version == ProtocolVersion::current(),
    {
        ProtocolVersion::current()
    }
}

/// Every version can talk to itself.
pub proof fn law_version_accepts_itself(version: ProtocolVersion)
    ensures
        versions_compatible(version, version),
{
}

/// A server that is upgraded by minor versions keeps accepting the clients it accepted before.
pub proof fn law_minor_upgrade_keeps_clients(
    client: ProtocolVersion,
    server: ProtocolVersion,
    upgraded: ProtocolVersion,
)
    requires
        versions_compatible(client, server),
        versions_compatible(server, upgraded),
    ensures
        versions_compatible(client, upgraded),
{
}

/// Versions of different major numbers never talk to each other.
pub proof fn law_major_change_breaks(client: ProtocolVersion, server: ProtocolVersion)
    requires
        client.major != server.major,
    ensures
        !versions_compatible(client, server),
        !versions_compatible(server, client),
{
}

/// A unique identifier for a session. Zero stands for no session.
#[derive(Debug, Clone, Copy, PartialEq, Eq, Hash, Structural)]
pub struct SessionId {
    /// The number of the session.
    pub value: u64,
}

/// Reserved number indicating an invalid or uninitialized session.
pub const INVALID_SESSION_ID: u64 = 0;

/// The source of session identifiers: a counter that starts at one and only grows.
///
/// Once the largest number was handed out the counter stands at zero, and no further session
/// can be created with it.
#[derive(Debug)]
pub struct SessionCounter {
    next: u64,
}

impl SessionCounter {
    /// The number of the next session; zero when there is none left.
    pub closed spec fn next(&self) -> u64 {
        self.next
    }

    /// Creates a counter that has handed out nothing.
    pub fn new() -> (counter: SessionCounter)
        ensures
            counter.next() == 1,
    {
        SessionCounter { next: 1 }
    }

    /// Returns `true` if every identifier was handed out.
    pub fn is_exhausted(&self) -> (exhausted: bool)
        ensures
            exhausted == (self.next() == 0),
    {
        self.next == 0
    }
}

impl Default for SessionCounter {
    fn default() -> (counter: Self)
        ensures
            counter.next() == 1,
    {
        SessionCounter::new()
    }
}

impl SessionId {
    /// Creates a new unique session identifier out of a counter that is not exhausted.
    pub fn new(counter: &mut SessionCounter) -> (id: SessionId)
        requires
            old(counter).next() != 0,
        ensures
            id.value == old(counter).next(),
            final(counter).next() == next_session_number(old(counter).next()),
    {
        let value: u64 = counter.next;
        counter.next = value.wrapping_add(1);
        SessionId { value }
    }

    /// Creates a session identifier from a raw value.
    pub fn from_value(value: u64) -> (id: SessionId)
        ensures
            id.value == value,
    {
        SessionId { value }
    }

    /// Returns the underlying value of the session identifier.
    pub fn value(&self) -> (value: u64)
        ensures
            value == self.value,
    {
        self.value
    }

    /// Returns true if this is a valid session identifier (non-zero).
    pub fn is_valid(&self) -> (valid: bool)
        ensures
            valid == (self.value != INVALID_SESSION_ID),
    {
        self.value != INVALID_SESSION_ID
    }
}

/// The number after `number`; zero after the largest.
pub open spec fn next_session_number(number: u64) -> u64 {
    if number == u64::MAX {
        0
    } else {
        (number + 1) as u64
    }
}

/// The number that a counter which stands at `start` hands out after `n` earlier ones.
pub open spec fn session_number(start: u64, n: nat) -> u64
    decreases n,
{
    if n == 0 {
        start
    } else {
        next_session_number(session_number(start, (n - 1) as nat))
    }
}

proof fn lemma_session_number(start: u64, n: nat)
    requires
        forall|k: nat| k <= n ==> #[trigger] session_number(start, k) != 0,
    ensures
        session_number(start, n) == start + n,
    decreases n,
{
    if n > 0 {
        lemma_session_number(start, (n - 1) as nat);
        assert(session_number(start, n) != 0);
    }
}

/// Identifiers that one counter hands out never repeat: as long as it has not run out, a later
/// session has a larger number than an earlier one.
pub proof fn law_session_ids_unique(start: u64, m: nat, n: nat)
    requires
        m < n,
        forall|k: nat| k <= n ==> #[trigger] session_number(start, k) != 0,
    ensures
        session_number(start, m) < session_number(start, n),
{
    lemma_session_number(start, m);
    lemma_session_number(start, n);
}

/// Information about a shared memory segment.
#[derive(Debug, Clone, Copy, PartialEq, Eq, Structural)]
pub struct SegmentInfo {
    /// The unique identifier of the segment.
    pub segment_id: SegmentId,
    /// The size of the segment in bytes.
    pub size: usize,
    /// The access rights granted for this segment.
    pub access: AccessRights,
}

impl SegmentInfo {
    /// Creates a new segment info with the given parameters.
    pub fn new(segment_id: SegmentId, size: usize, access: AccessRights) -> (info: SegmentInfo)
        ensures
            info == (SegmentInfo { segment_id, size, access }),
    {
        SegmentInfo { segment_id, size, access }
    }

    /// Returns the segment identifier.
    pub fn segment_id(&self) -> (id: SegmentId)
        ensures
            id == self.segment_id,
    {
        self.segment_id
    }

    /// Returns the size of the segment in bytes.
    pub fn size(&self) -> (size: usize)
        ensures
            size == self.size,
    {
        self.size
    }

    /// Returns the access rights for the segment.
    pub fn access(&self) -> (access: AccessRights)
        ensures
            access == self.access,
    {
        self.access
    }
}

/// The type of communication port.
#[derive(Debug, Clone, Copy, PartialEq, Eq, Hash, Structural)]
pub enum PortType {
    /// A publisher port that sends data to subscribers.
    Publisher,
    /// A subscriber port that receives data from publishers.
    Subscriber,
    /// A server port that responds to client requests.
    Server,
    /// A client port that sends requests to servers.
    Client,
}

impl PortType {
    /// Publishers and servers are tracked as producers, subscribers and clients as consumers.
    pub open spec fn is_producer(self) -> bool {
        self is Publisher || self is Server
    }
}

/// The kind of messaging pattern for a service.
#[derive(Debug, Clone, Copy, PartialEq, Eq, Hash, Structural)]
pub enum MessagingPatternKind {
    /// Publish-subscribe messaging pattern.
    PublishSubscribe,
    /// Request-response messaging pattern.
    RequestResponse,
    /// Event-based messaging pattern.
    Event,
}

/// Reasons why a request may be denied.
#[derive(Debug, Clone, Copy, PartialEq, Eq, Hash, Structural)]
pub enum DenialReason {
    /// The client is not authorized to perform the requested action.
    Unauthorized,
    /// The requested service was not found.
    ServiceNotFound,
    /// A service with the same name already exists.
    ServiceAlreadyExists,
    /// A resource limit has been exceeded.
    ResourceLimitExceeded,
    /// The requested QoS settings are incompatible.
    IncompatibleQos,
    /// The request violates a policy.
    PolicyViolation,
    /// An internal error occurred.
    InternalError,
    /// Protocol version mismatch.
    VersionMismatch,
    /// The session was not found or has expired.
    SessionNotFound,
    /// The request contains invalid parameters.
    InvalidRequest,
}

/// Requests that can be sent from a client to the server.
#[derive(Debug, Clone)]
#[allow(inconsistent_fields)]
pub enum IamRequest {
    /// Initial handshake request to establish a session.
    Hello {
        /// The protocol version supported by the client.
        protocol_version: ProtocolVersion,
        /// The unique identifier of the client's node.
        node_id: UniqueSystemId,
    },
    /// Request to create a new secured service.
    CreateService {
        /// The name of the service to create.
        service_name: ServiceName,
        /// The messaging pattern for the service.
        messaging_pattern: MessagingPatternKind,
    },
    /// Request to attach a publisher to a service.
    AttachPublisher {
        /// The service to attach to.
        service_id: ServiceId,
        /// The history size for the publisher.
        history_size: usize,
        /// The maximum slice length for samples.
        max_slice_len: usize,
    },
    /// Request to attach a subscriber to a service.
    AttachSubscriber {
        /// The service to attach to.
        service_id: ServiceId,
        /// The buffer size for the subscriber.
        buffer_size: usize,
    },
    /// Request to attach a server to a service.
    AttachServer {
        /// The service to attach to.
        service_id: ServiceId,
        /// The maximum number of active requests.
        max_active_requests: usize,
    },
    /// Request to attach a client to a service.
    AttachClient {
        /// The service to attach to.
        service_id: ServiceId,
        /// The maximum number of pending responses.
        max_pending_responses: usize,
    },
    /// Request to add a new segment for a port; the server creates it.
    AddSegment {
        /// The service the port belongs to.
        service_id: ServiceId,
        /// The port identifier.
        port_id: u128,
        /// The requested size for the new segment (payload size).
        requested_size: usize,
        /// The bucket size for the pool allocator.
        bucket_size: usize,
        /// The bucket alignment for the pool allocator.
        bucket_align: usize,
    },
    /// Request to detach a port from a service.
    Detach {
        /// The service the port belongs to.
        service_id: ServiceId,
        /// The port identifier.
        port_id: u128,
    },
    /// Acknowledge that a segment has been retired.
    AckSegmentRetirement {
        /// The service the segment belongs to.
        service_id: ServiceId,
        /// The segment identifier.
        segment_id: SegmentId,
    },
    /// Register a segment handle created by a producer port.
    RegisterSegment {
        /// The service the port belongs to.
        service_id: ServiceId,
        /// The producer port identifier.
        port_id: u128,
        /// The size of the segment in bytes.
        segment_size: usize,
        /// The number of handles that will follow this message.
        handle_count: usize,
    },
    /// Request a segment handle for a sender port's data segment.
    RequestSegmentHandle {
        /// The service the port belongs to.
        service_id: ServiceId,
        /// The producer port whose segment handle is requested.
        sender_port_id: u128,
    },
    /// Register a dynamic segment handle created by a producer port.
    RegisterDynamicSegment {
        /// The service the port belongs to.
        service_id: ServiceId,
        /// The producer port identifier.
        port_id: u128,
        /// Index within the dynamic segment set (0 for initial, 1+ for reallocations).
        segment_id: u8,
        /// The size of the segment in bytes.
        segment_size: usize,
        /// The number of handles that will follow this message.
        handle_count: usize,
    },
    /// Request a specific dynamic segment handle from a producer port.
    RequestDynamicSegmentHandle {
        /// The service the port belongs to.
        service_id: ServiceId,
        /// The producer port whose segment handle is requested.
        sender_port_id: u128,
        /// The index of the dynamic segment to retrieve.
        segment_id: u8,
    },
    /// Register the handle of a connection channel between two ports.
    RegisterChannel {
        /// The service the ports belong to.
        service_id: ServiceId,
        /// The port that sends over the channel.
        sender_port_id: u128,
        /// The port that receives over the channel.
        receiver_port_id: u128,
        /// The size of the channel in bytes.
        channel_size: usize,
        /// The number of handles that will follow this message.
        handle_count: usize,
    },
    /// Request the handle of a connection channel between two ports.
    RequestChannelHandle {
        /// The service the ports belong to.
        service_id: ServiceId,
        /// The port that sends over the channel.
        sender_port_id: u128,
        /// The port that receives over the channel.
        receiver_port_id: u128,
    },
    /// Register the handle of a producer's management segment.
    RegisterMgmtSegment {
        /// The service the port belongs to.
        service_id: ServiceId,
        /// The producer port identifier.
        port_id: u128,
        /// The size of the management segment in bytes.
        mgmt_size: usize,
        /// The number of handles that will follow this message.
        handle_count: usize,
    },
    /// Request the handle of a producer's management segment.
    RequestMgmtSegmentHandle {
        /// The service the port belongs to.
        service_id: ServiceId,
        /// The producer port identifier.
        port_id: u128,
    },
}

/// Responses sent from the server to clients.
#[derive(Debug, Clone)]
#[allow(inconsistent_fields)]
pub enum IamResponse {
    /// Successful response to a Hello request.
    HelloOk {
        /// The negotiated protocol version.
        negotiated_version: ProtocolVersion,
        /// The assigned session identifier.
        session_id: SessionId,
    },
    /// Successful response to a CreateService request.
    CreateServiceOk {
        /// The assigned service identifier.
        service_id: ServiceId,
    },
    /// Successful response to an attach request.
    AttachOk {
        /// The assigned port identifier.
        port_id: u128,
        /// Information about the segments for this port.
        segment_info: Vec<SegmentInfo>,
        /// The number of handles that will be passed.
        handle_count: usize,
    },
    /// Successful response to an AddSegment request.
    AddSegmentOk {
        /// The identifier of the new segment.
        segment_id: SegmentId,
        /// The actual size of the segment.
        size: usize,
        /// The number of handles that will be passed.
        handle_count: usize,
    },
    /// Successful response to a Detach request.
    DetachOk,
    /// Successful response to an AckSegmentRetirement request.
    AckOk,
    /// The request was denied.
    Denied {
        /// The reason for denial.
        reason: DenialReason,
        /// A human-readable message explaining the denial.
        message: String,
    },
    /// A protocol error occurred.
    ProtocolError {
        /// A human-readable message explaining the error.
        message: String,
    },
    /// Successful response to a RegisterSegment request.
    RegisterSegmentOk {
        /// The segment ID assigned to the registered segment.
        segment_id: SegmentId,
    },
    /// Successful response to a RequestSegmentHandle request: handle available.
    SegmentHandleOk {
        /// Metadata about the segment being provided.
        segment_info: SegmentInfo,
        /// The number of handles that will follow this message.
        handle_count: usize,
    },
    /// Response to a RequestSegmentHandle request: no handle available yet.
    SegmentHandleNotFound,
    /// Successful response to a RegisterDynamicSegment request.
    RegisterDynamicSegmentOk {
        /// The segment ID index that was registered.
        segment_id: u8,
    },
    /// Successful response to a RequestDynamicSegmentHandle request: handle available.
    DynamicSegmentHandleOk {
        /// Metadata about the segment being provided.
        segment_info: SegmentInfo,
        /// The number of handles that will follow this message.
        handle_count: usize,
    },
    /// Response to a RequestDynamicSegmentHandle request: segment not registered yet.
    DynamicSegmentPending,
    /// Successful response to a RegisterChannel request.
    RegisterChannelOk,
    /// Successful response to a RequestChannelHandle request: handle available.
    ChannelHandleOk {
        /// Metadata about the channel being provided.
        segment_info: SegmentInfo,
        /// The number of handles that will follow this message.
        handle_count: usize,
    },
    /// Response to a RequestChannelHandle request: no handle available yet.
    ChannelHandleNotFound,
    /// Successful response to a RegisterMgmtSegment request.
    RegisterMgmtSegmentOk,
    /// Successful response to a RequestMgmtSegmentHandle request: handle available.
    MgmtSegmentHandleOk {
        /// Metadata about the management segment being provided.
        segment_info: SegmentInfo,
        /// The number of handles that will follow this message.
        handle_count: usize,
    },
    /// Response to a RequestMgmtSegmentHandle request: no handle available yet.
    MgmtSegmentHandleNotFound,
}

/// What a response says, with lists and texts as sequences.
#[verifier::ext_equal]
#[allow(inconsistent_fields)]
pub enum Answer {
    /// See [`IamResponse::HelloOk`].
    HelloOk { negotiated_version: ProtocolVersion, session_id: SessionId },
    /// See [`IamResponse::CreateServiceOk`].
    CreateServiceOk { service_id: Seq<char> },
    /// See [`IamResponse::AttachOk`].
    AttachOk { port_id: u128, segment_info: Seq<SegmentInfo>, handle_count: int },
    /// See [`IamResponse::AddSegmentOk`].
    AddSegmentOk { segment_id: SegmentId, size: usize, handle_count: int },
    /// See [`IamResponse::DetachOk`].
    DetachOk,
    /// See [`IamResponse::AckOk`].
    AckOk,
    /// See [`IamResponse::Denied`].
    Denied { reason: DenialReason, message: Seq<char> },
    /// See [`IamResponse::ProtocolError`].
    ProtocolError { message: Seq<char> },
    /// See [`IamResponse::RegisterSegmentOk`].
    RegisterSegmentOk { segment_id: SegmentId },
    /// See [`IamResponse::SegmentHandleOk`].
    SegmentHandleOk { segment_info: SegmentInfo, handle_count: int },
    /// See [`IamResponse::SegmentHandleNotFound`].
    SegmentHandleNotFound,
    /// See [`IamResponse::RegisterDynamicSegmentOk`].
    RegisterDynamicSegmentOk { segment_id: u8 },
    /// See [`IamResponse::DynamicSegmentHandleOk`].
    DynamicSegmentHandleOk { segment_info: SegmentInfo, handle_count: int },
    /// See [`IamResponse::DynamicSegmentPending`].
    DynamicSegmentPending,
    /// See [`IamResponse::RegisterChannelOk`].
    RegisterChannelOk,
    /// See [`IamResponse::ChannelHandleOk`].
    ChannelHandleOk { segment_info: SegmentInfo, handle_count: int },
    /// See [`IamResponse::ChannelHandleNotFound`].
    ChannelHandleNotFound,
    /// See [`IamResponse::RegisterMgmtSegmentOk`].
    RegisterMgmtSegmentOk,
    /// See [`IamResponse::MgmtSegmentHandleOk`].
    MgmtSegmentHandleOk { segment_info: SegmentInfo, handle_count: int },
    /// See [`IamResponse::MgmtSegmentHandleNotFound`].
    MgmtSegmentHandleNotFound,
}

impl View for IamResponse {
    type V = Answer;

    open spec fn view(&self) -> Answer {
        match self {
            IamResponse::HelloOk { negotiated_version, session_id } => Answer::HelloOk {
                negotiated_version: *negotiated_version,
                session_id: *session_id,
            },
            IamResponse::CreateServiceOk { service_id } => Answer::CreateServiceOk {
                service_id: service_id@,
            },
            IamResponse::AttachOk { port_id, segment_info, handle_count } => Answer::AttachOk {
                port_id: *port_id,
                segment_info: segment_info@,
                handle_count: *handle_count as int,
            },
            IamResponse::AddSegmentOk { segment_id, size, handle_count } => Answer::AddSegmentOk {
                segment_id: *segment_id,
                size: *size,
                handle_count: *handle_count as int,
            },
            IamResponse::DetachOk => Answer::DetachOk,
            IamResponse::AckOk => Answer::AckOk,
            IamResponse::Denied { reason, message } => Answer::Denied {
                reason: *reason,
                message: message@,
            },
            IamResponse::ProtocolError { message } => Answer::ProtocolError { message: message@ },
            IamResponse::RegisterSegmentOk { segment_id } => Answer::RegisterSegmentOk {
                segment_id: *segment_id,
            },
            IamResponse::SegmentHandleOk { segment_info, handle_count } => {
                Answer::SegmentHandleOk {
                    segment_info: *segment_info,
                    handle_count: *handle_count as int,
                }
            },
            IamResponse::SegmentHandleNotFound => Answer::SegmentHandleNotFound,
            IamResponse::RegisterDynamicSegmentOk { segment_id } => {
                Answer::RegisterDynamicSegmentOk { segment_id: *segment_id }
            },
            IamResponse::DynamicSegmentHandleOk { segment_info, handle_count } => {
                Answer::DynamicSegmentHandleOk {
                    segment_info: *segment_info,
                    handle_count: *handle_count as int,
                }
            },
            IamResponse::DynamicSegmentPending => Answer::DynamicSegmentPending,
            IamResponse::RegisterChannelOk => Answer::RegisterChannelOk,
            IamResponse::ChannelHandleOk { segment_info, handle_count } => {
                Answer::ChannelHandleOk {
                    segment_info: *segment_info,
                    handle_count: *handle_count as int,
                }
            },
            IamResponse::ChannelHandleNotFound => Answer::ChannelHandleNotFound,
            IamResponse::RegisterMgmtSegmentOk => Answer::RegisterMgmtSegmentOk,
            IamResponse::MgmtSegmentHandleOk { segment_info, handle_count } => {
                Answer::MgmtSegmentHandleOk {
                    segment_info: *segment_info,
                    handle_count: *handle_count as int,
                }
            },
            IamResponse::MgmtSegmentHandleNotFound => Answer::MgmtSegmentHandleNotFound,
        }
    }
}

impl IamResponse {
    /// Creates a response that denies a request.
    pub fn denied(reason: DenialReason, message: &str) -> (response: IamResponse)
        ensures
            response@ == (Answer::Denied { reason, message: message@ }),
    {
        IamResponse::Denied { reason, message: message.to_owned() }
    }

    /// Creates a response that reports a protocol error.
    pub fn protocol_error(message: &str) -> (response: IamResponse)
        ensures
            response@ == (Answer::ProtocolError { message: message@ }),
    {
        IamResponse::ProtocolError { message: message.to_owned() }
    }
}

/// Notifications sent from the server to clients on its own account.
#[derive(Debug, Clone, Copy, PartialEq, Eq, Structural)]
pub enum IamNotification {
    /// A segment has been updated.
    SegmentUpdate {
        /// The segment identifier.
        segment_id: SegmentId,
        /// The new size of the segment.
        size: usize,
        /// The number of handles that will be passed.
        handle_count: usize,
    },
    /// A segment is being retired and should no longer be used.
    SegmentRetiring {
        /// The segment identifier.
        segment_id: SegmentId,
    },
    /// A new port has joined the service.
    PortJoined {
        /// The port identifier.
        port_id: u128,
        /// The type of the port.
        port_type: PortType,
    },
    /// A port has left the service.
    PortLeft {
        /// The port identifier.
        port_id: u128,
    },
    /// The service is stopping and clients should disconnect.
    ServiceStopping,
}

/// A client can talk to a server exactly if their major versions are the same and the server's minor
/// version is not older; the current version is 1.0.
pub proof fn law_versions_are_compared(client: ProtocolVersion, server: ProtocolVersion)
    ensures
        versions_compatible(client, server) <==> client.major == server.major && client.minor
            <= server.minor,
        client.minor > server.minor ==> !versions_compatible(client, server),
        ProtocolVersion::spec_current().major == 1,
        ProtocolVersion::spec_current().minor == 0,
{
}

/// A message of an error fits exactly if it is 512 bytes long at most.
pub proof fn law_messages_are_measured_in_bytes(message: Seq<char>)
    ensures
        message_fits(message) <==> vstd::utf8::encode_utf8(message).len() <= 512,
        message.len() <= 128 ==> message_fits(message),
        MAX_HANDLES_PER_MESSAGE == 64,
        MAX_SEGMENTS_PER_ATTACH == 256,
        INVALID_SESSION_ID == 0,
{
    crate::text::lemma_encoded_length(message);
}

/// Sessions are numbered one after the other; after the largest number comes zero, which is none.
pub proof fn law_sessions_are_numbered(number: u64, start: u64)
    ensures
        number < u64::MAX ==> next_session_number(number) == number + 1,
        next_session_number(u64::MAX) == 0,
        session_number(start, 0) == start,
        start < u64::MAX ==> session_number(start, 1) == start + 1,
{
    assert(session_number(start, 1) == next_session_number(session_number(start, 0)));
}

/// Publishers and servers produce, subscribers and clients consume.
pub proof fn law_ports_produce_or_consume()
    ensures
        PortType::Publisher.is_producer(),
        PortType::Server.is_producer(),
        !PortType::Subscriber.is_producer(),
        !PortType::Client.is_producer(),
{
}

/// What a response says is what it is: the same kind, with the same values.
pub proof fn law_answers_are_as_responses(response: IamResponse)
    ensures
        match response {
            IamResponse::HelloOk { negotiated_version, session_id } => {
                &&& response@ matches Answer::HelloOk { negotiated_version: negotiated_version_told, session_id: session_id_told }
                &&& negotiated_version_told == negotiated_version
                &&& session_id_told == session_id
            },
            IamResponse::CreateServiceOk { service_id } => {
                &&& response@ matches Answer::CreateServiceOk { service_id: service_id_told }
                &&& service_id_told == service_id@
            },
            IamResponse::AttachOk { port_id, segment_info, handle_count } => {
                &&& response@ matches Answer::AttachOk { port_id: port_id_told, segment_info: segment_info_told, handle_count: handle_count_told }
                &&& port_id_told == port_id
                &&& segment_info_told == segment_info@
                &&& handle_count_told == handle_count
            },
            IamResponse::AddSegmentOk { segment_id, size, handle_count } => {
                &&& response@ matches Answer::AddSegmentOk { segment_id: segment_id_told, size: size_told, handle_count: handle_count_told }
                &&& segment_id_told == segment_id
                &&& size_told == size
                &&& handle_count_told == handle_count
            },
            IamResponse::DetachOk => response@ is DetachOk,
            IamResponse::AckOk => response@ is AckOk,
            IamResponse::Denied { reason, message } => {
                &&& response@ matches Answer::Denied { reason: reason_told, message: message_told }
                &&& reason_told == reason
                &&& message_told == message@
            },
            IamResponse::ProtocolError { message } => {
                &&& response@ matches Answer::ProtocolError { message: message_told }
                &&& message_told == message@
            },
            IamResponse::RegisterSegmentOk { segment_id } => {
                &&& response@ matches Answer::RegisterSegmentOk { segment_id: segment_id_told }
                &&& segment_id_told == segment_id
            },
            IamResponse::SegmentHandleOk { segment_info, handle_count } => {
                &&& response@ matches Answer::SegmentHandleOk { segment_info: segment_info_told, handle_count: handle_count_told }
                &&& segment_info_told == segment_info
                &&& handle_count_told == handle_count
            },
            IamResponse::SegmentHandleNotFound => response@ is SegmentHandleNotFound,
            IamResponse::RegisterDynamicSegmentOk { segment_id } => {
                &&& response@ matches Answer::RegisterDynamicSegmentOk { segment_id: segment_id_told }
                &&& segment_id_told == segment_id
            },
            IamResponse::DynamicSegmentHandleOk { segment_info, handle_count } => {
                &&& response@ matches Answer::DynamicSegmentHandleOk { segment_info: segment_info_told, handle_count: handle_count_told }
                &&& segment_info_told == segment_info
                &&& handle_count_told == handle_count
            },
            IamResponse::DynamicSegmentPending => response@ is DynamicSegmentPending,
            IamResponse::RegisterChannelOk => response@ is RegisterChannelOk,
            IamResponse::ChannelHandleOk { segment_info, handle_count } => {
                &&& response@ matches Answer::ChannelHandleOk { segment_info: segment_info_told, handle_count: handle_count_told }
                &&& segment_info_told == segment_info
                &&& handle_count_told == handle_count
            },
            IamResponse::ChannelHandleNotFound => response@ is ChannelHandleNotFound,
            IamResponse::RegisterMgmtSegmentOk => response@ is RegisterMgmtSegmentOk,
            IamResponse::MgmtSegmentHandleOk { segment_info, handle_count } => {
                &&& response@ matches Answer::MgmtSegmentHandleOk { segment_info: segment_info_told, handle_count: handle_count_told }
                &&& segment_info_told == segment_info
                &&& handle_count_told == handle_count
            },
            IamResponse::MgmtSegmentHandleNotFound => response@ is MgmtSegmentHandleNotFound,
        },
{
}

} // verus!
