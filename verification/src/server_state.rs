//! What the server knows, and what each request makes of it.

use vstd::prelude::*;
use crate::audit;
use crate::audit::AuditEventKind;
use crate::error::IamServerError;
use crate::ledger;
use crate::ledger::{Charge, Holding};
use crate::policy;
use crate::policy::{IamPolicy, QosBounds, ResourceLimits, Verdict};
use crate::protocol;
use crate::protocol::{
    Answer, DenialReason, IamNotification, IamRequest, PortType, ProtocolVersion, SegmentInfo,
    SessionId, MAX_HANDLES_PER_MESSAGE,
};
use crate::segment_manager;
use crate::segment_manager::{SegmentState, SegmentTable};
use crate::session;
use crate::session::{PortInfo, SessionState};
use crate::text;
use crate::types::{AccessRights, ProcessCredentials, SegmentId};

verus! {

/// A session, and whether its handshake is complete.
#[verifier::ext_equal]
pub struct EntryState {
    /// The session.
    pub session: SessionState,
    /// Whether the client has said hello.
    pub handshake_complete: bool,
}

impl EntryState {
    /// The session once it has to acknowledge the retirement of a segment.
    pub open spec fn with_pending(self, id: u8) -> EntryState {
        EntryState {
            session: SessionState { pending: self.session.pending.insert(id), ..self.session },
            ..self
        }
    }
}

/// A port that is to be told of new segments of a service.
#[verifier::ext_equal]
pub struct ConsumerState {
    /// The service.
    pub service: Seq<char>,
    /// The session of the port.
    pub session_id: SessionId,
    /// The port.
    pub port_id: u128,
}

/// All that a server knows.
#[verifier::ext_equal]
pub struct ServerState<H> {
    /// The sessions by number.
    pub sessions: Map<u64, EntryState>,
    /// The segments.
    pub table: SegmentTable<H>,
    /// The last port identifier that was given out.
    pub port_counter: u128,
    /// The service of each producer port.
    pub producers: Map<u128, Seq<char>>,
    /// The consumer ports in the order in which they came.
    pub consumers: Seq<ConsumerState>,
    /// What counts towards the usage of sessions, in the order in which it came.
    pub ledger: Seq<Charge>,
}

/// The Quality of Service that a port asks for.
#[derive(Debug, Clone, Copy, PartialEq, Eq)]
pub struct QosRequest {
    /// The buffer size of a subscriber.
    pub buffer_size: Option<usize>,
    /// The history size of a publisher.
    pub history_size: Option<usize>,
}

/// Whether a buffer size that a port asks for is within the bounds.
pub open spec fn buffer_within(asked: QosRequest, bounds: QosBounds) -> bool {
    asked.buffer_size matches Some(size) ==> policy::within(bounds.max_buffer_size, size)
}

/// Whether a history size that a port asks for is within the bounds.
pub open spec fn history_within(asked: QosRequest, bounds: QosBounds) -> bool {
    asked.history_size matches Some(size) ==> policy::within(bounds.max_history, size)
}

/// An event for the audit log.
pub struct AuditEntry {
    /// What kind of event occurred.
    pub kind: AuditEventKind,
    /// Credentials of the process that triggered the event.
    pub credentials: ProcessCredentials,
    /// What the policy has decided.
    pub verdict: Verdict,
}

/// A segment that is to be created for a port.
#[derive(Debug, Clone, Copy, PartialEq, Eq, Structural)]
pub struct SegmentOrder {
    /// The session that asked for the segment.
    pub session_id: SessionId,
    /// The port that the segment is for.
    pub port_id: u128,
    /// The identifier of the segment.
    pub segment_id: SegmentId,
    /// The requested size (payload size).
    pub requested_size: usize,
    /// The bucket size for the pool allocator.
    pub bucket_size: usize,
    /// The bucket alignment for the pool allocator.
    pub bucket_align: usize,
}

/// What a client registers.
#[derive(Debug, Clone, Copy, PartialEq, Eq, Structural)]
#[allow(inconsistent_fields)]
pub enum Registration {
    /// A data segment.
    Segment {
        /// The producer port.
        port_id: u128,
        /// The size of the segment in bytes.
        segment_size: usize,
    },
    /// A data segment at an index of the port's segments.
    DynamicSegment {
        /// The producer port.
        port_id: u128,
        /// The index of the segment.
        segment_index: u8,
        /// The size of the segment in bytes.
        segment_size: usize,
    },
    /// A connection channel.
    Channel {
        /// The port that sends over the channel.
        sender_port_id: u128,
        /// The port that receives over the channel.
        receiver_port_id: u128,
        /// The size of the channel in bytes.
        channel_size: usize,
    },
    /// A management segment.
    MgmtSegment {
        /// The producer port.
        port_id: u128,
        /// The size of the management segment in bytes.
        mgmt_size: usize,
    },
}

/// A registration whose handles are to be received.
#[derive(Debug, Clone, Copy, PartialEq, Eq, Structural)]
pub struct HandleOrder {
    /// The session that registers.
    pub session_id: SessionId,
    /// What it registers.
    pub registration: Registration,
}

/// What is to be done about a request.
#[verifier::ext_equal]
#[allow(inconsistent_fields)]
pub enum ReplyState<H> {
    /// Send an answer and handles to the client.
    Answer {
        /// The answer.
        answer: Answer,
        /// The handles that go with it.
        handles: Seq<H>,
    },
    /// Give the session up.
    Failed {
        /// The error.
        error: IamServerError,
    },
    /// Create a segment and go on.
    CreateSegment {
        /// The segment to create.
        order: SegmentOrder,
    },
    /// Receive handles from the client and go on.
    ReceiveHandles {
        /// The registration that the handles belong to.
        order: HandleOrder,
    },
}

/// What a request comes to.
#[verifier::ext_equal]
pub struct Effect<H> {
    /// The event for the audit log.
    pub audit: Option<AuditEntry>,
    /// What is to be done.
    pub reply: ReplyState<H>,
    /// What the server knows afterwards.
    pub state: ServerState<H>,
}

impl Registration {
    /// The size that the client has stated.
    pub open spec fn size(self) -> usize {
        match self {
            Registration::Segment { segment_size, .. } => segment_size,
            Registration::DynamicSegment { segment_size, .. } => segment_size,
            Registration::Channel { channel_size, .. } => channel_size,
            Registration::MgmtSegment { mgmt_size, .. } => mgmt_size,
        }
    }

    /// The size that the policy is asked about: channels and management segments count at
    /// least one byte.
    pub open spec fn judged_size(self) -> usize {
        match self {
            Registration::Segment { segment_size, .. } => segment_size,
            Registration::DynamicSegment { segment_size, .. } => segment_size,
            Registration::Channel { channel_size, .. } => if channel_size == 0 {
                1
            } else {
                channel_size
            },
            Registration::MgmtSegment { mgmt_size, .. } => if mgmt_size == 0 {
                1
            } else {
                mgmt_size
            },
        }
    }

    /// What a client is told that announces more handles than one message can pass.
    pub open spec fn handles_exceeded(self) -> Seq<char> {
        match self {
            Registration::Segment { .. } => "RegisterSegment announces too many handles"@,
            Registration::DynamicSegment { .. } => {
                "RegisterDynamicSegment announces too many handles"@
            },
            Registration::Channel { .. } => "RegisterChannel announces too many handles"@,
            Registration::MgmtSegment { .. } => "RegisterMgmtSegment announces too many handles"@,
        }
    }

    /// What a client is told that registers without a handle.
    pub open spec fn handle_missing(self) -> Seq<char> {
        match self {
            Registration::Segment { .. } => "RegisterSegment requires at least one handle"@,
            Registration::DynamicSegment { .. } => {
                "RegisterDynamicSegment requires at least one handle"@
            },
            Registration::Channel { .. } => "RegisterChannel requires at least one handle"@,
            Registration::MgmtSegment { .. } => {
                "RegisterMgmtSegment requires at least one handle"@
            },
        }
    }
}

/// The ports of a type in words.
pub open spec fn port_type_plural(port_type: PortType) -> Seq<char> {
    match port_type {
        PortType::Publisher => "publishers"@,
        PortType::Subscriber => "subscribers"@,
        PortType::Server => "servers"@,
        PortType::Client => "clients"@,
    }
}

/// What a session is told that has as many ports of a type as it may have.
pub open spec fn port_limit_reached(port_type: PortType, max: usize) -> Answer {
    Answer::Denied {
        reason: DenialReason::ResourceLimitExceeded,
        message: "Maximum "@ + port_type_plural(port_type) + " ("@ + text::decimal(max as nat)
            + ") reached"@,
    }
}

/// What a session is told that has as many segments as it may have.
pub open spec fn segment_limit_reached() -> Answer {
    Answer::Denied {
        reason: DenialReason::ResourceLimitExceeded,
        message: "Maximum segment count reached"@,
    }
}

/// What a client is told whose port asks for more than the bounds allow.
pub open spec fn qos_refused(what: Seq<char>) -> Answer {
    Answer::Denied {
        reason: DenialReason::IncompatibleQos,
        message: "Requested "@ + what + " exceeds the QoS bounds"@,
    }
}

/// What a client is told that asks before it has said hello.
pub open spec fn handshake_missing() -> Answer {
    Answer::ProtocolError { message: "Handshake not complete"@ }
}

/// What a client is told whose version the server does not accept.
pub open spec fn version_refused(client: ProtocolVersion) -> Answer {
    Answer::Denied {
        reason: DenialReason::VersionMismatch,
        message: "Client version "@ + text::decimal(client.major as nat) + "."@ + text::decimal(
            client.minor as nat,
        ) + " not compatible with server version "@ + text::decimal(
            ProtocolVersion::current().major as nat,
        ) + "."@ + text::decimal(ProtocolVersion::current().minor as nat),
    }
}

/// The segments once several ports are reaped, one after the other.
pub open spec fn table_without_ports<H>(table: SegmentTable<H>, ports: Seq<PortInfo>) -> SegmentTable<
    H,
>
    decreases ports.len(),
{
    if ports.len() == 0 {
        table
    } else {
        table_without_ports(table, ports.drop_last()).without_port(ports.last().port_id)
    }
}

/// The producer ports once those among several ports are gone.
pub open spec fn producers_without_ports(
    producers: Map<u128, Seq<char>>,
    ports: Seq<PortInfo>,
) -> Map<u128, Seq<char>>
    decreases ports.len(),
{
    if ports.len() == 0 {
        producers
    } else {
        let rest = producers_without_ports(producers, ports.drop_last());
        if ports.last().port_type.is_producer() {
            rest.remove(ports.last().port_id)
        } else {
            rest
        }
    }
}

/// What is sent to a consumer of a new segment.
#[verifier::ext_equal]
pub struct NoticeState<H> {
    /// The session of the consumer.
    pub session_id: SessionId,
    /// The notification.
    pub notification: IamNotification,
    /// The handle that goes with it.
    pub handle: H,
}

/// The server once the first `n` consumers were told of a new segment: their sessions are granted
/// it. Consumers are passed over for whom a duplicate of the handle is missing.
pub open spec fn after_broadcast<H>(
    state: ServerState<H>,
    segment_id: SegmentId,
    consumers: Seq<(SessionId, u128)>,
    copies: Seq<(Option<H>, Option<H>)>,
    n: int,
) -> ServerState<H>
    decreases n,
{
    if n <= 0 {
        state
    } else {
        let rest = after_broadcast(state, segment_id, consumers, copies, n - 1);
        if copies[n - 1].0 is Some && copies[n - 1].1 is Some && rest.table.grantable(
            segment_id.value,
        ) {
            ServerState {
                table: rest.table.with_session(segment_id.value, consumers[n - 1].0.value),
                ..rest
            }.with_grant(consumers[n - 1].0, segment_id)
        } else {
            rest
        }
    }
}

/// What came of duplicating the handle at an index; nothing, where nothing was said of it.
pub open spec fn copy_at<H>(copies: Seq<Option<H>>, i: int) -> Option<H> {
    if 0 <= i < copies.len() {
        copies[i]
    } else {
        None
    }
}

/// The first `n` segments that are offered to a subscriber, each with the duplicate of its
/// handle. Those are left out for which a duplicate is missing.
pub open spec fn offered<H>(
    segment_info: Seq<SegmentInfo>,
    copies: Seq<Option<H>>,
    n: int,
) -> Seq<(SegmentInfo, H)>
    decreases n,
{
    if n <= 0 {
        Seq::empty()
    } else {
        let rest = offered(segment_info, copies, n - 1);
        match copy_at(copies, n - 1) {
            Some(handle) => rest.push((segment_info[n - 1], handle)),
            None => rest,
        }
    }
}

/// What is sent to the first `n` consumers of a new segment.
pub open spec fn notices<H>(
    state: ServerState<H>,
    segment_id: SegmentId,
    size: usize,
    consumers: Seq<(SessionId, u128)>,
    copies: Seq<(Option<H>, Option<H>)>,
    n: int,
) -> Seq<NoticeState<H>>
    decreases n,
{
    if n <= 0 {
        Seq::empty()
    } else {
        let rest = notices(state, segment_id, size, consumers, copies, n - 1);
        if copies[n - 1].0 is Some && copies[n - 1].1 is Some && state.table.grantable(
            segment_id.value,
        ) && state.sessions.contains_key(consumers[n - 1].0.value) {
            rest.push(
                NoticeState {
                    session_id: consumers[n - 1].0,
                    notification: IamNotification::SegmentUpdate {
                        segment_id,
                        size,
                        handle_count: 1,
                    },
                    handle: copies[n - 1].0->0,
                },
            )
        } else {
            rest
        }
    }
}

impl<H> ServerState<H> {
    /// A server that nobody has connected to.
    pub open spec fn empty() -> Self {
        ServerState {
            sessions: Map::empty(),
            table: SegmentTable::empty(),
            port_counter: 0,
            producers: Map::empty(),
            consumers: Seq::empty(),
            ledger: Seq::empty(),
        }
    }

    /// The server once a session is there.
    pub open spec fn with_new_session(self, session: SessionState) -> Self {
        ServerState {
            sessions: self.sessions.insert(
                session.id.value,
                EntryState { session, handshake_complete: false },
            ),
            ..self
        }
    }

    /// The server once the client of a session has said hello.
    pub open spec fn with_handshake(self, session_id: SessionId) -> Self {
        ServerState {
            sessions: self.sessions.insert(
                session_id.value,
                EntryState { handshake_complete: true, ..self.sessions[session_id.value] },
            ),
            ..self
        }
    }

    /// The server once a session has changed.
    pub open spec fn with_session(self, session_id: SessionId, session: SessionState) -> Self {
        ServerState {
            sessions: self.sessions.insert(
                session_id.value,
                EntryState { session, ..self.sessions[session_id.value] },
            ),
            ..self
        }
    }

    /// The server once something that a session has brought counts for it, where the session is
    /// there.
    pub open spec fn with_charge(
        self,
        session_id: SessionId,
        holding: Holding,
        size: usize,
    ) -> Self {
        if self.sessions.contains_key(session_id.value) {
            let session = self.sessions[session_id.value].session;
            ServerState {
                ledger: self.ledger.push(Charge { session_id, holding, size }),
                ..self.with_session(
                    session_id,
                    SessionState { usage: session.usage.with_segment(size), ..session },
                )
            }
        } else {
            self
        }
    }

    /// The server once a session is granted a segment, where the session is there. A segment that
    /// counts for the session already, because it was granted it before or has brought it, does
    /// not count again.
    pub open spec fn with_grant(self, session_id: SessionId, segment_id: SegmentId) -> Self {
        let session = self.sessions[session_id.value].session;
        let granted = SessionState { granted: session.granted.insert(segment_id.value), ..session };
        let holding = Holding::Segment { segment_id };
        if !self.sessions.contains_key(session_id.value) {
            self
        } else if ledger::is_charged(self.ledger, session_id, holding) {
            self.with_session(session_id, granted)
        } else {
            self.with_session(session_id, granted).with_charge(
                session_id,
                holding,
                self.table.segments[segment_id.value].size,
            )
        }
    }

    /// The server once what is gone, or was replaced, counts for no session any more.
    pub open spec fn settled(self, replaced: Option<Holding>) -> Self {
        ServerState {
            sessions: ledger::settled_sessions(self.sessions, self.ledger, self.table, replaced),
            ledger: self.ledger.filter(|charge: Charge| charge.lasts(self.table, replaced)),
            ..self
        }
    }

    /// Whether the segments of a session can be counted further.
    pub open spec fn counts_further(self, session_id: SessionId) -> bool {
        self.sessions.contains_key(session_id.value)
            ==> self.sessions[session_id.value].session.usage.segment_count < usize::MAX
    }

    /// Whether a session can be granted a segment: it counts for the session already, or the
    /// session's segments can be counted further.
    pub open spec fn can_grant(self, session_id: SessionId, segment_id: SegmentId) -> bool {
        ledger::is_charged(self.ledger, session_id, Holding::Segment { segment_id })
            || self.counts_further(session_id)
    }

    /// The server once a session has a new port.
    pub open spec fn with_new_port(
        self,
        session_id: SessionId,
        service: Seq<char>,
        port_type: PortType,
    ) -> Self {
        let port_id = (self.port_counter + 1) as u128;
        let session = self.sessions[session_id.value].session.with_port(port_id, port_type);
        let grown = ServerState { port_counter: port_id, ..self.with_session(session_id, session) };
        if port_type.is_producer() {
            ServerState { producers: self.producers.insert(port_id, service), ..grown }
        } else {
            ServerState {
                consumers: self.consumers.push(ConsumerState { service, session_id, port_id }),
                ..grown
            }
        }
    }

    /// The server once a session has given up a port.
    pub open spec fn without_port(self, session_id: SessionId, port_id: u128) -> Self {
        let session = self.sessions[session_id.value].session;
        let reaped = ServerState {
            table: self.table.without_port(port_id),
            ..self.with_session(session_id, session.without_port(port_id))
        };
        match session::type_of(session.ports, port_id) {
            Some(port_type) => if port_type.is_producer() {
                ServerState { producers: self.producers.remove(port_id), ..reaped }
            } else {
                ServerState {
                    consumers: self.consumers.filter(
                        |consumer: ConsumerState|
                            !(consumer.session_id == session_id && consumer.port_id == port_id),
                    ),
                    ..reaped
                }
            },
            None => reaped,
        }
    }

    /// The server once a session is gone, with all that its ports have registered and all
    /// access that it had; what is left of it is settled.
    pub open spec fn removed(self, session_id: SessionId) -> Self {
        self.without_session(session_id).settled(None)
    }

    /// The server without a session, what its ports have registered, its access and what counts
    /// for it.
    pub open spec fn without_session(self, session_id: SessionId) -> Self {
        let ports = if self.sessions.contains_key(session_id.value) {
            self.sessions[session_id.value].session.ports
        } else {
            Seq::empty()
        };
        ServerState {
            sessions: self.sessions.remove(session_id.value),
            table: table_without_ports(self.table, ports).without_session(session_id.value),
            producers: producers_without_ports(self.producers, ports),
            consumers: self.consumers.filter(
                |consumer: ConsumerState| consumer.session_id != session_id,
            ),
            ledger: self.ledger.filter(|charge: Charge| charge.session_id != session_id),
            ..self
        }
    }

    /// The server once the retirement of a segment began: the sessions that have to acknowledge
    /// it have it pending.
    pub open spec fn with_retirement(self, segment_id: SegmentId) -> Self {
        let retired = self.table.segments[segment_id.value].retired();
        ServerState {
            sessions: self.sessions.map_entries(
                |key: u64, entry: EntryState|
                    if retired.pending.contains(key) {
                        entry.with_pending(segment_id.value)
                    } else {
                        entry
                    },
            ),
            table: SegmentTable {
                segments: self.table.segments.insert(segment_id.value, retired),
                ..self.table
            },
            ..self
        }
    }

    /// The sessions and ports that are told of new segments of a service.
    pub open spec fn consumers_of(self, service: Seq<char>) -> Seq<(SessionId, u128)> {
        self.consumers.filter(
            |consumer: ConsumerState| consumer.service == service,
        ).map_values(|consumer: ConsumerState| (consumer.session_id, consumer.port_id))
    }

    /// An answer that leaves the server as it is.
    pub open spec fn only_answer(self, audit: Option<AuditEntry>, answer: Answer) -> Effect<H> {
        Effect { audit, reply: ReplyState::Answer { answer, handles: Seq::empty() }, state: self }
    }

    /// A failure that leaves the server as it is.
    pub open spec fn only_failure(
        self,
        audit: Option<AuditEntry>,
        error: IamServerError,
    ) -> Effect<H> {
        Effect { audit, reply: ReplyState::Failed { error }, state: self }
    }

    /// What comes of hello: a session identifier for clients of a version that the server
    /// accepts.
    pub open spec fn hello(self, session_id: SessionId, version: ProtocolVersion) -> Effect<H> {
        if protocol::versions_compatible(version, ProtocolVersion::current()) {
            Effect {
                audit: None,
                reply: ReplyState::Answer {
                    answer: Answer::HelloOk {
                        negotiated_version: ProtocolVersion::current(),
                        session_id,
                    },
                    handles: Seq::empty(),
                },
                state: self.with_handshake(session_id),
            }
        } else {
            self.only_answer(None, version_refused(version))
        }
    }

    /// What comes of asking for a service to be created.
    pub open spec fn create_service(self, audit: AuditEntry) -> Effect<H> {
        self.only_answer(
            Some(audit),
            match audit.verdict {
                Verdict::Deny { reason, message } => Answer::Denied { reason, message },
                Verdict::Allow => Answer::ProtocolError {
                    message: "Service creation not yet implemented"@,
                },
            },
        )
    }

    /// The segments that an attached port is offered, each with a duplicate of its handle:
    /// subscribers get the active segments that their session may access, as many as one message
    /// can pass, given what came of duplicating their handles.
    pub open spec fn offer(
        self,
        session_id: SessionId,
        port_type: PortType,
        copies: Seq<Option<H>>,
    ) -> Seq<(SegmentInfo, H)> {
        let segment_info = segment_manager::session_infos(self.table, session_id);
        if !(port_type is Subscriber) {
            Seq::empty()
        } else if segment_info.len() <= MAX_HANDLES_PER_MESSAGE {
            offered(segment_info, copies, segment_info.len() as int)
        } else {
            offered(segment_info, copies, MAX_HANDLES_PER_MESSAGE as int)
        }
    }

    /// What an attached port is told of the segments that it is offered: as many handles go with
    /// the answer as it announces.
    pub open spec fn attach_reply(self, offer: Seq<(SegmentInfo, H)>) -> ReplyState<H> {
        ReplyState::Answer {
            answer: Answer::AttachOk {
                port_id: (self.port_counter + 1) as u128,
                segment_info: offer.map_values(|one: (SegmentInfo, H)| one.0),
                handle_count: offer.len() as int,
            },
            handles: offer.map_values(|one: (SegmentInfo, H)| one.1),
        }
    }

    /// What comes of attaching a port that the policy allows: the session must not have as many
    /// ports of the type as it may have, nor, for publishers, as many segments, and what the port
    /// asks for must be within the bounds.
    pub open spec fn attach_within(
        self,
        session_id: SessionId,
        service: Seq<char>,
        port_type: PortType,
        asked: QosRequest,
        limits: ResourceLimits,
        bounds: QosBounds,
        copies: Seq<Option<H>>,
    ) -> Effect<H> {
        let session = self.sessions[session_id.value].session;
        let max = limits.port_limit(port_type);
        let audit = |port_id: u128|
            AuditEntry {
                kind: AuditEventKind::Attach { port_type, port_id },
                credentials: session.credentials,
                verdict: Verdict::Allow,
            };
        if session.usage.ports(port_type) >= max {
            self.only_answer(Some(audit(0)), port_limit_reached(port_type, max))
        } else if port_type is Publisher && session.usage.segment_count >= limits.max_segments {
            self.only_answer(Some(audit(0)), segment_limit_reached())
        } else if !buffer_within(asked, bounds) {
            self.only_answer(Some(audit(0)), qos_refused("buffer size"@))
        } else if !history_within(asked, bounds) {
            self.only_answer(Some(audit(0)), qos_refused("history size"@))
        } else {
            Effect {
                audit: Some(audit((self.port_counter + 1) as u128)),
                reply: self.attach_reply(self.offer(session_id, port_type, copies)),
                state: self.with_new_port(session_id, service, port_type),
            }
        }
    }

    /// What comes of attaching a port.
    pub open spec fn attach(
        self,
        session_id: SessionId,
        service: Seq<char>,
        port_type: PortType,
        asked: QosRequest,
        verdict: Verdict,
        limits: ResourceLimits,
        bounds: QosBounds,
        copies: Seq<Option<H>>,
    ) -> Effect<H> {
        match verdict {
            Verdict::Deny { reason, message } => self.only_answer(
                Some(
                    AuditEntry {
                        kind: AuditEventKind::Attach { port_type, port_id: 0 },
                        credentials: self.sessions[session_id.value].session.credentials,
                        verdict,
                    },
                ),
                Answer::Denied { reason, message },
            ),
            Verdict::Allow => self.attach_within(
                session_id,
                service,
                port_type,
                asked,
                limits,
                bounds,
                copies,
            ),
        }
    }

    /// The event of a segment that is asked for.
    pub open spec fn segment_event(
        self,
        session_id: SessionId,
        size: usize,
        verdict: Verdict,
    ) -> AuditEntry {
        AuditEntry {
            kind: AuditEventKind::AddSegment { size },
            credentials: self.sessions[session_id.value].session.credentials,
            verdict,
        }
    }

    /// What comes of asking for a segment that the policy allows: it is ordered if the session
    /// has not as many segments as it may have, the size is not zero, and an identifier is
    /// free.
    pub open spec fn add_segment_within(
        self,
        session_id: SessionId,
        port_id: u128,
        requested_size: usize,
        bucket_size: usize,
        bucket_align: usize,
        limits: ResourceLimits,
    ) -> Effect<H> {
        let audit = Some(self.segment_event(session_id, requested_size, Verdict::Allow));
        let usage = self.sessions[session_id.value].session.usage;
        if usage.segment_count >= limits.max_segments {
            self.only_answer(audit, segment_limit_reached())
        } else if requested_size == 0 {
            self.only_answer(
                audit,
                Answer::Denied {
                    reason: DenialReason::InvalidRequest,
                    message: "Segment size cannot be zero"@,
                },
            )
        } else {
            match self.table.next_free() {
                Some(id) => Effect {
                    audit,
                    reply: ReplyState::CreateSegment {
                        order: SegmentOrder {
                            session_id,
                            port_id,
                            segment_id: SegmentId { value: id },
                            requested_size,
                            bucket_size,
                            bucket_align,
                        },
                    },
                    state: ServerState { table: self.table.scanned_past(id), ..self },
                },
                None => self.only_failure(audit, IamServerError::ResourceLimitExceeded),
            }
        }
    }

    /// What comes of asking for a segment.
    pub open spec fn add_segment(
        self,
        session_id: SessionId,
        port_id: u128,
        requested_size: usize,
        bucket_size: usize,
        bucket_align: usize,
        verdict: Verdict,
        limits: ResourceLimits,
    ) -> Effect<H> {
        match verdict {
            Verdict::Deny { reason, message } => self.only_answer(
                Some(self.segment_event(session_id, requested_size, verdict)),
                Answer::Denied { reason, message },
            ),
            Verdict::Allow => self.add_segment_within(
                session_id,
                port_id,
                requested_size,
                bucket_size,
                bucket_align,
                limits,
            ),
        }
    }

    /// What comes of an ordered segment, given what came of creating it and of duplicating its
    /// handle for the server.
    pub open spec fn segment_created(
        self,
        order: SegmentOrder,
        created: Result<(H, usize), IamServerError>,
        kept: Option<H>,
    ) -> Effect<H> {
        match created {
            Err(error) => if error == IamServerError::SegmentCreationNotSupported {
                self.only_answer(
                    None,
                    Answer::Denied {
                        reason: DenialReason::InvalidRequest,
                        message: "Segment creation not supported by this service"@,
                    },
                )
            } else if error == IamServerError::SegmentCreationFailed {
                self.only_answer(
                    None,
                    Answer::Denied {
                        reason: DenialReason::InternalError,
                        message: "Failed to create segment"@,
                    },
                )
            } else {
                self.only_failure(None, error)
            },
            Ok((handle, size)) => match kept {
                None => self.only_failure(None, IamServerError::HandlePassingFailed),
                Some(own) => if size == 0 {
                    self.only_failure(None, IamServerError::InvalidSegmentSize)
                } else {
                    Effect {
                        audit: None,
                        reply: ReplyState::Answer {
                            answer: Answer::AddSegmentOk {
                                segment_id: order.segment_id,
                                size,
                                handle_count: 1,
                            },
                            handles: seq![handle],
                        },
                        state: ServerState {
                            table: self.table.with_segment(
                                order.segment_id,
                                own,
                                size,
                                AccessRights { read: true, write: true },
                            ).with_placed(order.port_id, order.segment_id.value, order.segment_id),
                            ..self
                        }.settled(
                            Some(Holding::Segment { segment_id: order.segment_id }),
                        ).with_charge(
                            order.session_id,
                            Holding::Segment { segment_id: order.segment_id },
                            size,
                        ),
                    }
                },
            },
        }
    }

    /// What comes of giving up a port: what it has registered is gone, and counts no more.
    pub open spec fn detach(self, session_id: SessionId, port_id: u128) -> Effect<H> {
        Effect {
            audit: Some(
                AuditEntry {
                    kind: AuditEventKind::Detach { port_id },
                    credentials: self.sessions[session_id.value].session.credentials,
                    verdict: Verdict::Allow,
                },
            ),
            reply: ReplyState::Answer { answer: Answer::DetachOk, handles: Seq::empty() },
            state: self.without_port(session_id, port_id).settled(None),
        }
    }

    /// What comes of acknowledging a retirement: it counts if the session has it pending. With
    /// the last acknowledgment the segment is gone, and counts no more.
    pub open spec fn ack_retirement(
        self,
        session_id: SessionId,
        segment_id: SegmentId,
    ) -> Effect<H> {
        let session = self.sessions[session_id.value].session;
        if session.pending.contains(segment_id.value) {
            Effect {
                audit: None,
                reply: ReplyState::Answer { answer: Answer::AckOk, handles: Seq::empty() },
                state: ServerState {
                    table: segment_manager::table_after_ack(self.table, segment_id, session_id),
                    ..self.with_session(
                        session_id,
                        SessionState { pending: session.pending.remove(segment_id.value), ..session },
                    )
                }.settled(None),
            }
        } else {
            self.only_answer(
                None,
                Answer::Denied {
                    reason: DenialReason::Unauthorized,
                    message: "Session not authorized for this segment retirement"@,
                },
            )
        }
    }

    /// A handle that is handed out with an answer.
    pub open spec fn hand_out(self, handle: H, answer: Answer, table: SegmentTable<H>) -> Effect<H> {
        Effect {
            audit: None,
            reply: ReplyState::Answer { answer, handles: seq![handle] },
            state: ServerState { table, ..self },
        }
    }

    /// A segment that is granted to a session, with an answer and a duplicate of its handle.
    pub open spec fn grant(
        self,
        session_id: SessionId,
        segment_id: SegmentId,
        handle: H,
        answer: Answer,
    ) -> Effect<H> {
        Effect {
            audit: None,
            reply: ReplyState::Answer { answer, handles: seq![handle] },
            state: ServerState {
                table: self.table.with_session(segment_id.value, session_id.value),
                ..self
            }.with_grant(session_id, segment_id),
        }
    }

    /// What comes of asking for the first segment of a port.
    pub open spec fn request_segment(
        self,
        session_id: SessionId,
        port_id: u128,
        duplicate: Option<H>,
    ) -> Effect<H> {
        let id = self.table.first_of_port(port_id);
        match segment_manager::grant_result(self.table, id, duplicate) {
            Some((segment_info, handle)) => self.grant(
                session_id,
                SegmentId { value: id->0 },
                handle,
                Answer::SegmentHandleOk { segment_info, handle_count: 1 },
            ),
            None => self.only_answer(None, Answer::SegmentHandleNotFound),
        }
    }

    /// What comes of asking for the segment at an index of a port.
    pub open spec fn request_dynamic_segment(
        self,
        session_id: SessionId,
        port_id: u128,
        index: u8,
        duplicate: Option<H>,
    ) -> Effect<H> {
        let id = self.table.at_index_of_port(port_id, index);
        match segment_manager::grant_result(self.table, id, duplicate) {
            Some((segment_info, handle)) => self.grant(
                session_id,
                SegmentId { value: id->0 },
                handle,
                Answer::DynamicSegmentHandleOk { segment_info, handle_count: 1 },
            ),
            None => self.only_answer(None, Answer::DynamicSegmentPending),
        }
    }

    /// What comes of asking for the channel between two ports.
    pub open spec fn request_channel(
        self,
        session_id: SessionId,
        pair: (u128, u128),
        duplicate: Option<H>,
    ) -> Effect<H> {
        match segment_manager::keyed_grant(self.table.channels, pair, duplicate) {
            Some((segment_info, handle)) => self.hand_out(
                handle,
                Answer::ChannelHandleOk { segment_info, handle_count: 1 },
                SegmentTable {
                    channels: segment_manager::after_keyed_grant(
                        self.table.channels,
                        pair,
                        session_id,
                        duplicate,
                    ),
                    ..self.table
                },
            ),
            None => self.only_answer(None, Answer::ChannelHandleNotFound),
        }
    }

    /// What comes of asking for the management segment of a port.
    pub open spec fn request_mgmt_segment(
        self,
        session_id: SessionId,
        port_id: u128,
        duplicate: Option<H>,
    ) -> Effect<H> {
        match segment_manager::keyed_grant(self.table.mgmt_segments, port_id, duplicate) {
            Some((segment_info, handle)) => self.hand_out(
                handle,
                Answer::MgmtSegmentHandleOk { segment_info, handle_count: 1 },
                SegmentTable {
                    mgmt_segments: segment_manager::after_keyed_grant(
                        self.table.mgmt_segments,
                        port_id,
                        session_id,
                        duplicate,
                    ),
                    ..self.table
                },
            ),
            None => self.only_answer(None, Answer::MgmtSegmentHandleNotFound),
        }
    }

    /// What comes of a registration that the policy allows: its handles are received if the
    /// session has not as many segments as it may have and sends at least one handle, and not more
    /// than one message can pass.
    pub open spec fn register_within(
        self,
        session_id: SessionId,
        registration: Registration,
        handle_count: usize,
        limits: ResourceLimits,
    ) -> Effect<H> {
        let audit = Some(self.segment_event(session_id, registration.size(), Verdict::Allow));
        let usage = self.sessions[session_id.value].session.usage;
        if usage.segment_count >= limits.max_segments {
            self.only_answer(audit, segment_limit_reached())
        } else if handle_count == 0 {
            self.only_answer(
                audit,
                Answer::ProtocolError { message: registration.handle_missing() },
            )
        } else if handle_count > MAX_HANDLES_PER_MESSAGE {
            self.only_answer(
                audit,
                Answer::ProtocolError { message: registration.handles_exceeded() },
            )
        } else {
            Effect {
                audit,
                reply: ReplyState::ReceiveHandles {
                    order: HandleOrder { session_id, registration },
                },
                state: self,
            }
        }
    }

    /// What comes of a registration.
    pub open spec fn register(
        self,
        session_id: SessionId,
        registration: Registration,
        handle_count: usize,
        verdict: Verdict,
        limits: ResourceLimits,
    ) -> Effect<H> {
        if !self.sessions.contains_key(session_id.value) {
            self.only_failure(None, IamServerError::SessionNotFound)
        } else if !self.sessions[session_id.value].handshake_complete {
            self.only_answer(None, handshake_missing())
        } else {
            match verdict {
                Verdict::Deny { reason, message } => self.only_answer(
                    Some(self.segment_event(session_id, registration.size(), verdict)),
                    Answer::Denied { reason, message },
                ),
                Verdict::Allow => self.register_within(
                    session_id,
                    registration,
                    handle_count,
                    limits,
                ),
            }
        }
    }

    /// The segments once the first of the received handles is registered, under what, and what
    /// the client is told; or why it cannot be.
    pub open spec fn filed(self, registration: Registration, handle: H) -> Result<
        (SegmentTable<H>, Holding, Answer),
        IamServerError,
    > {
        let read_only = AccessRights { read: true, write: false };
        match registration {
            Registration::Segment { port_id, segment_size } => if segment_size == 0 {
                Err(IamServerError::InvalidSegmentSize)
            } else {
                match self.table.next_free() {
                    Some(id) => {
                        let segment_id = SegmentId { value: id };
                        Ok(
                            (
                                self.table.scanned_past(id).with_segment(
                                    segment_id,
                                    handle,
                                    segment_size,
                                    read_only,
                                ).with_last_of_port(port_id, segment_id),
                                Holding::Segment { segment_id },
                                Answer::RegisterSegmentOk { segment_id },
                            ),
                        )
                    },
                    None => Err(IamServerError::ResourceLimitExceeded),
                }
            },
            Registration::DynamicSegment { port_id, segment_index, segment_size } => {
                if segment_size == 0 {
                    Err(IamServerError::InvalidSegmentSize)
                } else {
                    match self.table.next_free() {
                        Some(id) => {
                            let segment_id = SegmentId { value: id };
                            Ok(
                                (
                                    self.table.scanned_past(id).with_segment(
                                        segment_id,
                                        handle,
                                        segment_size,
                                        read_only,
                                    ).with_placed(port_id, segment_index, segment_id),
                                    Holding::Segment { segment_id },
                                    Answer::RegisterDynamicSegmentOk { segment_id: segment_index },
                                ),
                            )
                        },
                        None => Err(IamServerError::ResourceLimitExceeded),
                    }
                }
            },
            Registration::Channel { sender_port_id, receiver_port_id, channel_size } => Ok(
                (
                    SegmentTable {
                        channels: self.table.channels.insert(
                            (sender_port_id, receiver_port_id),
                            segment_manager::channel_state(handle, channel_size),
                        ),
                        ..self.table
                    },
                    Holding::Channel { sender_port_id, receiver_port_id },
                    Answer::RegisterChannelOk,
                ),
            ),
            Registration::MgmtSegment { port_id, mgmt_size } => Ok(
                (
                    SegmentTable {
                        mgmt_segments: self.table.mgmt_segments.insert(
                            port_id,
                            segment_manager::mgmt_state(handle, mgmt_size),
                        ),
                        ..self.table
                    },
                    Holding::MgmtSegment { port_id },
                    Answer::RegisterMgmtSegmentOk,
                ),
            ),
        }
    }

    /// What comes of the handles that were received for a registration: what is registered counts
    /// for the session, and what it replaces does no more.
    pub open spec fn handles_received(self, order: HandleOrder, handles: Seq<H>) -> Effect<H> {
        if handles.len() == 0 {
            self.only_failure(None, IamServerError::HandlePassingFailed)
        } else {
            match self.filed(order.registration, handles[0]) {
                Ok((table, holding, answer)) => Effect {
                    audit: None,
                    reply: ReplyState::Answer { answer, handles: Seq::empty() },
                    state: ServerState { table, ..self }.settled(Some(holding)).with_charge(
                        order.session_id,
                        holding,
                        order.registration.size(),
                    ),
                },
                Err(error) => self.only_failure(None, error),
            }
        }
    }
}

/// The registration that a request asks for, with the service and the number of handles.
pub open spec fn registration_of(request: IamRequest) -> Option<(Registration, Seq<char>, usize)> {
    match request {
        IamRequest::RegisterSegment { service_id, port_id, segment_size, handle_count } => Some(
            (Registration::Segment { port_id, segment_size }, service_id@, handle_count),
        ),
        IamRequest::RegisterDynamicSegment {
            service_id,
            port_id,
            segment_id,
            segment_size,
            handle_count,
        } => Some(
            (
                Registration::DynamicSegment { port_id, segment_index: segment_id, segment_size },
                service_id@,
                handle_count,
            ),
        ),
        IamRequest::RegisterChannel {
            service_id,
            sender_port_id,
            receiver_port_id,
            channel_size,
            handle_count,
        } => Some(
            (
                Registration::Channel { sender_port_id, receiver_port_id, channel_size },
                service_id@,
                handle_count,
            ),
        ),
        IamRequest::RegisterMgmtSegment { service_id, port_id, mgmt_size, handle_count } => Some(
            (Registration::MgmtSegment { port_id, mgmt_size }, service_id@, handle_count),
        ),
        _ => None,
    }
}

/// What a client is told whose registration comes where no handles can be received.
pub open spec fn registration_misplaced(registration: Registration) -> Answer {
    Answer::ProtocolError {
        message: match registration {
            Registration::Segment { .. } => "RegisterSegment must be handled in dispatch loop"@,
            Registration::DynamicSegment { .. } => {
                "RegisterDynamicSegment must be handled in dispatch loop"@
            },
            Registration::Channel { .. } => "RegisterChannel must be handled in dispatch loop"@,
            Registration::MgmtSegment { .. } => {
                "RegisterMgmtSegment must be handled in dispatch loop"@
            },
        },
    }
}

/// The port that a request wants to attach, and to which service.
pub open spec fn attachment_of(request: IamRequest) -> Option<(PortType, Seq<char>)> {
    match request {
        IamRequest::AttachPublisher { service_id, .. } => Some((PortType::Publisher, service_id@)),
        IamRequest::AttachSubscriber { service_id, .. } => Some((PortType::Subscriber, service_id@)),
        IamRequest::AttachServer { service_id, .. } => Some((PortType::Server, service_id@)),
        IamRequest::AttachClient { service_id, .. } => Some((PortType::Client, service_id@)),
        _ => None,
    }
}

/// The Quality of Service that the port of a request asks for.
pub open spec fn qos_of(request: IamRequest) -> QosRequest {
    match request {
        IamRequest::AttachPublisher { history_size, .. } => QosRequest {
            buffer_size: None,
            history_size: Some(history_size),
        },
        IamRequest::AttachSubscriber { buffer_size, .. } => QosRequest {
            buffer_size: Some(buffer_size),
            history_size: None,
        },
        _ => QosRequest { buffer_size: None, history_size: None },
    }
}

/// Whether a request is one for the handle of a data segment, which grants the segment.
pub open spec fn asks_for_segment(request: IamRequest) -> bool {
    request is RequestSegmentHandle || request is RequestDynamicSegmentHandle
}

/// Whether a policy may rule on a request as given: the verdict is one that it may give, and for
/// an allowed request the limits, and for a port the bounds, are ones that it may set.
pub open spec fn may_rule<P: IamPolicy>(
    policy: P,
    credentials: ProcessCredentials,
    request: IamRequest,
    verdict: Verdict,
    limits: ResourceLimits,
    bounds: QosBounds,
) -> bool {
    match request {
        IamRequest::CreateService { service_name, messaging_pattern } => policy.may_decide_create(
            credentials,
            service_name@,
            messaging_pattern,
            verdict,
        ),
        IamRequest::AddSegment { service_id, requested_size, .. } => {
            &&& policy.may_decide_add_segment(credentials, service_id@, requested_size, verdict)
            &&& verdict is Allow ==> policy.may_limit(credentials, limits)
        },
        _ => {
            &&& attachment_of(request) matches Some((port_type, service))
                ==> policy.may_decide_attach(credentials, service, port_type, verdict) && (verdict
                is Allow ==> policy.may_limit(credentials, limits) && policy.may_bound(
                credentials,
                bounds,
            ))
            &&& registration_of(request) matches Some((registration, service, _))
                ==> policy.may_decide_add_segment(
                credentials,
                service,
                registration.judged_size(),
                verdict,
            ) && (verdict is Allow ==> policy.may_limit(credentials, limits))
        },
    }
}

impl<H> ServerState<H> {
    /// Whether the server can number and count what a request of a session may bring: a port
    /// that is attached, a segment that is granted.
    pub open spec fn ready_for(self, session_id: SessionId, request: IamRequest) -> bool {
        &&& attachment_of(request) is Some ==> self.port_counter < u128::MAX
        &&& asks_for_segment(request) ==> self.counts_further(session_id)
    }

    /// What comes of a request of a session, given what the policy says to it and what came of
    /// duplicating the handles that it asks for. Registrations are refused.
    pub open spec fn request(
        self,
        session_id: SessionId,
        request: IamRequest,
        verdict: Verdict,
        limits: ResourceLimits,
        bounds: QosBounds,
        copies: Seq<Option<H>>,
    ) -> Effect<H> {
        if !self.sessions.contains_key(session_id.value) {
            self.only_failure(None, IamServerError::SessionNotFound)
        } else if let IamRequest::Hello { protocol_version, .. } = request {
            self.hello(session_id, protocol_version)
        } else if registration_of(request) is Some {
            self.only_answer(None, registration_misplaced((registration_of(request)->0).0))
        } else if !self.sessions[session_id.value].handshake_complete {
            self.only_answer(None, handshake_missing())
        } else {
            self.admitted_request(session_id, request, verdict, limits, bounds, copies)
        }
    }

    /// What comes of a request of a session whose handshake is complete.
    pub open spec fn admitted_request(
        self,
        session_id: SessionId,
        request: IamRequest,
        verdict: Verdict,
        limits: ResourceLimits,
        bounds: QosBounds,
        copies: Seq<Option<H>>,
    ) -> Effect<H> {
        match request {
            IamRequest::CreateService { messaging_pattern, .. } => self.create_service(
                AuditEntry {
                    kind: AuditEventKind::Create { messaging_pattern },
                    credentials: self.sessions[session_id.value].session.credentials,
                    verdict,
                },
            ),
            IamRequest::AttachPublisher { service_id, .. } => self.attach(
                session_id,
                service_id@,
                PortType::Publisher,
                qos_of(request),
                verdict,
                limits,
                bounds,
                copies,
            ),
            IamRequest::AttachSubscriber { service_id, .. } => self.attach(
                session_id,
                service_id@,
                PortType::Subscriber,
                qos_of(request),
                verdict,
                limits,
                bounds,
                copies,
            ),
            IamRequest::AttachServer { service_id, .. } => self.attach(
                session_id,
                service_id@,
                PortType::Server,
                qos_of(request),
                verdict,
                limits,
                bounds,
                copies,
            ),
            IamRequest::AttachClient { service_id, .. } => self.attach(
                session_id,
                service_id@,
                PortType::Client,
                qos_of(request),
                verdict,
                limits,
                bounds,
                copies,
            ),
            IamRequest::AddSegment { port_id, requested_size, bucket_size, bucket_align, .. } => {
                self.add_segment(
                    session_id,
                    port_id,
                    requested_size,
                    bucket_size,
                    bucket_align,
                    verdict,
                    limits,
                )
            },
            IamRequest::Detach { port_id, .. } => self.detach(session_id, port_id),
            IamRequest::AckSegmentRetirement { segment_id, .. } => self.ack_retirement(
                session_id,
                segment_id,
            ),
            IamRequest::RequestSegmentHandle { sender_port_id, .. } => self.request_segment(
                session_id,
                sender_port_id,
                copy_at(copies, 0),
            ),
            IamRequest::RequestDynamicSegmentHandle { sender_port_id, segment_id, .. } => {
                self.request_dynamic_segment(session_id, sender_port_id, segment_id, copy_at(copies, 0))
            },
            IamRequest::RequestChannelHandle { sender_port_id, receiver_port_id, .. } => {
                self.request_channel(session_id, (sender_port_id, receiver_port_id), copy_at(copies, 0))
            },
            IamRequest::RequestMgmtSegmentHandle { port_id, .. } => self.request_mgmt_segment(
                session_id,
                port_id,
                copy_at(copies, 0),
            ),
            _ => self.only_answer(None, handshake_missing()),
        }
    }

    /// What comes of a request of a session where handles can be received: registrations too.
    pub open spec fn dispatched_request(
        self,
        session_id: SessionId,
        request: IamRequest,
        verdict: Verdict,
        limits: ResourceLimits,
        bounds: QosBounds,
        copies: Seq<Option<H>>,
    ) -> Effect<H> {
        match registration_of(request) {
            Some((registration, _, handle_count)) => self.register(
                session_id,
                registration,
                handle_count,
                verdict,
                limits,
            ),
            None => self.request(session_id, request, verdict, limits, bounds, copies),
        }
    }

    /// The one handle that a request for a handle asks for a duplicate of.
    pub open spec fn wanted_handle(self, request: IamRequest) -> Option<H> {
        match request {
            IamRequest::RequestSegmentHandle { sender_port_id, .. } => self.table.grant_of(
                self.table.first_of_port(sender_port_id),
            ),
            IamRequest::RequestDynamicSegmentHandle { sender_port_id, segment_id, .. } => {
                self.table.grant_of(self.table.at_index_of_port(sender_port_id, segment_id))
            },
            IamRequest::RequestChannelHandle { sender_port_id, receiver_port_id, .. } => {
                if self.table.channels.contains_key((sender_port_id, receiver_port_id)) {
                    Some(self.table.channels[(sender_port_id, receiver_port_id)].handle)
                } else {
                    None
                }
            },
            IamRequest::RequestMgmtSegmentHandle { port_id, .. } => {
                if self.table.mgmt_segments.contains_key(port_id) {
                    Some(self.table.mgmt_segments[port_id].handle)
                } else {
                    None
                }
            },
            _ => None,
        }
    }

    /// The handles that a request of a session asks for duplicates of: a subscriber those of the
    /// segments that it is offered, a request for a handle that one.
    pub open spec fn wanted_handles(self, session_id: SessionId, request: IamRequest) -> Seq<H> {
        if request is AttachSubscriber {
            let segments = segment_manager::session_segments(self.table, session_id);
            let handles = segments.map_values(|state: SegmentState<H>| state.handle);
            if handles.len() <= MAX_HANDLES_PER_MESSAGE {
                handles
            } else {
                handles.take(MAX_HANDLES_PER_MESSAGE as int)
            }
        } else {
            match self.wanted_handle(request) {
                Some(handle) => seq![handle],
                None => Seq::empty(),
            }
        }
    }
}

} // verus!
