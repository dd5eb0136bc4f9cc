//! Laws of requests: what a client asks for, and what it gets, in the fields of the request, of the
//! answer and of what the server keeps.

use vstd::prelude::*;
use crate::audit::AuditEventKind;
use crate::error::IamServerError;
use crate::policy::{IamPolicy, QosBounds, ResourceLimits, Verdict};
use crate::protocol::{
    Answer, DenialReason, IamRequest, MessagingPatternKind, PortType, ProtocolVersion, SegmentInfo,
    SessionId,
};
use crate::server;
use crate::server_state;
use crate::server_state::{
    AuditEntry, ConsumerState, Effect, EntryState, HandleOrder, Registration, ReplyState,
    ServerState,
};
use crate::session::{PortInfo, SessionResourceUsage, SessionState};
use crate::text;
use crate::types::{ProcessCredentials, SegmentId, ServiceId, ServiceName, UniqueSystemId};

verus! {

/// Whether a session is there, and its client has said hello.
pub open spec fn is_open<H>(state: ServerState<H>, session_id: SessionId) -> bool {
    state.sessions.contains_key(session_id.value)
        && state.sessions[session_id.value].handshake_complete
}

/// Whether an effect is an answer without handles that leaves the server as it is.
pub open spec fn only_says<H>(effect: Effect<H>, state: ServerState<H>, answer: Answer) -> bool {
    &&& effect.state == state
    &&& effect.reply == (ReplyState::<H>::Answer { answer, handles: Seq::empty() })
}

/// Whether an effect denies a request, in which case the server stays as it is.
pub open spec fn denies<H>(
    effect: Effect<H>,
    state: ServerState<H>,
    reason: DenialReason,
    message: Seq<char>,
) -> bool {
    only_says(effect, state, Answer::Denied { reason, message })
}

/// Whether an effect is audited as an event of a process that the policy has allowed.
pub open spec fn audits<H>(
    effect: Effect<H>,
    kind: AuditEventKind,
    credentials: ProcessCredentials,
) -> bool {
    effect.audit == Some(AuditEntry { kind, credentials, verdict: Verdict::Allow })
}

/// A session that is not there is given up, whatever it asks for, and nothing else happens.
pub proof fn law_strangers_are_given_up<H>(
    state: ServerState<H>,
    session_id: SessionId,
    request: IamRequest,
    verdict: Verdict,
    limits: ResourceLimits,
    bounds: QosBounds,
    copies: Seq<Option<H>>,
)
    requires
        !state.sessions.contains_key(session_id.value),
    ensures
        ({
            let effect = state.dispatched_request(
                session_id,
                request,
                verdict,
                limits,
                bounds,
                copies,
            );
            &&& effect.reply == (ReplyState::<H>::Failed { error: IamServerError::SessionNotFound })
            &&& effect.state == state
            &&& effect.audit is None
        }),
{
}

/// A client that has not said hello is told so, whatever else it asks for, and nothing else
/// happens.
pub proof fn law_hello_comes_first<H>(
    state: ServerState<H>,
    session_id: SessionId,
    request: IamRequest,
    verdict: Verdict,
    limits: ResourceLimits,
    bounds: QosBounds,
    copies: Seq<Option<H>>,
)
    requires
        state.sessions.contains_key(session_id.value),
        !state.sessions[session_id.value].handshake_complete,
        !(request is Hello),
    ensures
        ({
            let effect = state.dispatched_request(
                session_id,
                request,
                verdict,
                limits,
                bounds,
                copies,
            );
            &&& only_says(
                effect,
                state,
                Answer::ProtocolError { message: "Handshake not complete"@ },
            )
            &&& effect.audit is None
        }),
{
}

/// Hello of a client of version 1.0 completes the handshake of its session, and changes nothing
/// else; the client learns the version 1.0 and the number of its session. A client of any other
/// version is denied, and told both versions. Hello can be said again.
pub proof fn law_hello_is_answered<H>(
    state: ServerState<H>,
    session_id: SessionId,
    version: ProtocolVersion,
    node_id: UniqueSystemId,
    verdict: Verdict,
    limits: ResourceLimits,
    bounds: QosBounds,
    copies: Seq<Option<H>>,
)
    requires
        state.sessions.contains_key(session_id.value),
    ensures
        ({
            let entry = state.sessions[session_id.value];
            let effect = state.dispatched_request(
                session_id,
                IamRequest::Hello { protocol_version: version, node_id },
                verdict,
                limits,
                bounds,
                copies,
            );
            &&& effect.audit is None
            &&& if version.major == 1 && version.minor == 0 {
                &&& effect.reply == (ReplyState::<H>::Answer {
                    answer: Answer::HelloOk {
                        negotiated_version: ProtocolVersion { major: 1, minor: 0 },
                        session_id,
                    },
                    handles: Seq::empty(),
                })
                &&& effect.state == (ServerState {
                    sessions: state.sessions.insert(
                        session_id.value,
                        EntryState { session: entry.session, handshake_complete: true },
                    ),
                    ..state
                })
            } else {
                denies(
                    effect,
                    state,
                    DenialReason::VersionMismatch,
                    "Client version "@ + text::decimal(version.major as nat) + "."@
                        + text::decimal(version.minor as nat)
                        + " not compatible with server version "@ + text::decimal(1) + "."@
                        + text::decimal(0),
                )
            }
        }),
{
}

/// A service is never created: who may create it is told that this is not implemented, who may not
/// is denied as the policy says. Either is audited under the pattern that was asked for.
pub proof fn law_services_are_not_created<H>(
    state: ServerState<H>,
    session_id: SessionId,
    service_name: ServiceName,
    messaging_pattern: MessagingPatternKind,
    verdict: Verdict,
    limits: ResourceLimits,
    bounds: QosBounds,
    copies: Seq<Option<H>>,
)
    requires
        is_open(state, session_id),
    ensures
        ({
            let effect = state.dispatched_request(
                session_id,
                IamRequest::CreateService { service_name, messaging_pattern },
                verdict,
                limits,
                bounds,
                copies,
            );
            &&& effect.audit == Some(
                AuditEntry {
                    kind: AuditEventKind::Create { messaging_pattern },
                    credentials: state.sessions[session_id.value].session.credentials,
                    verdict,
                },
            )
            &&& match verdict {
                Verdict::Allow => only_says(
                    effect,
                    state,
                    Answer::ProtocolError { message: "Service creation not yet implemented"@ },
                ),
                Verdict::Deny { reason, message } => denies(effect, state, reason, message),
            }
        }),
{
}

/// Whether a session has a port more, under the number after the last one: the server keeps all
/// else of it but the counter of its ports, and all else of other sessions and of segments.
pub open spec fn has_one_port_more<H>(
    before: ServerState<H>,
    after: ServerState<H>,
    session_id: SessionId,
    port_type: PortType,
    usage: SessionResourceUsage,
) -> bool {
    let entry = before.sessions[session_id.value];
    let port_id = (before.port_counter + 1) as u128;
    &&& after.port_counter == before.port_counter + 1
    &&& after.sessions == before.sessions.insert(
        session_id.value,
        EntryState {
            session: SessionState {
                ports: entry.session.ports.push(PortInfo { port_id, port_type }),
                usage,
                ..entry.session
            },
            handshake_complete: entry.handshake_complete,
        },
    )
    &&& after.table == before.table
    &&& after.ledger == before.ledger
}

/// Whether no port of a session has the number that the next port gets.
pub open spec fn next_port_is_new<H>(state: ServerState<H>, session_id: SessionId) -> bool {
    let ports = state.sessions[session_id.value].session.ports;
    &&& state.port_counter < u128::MAX
    &&& forall|i: int|
        0 <= i < ports.len() ==> (#[trigger] ports[i]).port_id != state.port_counter + 1
}

/// Whether an answer attaches the next port and offers it nothing.
pub open spec fn attaches_empty<H>(effect: Effect<H>, port_id: int) -> bool {
    &&& effect.reply matches ReplyState::Answer {
        answer: Answer::AttachOk { port_id: given, segment_info, handle_count },
        handles,
    }
    &&& given == port_id
    &&& segment_info.len() == 0
    &&& handle_count == 0
    &&& handles.len() == 0
}

/// A publisher is refused exactly if its session has as many publishers as `max_publishers`, or
/// counts as many segments as `max_segments`, or asks for a longer history than `max_history`.
/// Otherwise it is a producer of the very service that it asked for, and counts as one publisher
/// more.
pub proof fn law_publishers_are_attached<H>(
    state: ServerState<H>,
    session_id: SessionId,
    service_id: ServiceId,
    history_size: usize,
    max_slice_len: usize,
    limits: ResourceLimits,
    bounds: QosBounds,
    copies: Seq<Option<H>>,
)
    requires
        is_open(state, session_id),
        next_port_is_new(state, session_id),
    ensures
        ({
            let session = state.sessions[session_id.value].session;
            let port_id = (state.port_counter + 1) as u128;
            let effect = state.dispatched_request(
                session_id,
                IamRequest::AttachPublisher { service_id, history_size, max_slice_len },
                Verdict::Allow,
                limits,
                bounds,
                copies,
            );
            let refused = AuditEventKind::Attach { port_type: PortType::Publisher, port_id: 0 };
            if session.usage.publisher_count >= limits.max_publishers {
                &&& denies(
                    effect,
                    state,
                    DenialReason::ResourceLimitExceeded,
                    "Maximum "@ + "publishers"@ + " ("@ + text::decimal(
                        limits.max_publishers as nat,
                    ) + ") reached"@,
                )
                &&& audits(effect, refused, session.credentials)
            } else if session.usage.segment_count >= limits.max_segments {
                &&& denies(
                    effect,
                    state,
                    DenialReason::ResourceLimitExceeded,
                    "Maximum segment count reached"@,
                )
                &&& audits(effect, refused, session.credentials)
            } else if bounds.max_history is Some && history_size > bounds.max_history->0 {
                &&& denies(
                    effect,
                    state,
                    DenialReason::IncompatibleQos,
                    "Requested "@ + "history size"@ + " exceeds the QoS bounds"@,
                )
                &&& audits(effect, refused, session.credentials)
            } else {
                &&& attaches_empty(effect, port_id as int)
                &&& audits(
                    effect,
                    AuditEventKind::Attach { port_type: PortType::Publisher, port_id },
                    session.credentials,
                )
                &&& has_one_port_more(
                    state,
                    effect.state,
                    session_id,
                    PortType::Publisher,
                    SessionResourceUsage {
                        publisher_count: (session.usage.publisher_count + 1) as usize,
                        ..session.usage
                    },
                )
                &&& effect.state.producers == state.producers.insert(port_id, service_id@)
                &&& effect.state.consumers == state.consumers
            }
        }),
{
}

/// A server port is refused exactly if its session has as many server ports as `max_servers`.
/// Otherwise it is a producer of the very service that it asked for, and counts as one server
/// more.
pub proof fn law_servers_are_attached<H>(
    state: ServerState<H>,
    session_id: SessionId,
    service_id: ServiceId,
    max_active_requests: usize,
    limits: ResourceLimits,
    bounds: QosBounds,
    copies: Seq<Option<H>>,
)
    requires
        is_open(state, session_id),
        next_port_is_new(state, session_id),
    ensures
        ({
            let session = state.sessions[session_id.value].session;
            let port_id = (state.port_counter + 1) as u128;
            let effect = state.dispatched_request(
                session_id,
                IamRequest::AttachServer { service_id, max_active_requests },
                Verdict::Allow,
                limits,
                bounds,
                copies,
            );
            if session.usage.server_count >= limits.max_servers {
                &&& denies(
                    effect,
                    state,
                    DenialReason::ResourceLimitExceeded,
                    "Maximum "@ + "servers"@ + " ("@ + text::decimal(limits.max_servers as nat)
                        + ") reached"@,
                )
                &&& audits(
                    effect,
                    AuditEventKind::Attach { port_type: PortType::Server, port_id: 0 },
                    session.credentials,
                )
            } else {
                &&& attaches_empty(effect, port_id as int)
                &&& audits(
                    effect,
                    AuditEventKind::Attach { port_type: PortType::Server, port_id },
                    session.credentials,
                )
                &&& has_one_port_more(
                    state,
                    effect.state,
                    session_id,
                    PortType::Server,
                    SessionResourceUsage {
                        server_count: (session.usage.server_count + 1) as usize,
                        ..session.usage
                    },
                )
                &&& effect.state.producers == state.producers.insert(port_id, service_id@)
                &&& effect.state.consumers == state.consumers
            }
        }),
{
}

/// A client port is refused exactly if its session has as many client ports as `max_clients`.
/// Otherwise it is the last consumer of the very service that it asked for, and counts as one
/// client more.
pub proof fn law_clients_are_attached<H>(
    state: ServerState<H>,
    session_id: SessionId,
    service_id: ServiceId,
    max_pending_responses: usize,
    limits: ResourceLimits,
    bounds: QosBounds,
    copies: Seq<Option<H>>,
)
    requires
        is_open(state, session_id),
        next_port_is_new(state, session_id),
    ensures
        ({
            let session = state.sessions[session_id.value].session;
            let port_id = (state.port_counter + 1) as u128;
            let effect = state.dispatched_request(
                session_id,
                IamRequest::AttachClient { service_id, max_pending_responses },
                Verdict::Allow,
                limits,
                bounds,
                copies,
            );
            if session.usage.client_count >= limits.max_clients {
                &&& denies(
                    effect,
                    state,
                    DenialReason::ResourceLimitExceeded,
                    "Maximum "@ + "clients"@ + " ("@ + text::decimal(limits.max_clients as nat)
                        + ") reached"@,
                )
                &&& audits(
                    effect,
                    AuditEventKind::Attach { port_type: PortType::Client, port_id: 0 },
                    session.credentials,
                )
            } else {
                &&& attaches_empty(effect, port_id as int)
                &&& audits(
                    effect,
                    AuditEventKind::Attach { port_type: PortType::Client, port_id },
                    session.credentials,
                )
                &&& has_one_port_more(
                    state,
                    effect.state,
                    session_id,
                    PortType::Client,
                    SessionResourceUsage {
                        client_count: (session.usage.client_count + 1) as usize,
                        ..session.usage
                    },
                )
                &&& effect.state.producers == state.producers
                &&& effect.state.consumers == state.consumers.push(
                    ConsumerState { service: service_id@, session_id, port_id },
                )
            }
        }),
{
}

/// A subscriber is refused exactly if its session has as many subscribers as `max_subscribers`, or
/// asks for a larger buffer than `max_buffer_size`. Otherwise it is the last consumer of the very
/// service that it asked for, counts as one subscriber more, and gets one handle for each segment
/// that it is told of, 64 at most.
pub proof fn law_subscribers_are_attached<H>(
    state: ServerState<H>,
    session_id: SessionId,
    service_id: ServiceId,
    buffer_size: usize,
    limits: ResourceLimits,
    bounds: QosBounds,
    copies: Seq<Option<H>>,
)
    requires
        is_open(state, session_id),
        next_port_is_new(state, session_id),
    ensures
        ({
            let session = state.sessions[session_id.value].session;
            let port_id = (state.port_counter + 1) as u128;
            let effect = state.dispatched_request(
                session_id,
                IamRequest::AttachSubscriber { service_id, buffer_size },
                Verdict::Allow,
                limits,
                bounds,
                copies,
            );
            let refused = AuditEventKind::Attach { port_type: PortType::Subscriber, port_id: 0 };
            if session.usage.subscriber_count >= limits.max_subscribers {
                &&& denies(
                    effect,
                    state,
                    DenialReason::ResourceLimitExceeded,
                    "Maximum "@ + "subscribers"@ + " ("@ + text::decimal(
                        limits.max_subscribers as nat,
                    ) + ") reached"@,
                )
                &&& audits(effect, refused, session.credentials)
            } else if bounds.max_buffer_size is Some && buffer_size > bounds.max_buffer_size->0 {
                &&& denies(
                    effect,
                    state,
                    DenialReason::IncompatibleQos,
                    "Requested "@ + "buffer size"@ + " exceeds the QoS bounds"@,
                )
                &&& audits(effect, refused, session.credentials)
            } else {
                &&& effect.reply matches ReplyState::Answer {
                    answer: Answer::AttachOk { port_id: given, segment_info, handle_count },
                    handles,
                }
                &&& given == port_id
                &&& segment_info.len() == handle_count == handles.len()
                &&& handles.len() <= 64
                &&& audits(
                    effect,
                    AuditEventKind::Attach { port_type: PortType::Subscriber, port_id },
                    session.credentials,
                )
                &&& has_one_port_more(
                    state,
                    effect.state,
                    session_id,
                    PortType::Subscriber,
                    SessionResourceUsage {
                        subscriber_count: (session.usage.subscriber_count + 1) as usize,
                        ..session.usage
                    },
                )
                &&& effect.state.producers == state.producers
                &&& effect.state.consumers == state.consumers.push(
                    ConsumerState { service: service_id@, session_id, port_id },
                )
            }
        }),
{
    lemma_offer_is_bounded(
        crate::segment_manager::session_infos(state.table, session_id),
        copies,
        crate::segment_manager::session_infos(state.table, session_id).len() as int,
    );
    lemma_offer_is_bounded(
        crate::segment_manager::session_infos(state.table, session_id),
        copies,
        64,
    );
}

proof fn lemma_offer_is_bounded<H>(
    segment_info: Seq<SegmentInfo>,
    copies: Seq<Option<H>>,
    n: int,
)
    ensures
        n >= 0 ==> server_state::offered(segment_info, copies, n).len() <= n,
    decreases n,
{
    if n > 0 {
        lemma_offer_is_bounded(segment_info, copies, n - 1);
    }
}

/// What the policy is asked about a request: a service by its name and pattern, a port by its
/// service and type, a segment by its service and size. The size of a registration is the one that
/// the client states; only for a channel or a management segment of no size it is one. The policy
/// sets the limits of who it allows something, and the bounds of who it allows a port.
pub proof fn law_policy_is_asked_about_the_request<P: IamPolicy, H>(
    policy: P,
    state: ServerState<H>,
    session_id: SessionId,
    request: IamRequest,
    verdict: Verdict,
    limits: ResourceLimits,
    bounds: QosBounds,
)
    requires
        is_open(state, session_id),
        server::ruled(policy, state, session_id, request, verdict, limits, bounds),
    ensures
        ({
            let who = state.sessions[session_id.value].session.credentials;
            match request {
                IamRequest::CreateService { service_name, messaging_pattern } => {
                    policy.may_decide_create(who, service_name@, messaging_pattern, verdict)
                },
                IamRequest::AttachPublisher { service_id, .. } => {
                    &&& policy.may_decide_attach(who, service_id@, PortType::Publisher, verdict)
                    &&& verdict is Allow ==> policy.may_limit(who, limits) && policy.may_bound(
                        who,
                        bounds,
                    )
                },
                IamRequest::AttachSubscriber { service_id, .. } => {
                    &&& policy.may_decide_attach(who, service_id@, PortType::Subscriber, verdict)
                    &&& verdict is Allow ==> policy.may_limit(who, limits) && policy.may_bound(
                        who,
                        bounds,
                    )
                },
                IamRequest::AttachServer { service_id, .. } => {
                    &&& policy.may_decide_attach(who, service_id@, PortType::Server, verdict)
                    &&& verdict is Allow ==> policy.may_limit(who, limits) && policy.may_bound(
                        who,
                        bounds,
                    )
                },
                IamRequest::AttachClient { service_id, .. } => {
                    &&& policy.may_decide_attach(who, service_id@, PortType::Client, verdict)
                    &&& verdict is Allow ==> policy.may_limit(who, limits) && policy.may_bound(
                        who,
                        bounds,
                    )
                },
                IamRequest::AddSegment { service_id, requested_size, .. } => {
                    &&& policy.may_decide_add_segment(who, service_id@, requested_size, verdict)
                    &&& verdict is Allow ==> policy.may_limit(who, limits)
                },
                IamRequest::RegisterSegment { service_id, segment_size, .. } => {
                    &&& policy.may_decide_add_segment(who, service_id@, segment_size, verdict)
                    &&& verdict is Allow ==> policy.may_limit(who, limits)
                },
                IamRequest::RegisterDynamicSegment { service_id, segment_size, .. } => {
                    &&& policy.may_decide_add_segment(who, service_id@, segment_size, verdict)
                    &&& verdict is Allow ==> policy.may_limit(who, limits)
                },
                IamRequest::RegisterChannel { service_id, channel_size, .. } => {
                    &&& channel_size > 0 ==> policy.may_decide_add_segment(
                        who,
                        service_id@,
                        channel_size,
                        verdict,
                    )
                    &&& channel_size == 0 ==> policy.may_decide_add_segment(
                        who,
                        service_id@,
                        1,
                        verdict,
                    )
                    &&& verdict is Allow ==> policy.may_limit(who, limits)
                },
                IamRequest::RegisterMgmtSegment { service_id, mgmt_size, .. } => {
                    &&& mgmt_size > 0 ==> policy.may_decide_add_segment(
                        who,
                        service_id@,
                        mgmt_size,
                        verdict,
                    )
                    &&& mgmt_size == 0 ==> policy.may_decide_add_segment(
                        who,
                        service_id@,
                        1,
                        verdict,
                    )
                    &&& verdict is Allow ==> policy.may_limit(who, limits)
                },
                _ => true,
            }
        }),
{
}

/// The size of a registration by which the policy judges it: never less than the size that the
/// client states, and the same where that is not zero; of no size, a channel or a management
/// segment is judged as one byte, a data segment as it is.
pub proof fn law_registrations_are_judged_by_size(registration: Registration)
    ensures
        registration.judged_size() >= registration.size(),
        registration.size() > 0 ==> registration.judged_size() == registration.size(),
        match registration {
            Registration::Segment { segment_size, .. } => registration.size() == segment_size
                && registration.judged_size() == segment_size,
            Registration::DynamicSegment { segment_size, .. } => registration.size()
                == segment_size && registration.judged_size() == segment_size,
            Registration::Channel { channel_size, .. } => registration.size() == channel_size && (
            channel_size == 0 ==> registration.judged_size() == 1),
            Registration::MgmtSegment { mgmt_size, .. } => registration.size() == mgmt_size && (
            mgmt_size == 0 ==> registration.judged_size() == 1),
        },
{
}

/// With the default policy nobody registers more than the largest segment: whatever is registered,
/// a size beyond the limit is denied, and so is anything that another user than the owner
/// registers.
pub proof fn law_default_policy_bounds_registrations<H>(
    policy: crate::policy::DefaultPolicy,
    state: ServerState<H>,
    session_id: SessionId,
    request: IamRequest,
    verdict: Verdict,
    limits: ResourceLimits,
    bounds: QosBounds,
    copies: Seq<Option<H>>,
)
    requires
        is_open(state, session_id),
        server::ruled(policy, state, session_id, request, verdict, limits, bounds),
        match request {
            IamRequest::RegisterSegment { segment_size, .. } => segment_size
                > policy.limits.max_segment_size,
            IamRequest::RegisterDynamicSegment { segment_size, .. } => segment_size
                > policy.limits.max_segment_size,
            IamRequest::RegisterChannel { channel_size, .. } => channel_size
                > policy.limits.max_segment_size,
            IamRequest::RegisterMgmtSegment { mgmt_size, .. } => mgmt_size
                > policy.limits.max_segment_size,
            IamRequest::AddSegment { requested_size, .. } => requested_size
                > policy.limits.max_segment_size,
            _ => false,
        },
    ensures
        ({
            let effect = state.dispatched_request(
                session_id,
                request,
                verdict,
                limits,
                bounds,
                copies,
            );
            if state.sessions[session_id.value].session.credentials.uid == policy.owner_uid {
                denies(
                    effect,
                    state,
                    DenialReason::ResourceLimitExceeded,
                    "Requested segment size exceeds maximum allowed"@,
                )
            } else {
                denies(
                    effect,
                    state,
                    DenialReason::Unauthorized,
                    "Only the owner can add segments"@,
                )
            }
        }),
{
}

/// How many steps up from one identifier another is reached, after the last beginning again with
/// the first.
pub open spec fn steps_up(from: u8, to: u8) -> int {
    (to - from) % 256
}

/// Where an identifier is free there is a next one to give out.
pub proof fn lemma_some_identifier_is_next<H>(
    table: crate::segment_manager::SegmentTable<H>,
    id: u8,
)
    requires
        table.usable(id),
    ensures
        table.next_free() is Some,
    decreases crate::segment_manager::distance(table.next_id, id),
{
    if !table.is_next_free(id) {
        let other = choose|other: u8| #[trigger]
            table.usable(other) && crate::segment_manager::distance(table.next_id, id)
                > crate::segment_manager::distance(table.next_id, other);
        lemma_some_identifier_is_next(table, other);
    }
}

proof fn lemma_steps_are_distances(from: u8, to: u8)
    ensures
        crate::segment_manager::distance(from, to) == steps_up(from, to),
{
}

/// A segment is refused to a session that counts as many segments as `max_segments`, and so is one
/// of no size; where all of the identifiers 1 to 254 are in use, the session is given up.
/// Otherwise the segment is ordered as it was asked for, under the free identifier that is reached
/// first; the server notes only where to look next.
pub proof fn law_segments_are_ordered<H>(
    state: ServerState<H>,
    session_id: SessionId,
    service_id: ServiceId,
    port_id: u128,
    requested_size: usize,
    bucket_size: usize,
    bucket_align: usize,
    limits: ResourceLimits,
    bounds: QosBounds,
    copies: Seq<Option<H>>,
)
    requires
        is_open(state, session_id),
    ensures
        ({
            let session = state.sessions[session_id.value].session;
            let used = state.table.segments;
            let effect = state.dispatched_request(
                session_id,
                IamRequest::AddSegment {
                    service_id,
                    port_id,
                    requested_size,
                    bucket_size,
                    bucket_align,
                },
                Verdict::Allow,
                limits,
                bounds,
                copies,
            );
            &&& audits(
                effect,
                AuditEventKind::AddSegment { size: requested_size },
                session.credentials,
            )
            &&& if session.usage.segment_count >= limits.max_segments {
                denies(
                    effect,
                    state,
                    DenialReason::ResourceLimitExceeded,
                    "Maximum segment count reached"@,
                )
            } else if requested_size == 0 {
                denies(
                    effect,
                    state,
                    DenialReason::InvalidRequest,
                    "Segment size cannot be zero"@,
                )
            } else if forall|id: u8| 1 <= id <= 254 ==> #[trigger] used.contains_key(id) {
                &&& effect.reply == (ReplyState::<H>::Failed {
                    error: IamServerError::ResourceLimitExceeded,
                })
                &&& effect.state == state
            } else {
                &&& effect.reply matches ReplyState::CreateSegment { order }
                &&& order.session_id == session_id
                &&& order.port_id == port_id
                &&& order.requested_size == requested_size
                &&& order.bucket_size == bucket_size
                &&& order.bucket_align == bucket_align
                &&& 1 <= order.segment_id.value <= 254
                &&& !used.contains_key(order.segment_id.value)
                &&& forall|other: u8|
                    1 <= other <= 254 && !(#[trigger] used.contains_key(other)) ==> steps_up(
                        state.table.next_id,
                        order.segment_id.value,
                    ) <= steps_up(state.table.next_id, other)
                &&& effect.state == (ServerState {
                    table: crate::segment_manager::SegmentTable {
                        next_id: (order.segment_id.value + 1) as u8,
                        ..state.table
                    },
                    ..state
                })
            }
        }),
{
    let table = state.table;
    let used = state.table.segments;
    if !(forall|id: u8| 1 <= id <= 254 ==> #[trigger] used.contains_key(id)) {
        let free = choose|id: u8| 1 <= id <= 254 && !(#[trigger] used.contains_key(id));
        assert(table.usable(free));
        lemma_some_identifier_is_next(table, free);
        let id = table.next_free()->0;
        assert(table.is_next_free(id));
        assert forall|other: u8| 1 <= other <= 254 && !(#[trigger] used.contains_key(
            other,
        )) implies steps_up(table.next_id, id) <= steps_up(table.next_id, other) by {
            assert(table.usable(other));
            lemma_steps_are_distances(table.next_id, id);
            lemma_steps_are_distances(table.next_id, other);
        }
    } else {
        if table.next_free() is Some {
            let id = table.next_free()->0;
            assert(table.is_next_free(id));
            assert(!used.contains_key(id));
        }
    }
}

/// What a policy denies is denied in its words, whether it is a port, a segment or a registration,
/// and is audited as what was asked for.
pub proof fn law_denials_are_audited_as_asked<H>(
    state: ServerState<H>,
    session_id: SessionId,
    request: IamRequest,
    reason: DenialReason,
    message: Seq<char>,
    limits: ResourceLimits,
    bounds: QosBounds,
    copies: Seq<Option<H>>,
)
    requires
        is_open(state, session_id),
    ensures
        ({
            let effect = state.dispatched_request(
                session_id,
                request,
                Verdict::Deny { reason, message },
                limits,
                bounds,
                copies,
            );
            let kind = match request {
                IamRequest::CreateService { messaging_pattern, .. } => Some(
                    AuditEventKind::Create { messaging_pattern },
                ),
                IamRequest::AttachPublisher { .. } => Some(
                    AuditEventKind::Attach { port_type: PortType::Publisher, port_id: 0 },
                ),
                IamRequest::AttachSubscriber { .. } => Some(
                    AuditEventKind::Attach { port_type: PortType::Subscriber, port_id: 0 },
                ),
                IamRequest::AttachServer { .. } => Some(
                    AuditEventKind::Attach { port_type: PortType::Server, port_id: 0 },
                ),
                IamRequest::AttachClient { .. } => Some(
                    AuditEventKind::Attach { port_type: PortType::Client, port_id: 0 },
                ),
                IamRequest::AddSegment { requested_size, .. } => Some(
                    AuditEventKind::AddSegment { size: requested_size },
                ),
                IamRequest::RegisterSegment { segment_size, .. } => Some(
                    AuditEventKind::AddSegment { size: segment_size },
                ),
                IamRequest::RegisterDynamicSegment { segment_size, .. } => Some(
                    AuditEventKind::AddSegment { size: segment_size },
                ),
                IamRequest::RegisterChannel { channel_size, .. } => Some(
                    AuditEventKind::AddSegment { size: channel_size },
                ),
                IamRequest::RegisterMgmtSegment { mgmt_size, .. } => Some(
                    AuditEventKind::AddSegment { size: mgmt_size },
                ),
                _ => None,
            };
            kind is Some ==> {
                &&& denies(effect, state, reason, message)
                &&& effect.audit == Some(
                    AuditEntry {
                        kind: kind->0,
                        credentials: state.sessions[session_id.value].session.credentials,
                        verdict: Verdict::Deny { reason, message },
                    },
                )
            }
        }),
{
}

/// Whether an effect has the handles of a registration received.
pub open spec fn receives<H>(
    effect: Effect<H>,
    state: ServerState<H>,
    session_id: SessionId,
    registration: Registration,
) -> bool {
    &&& effect.state == state
    &&& effect.reply == (ReplyState::<H>::ReceiveHandles {
        order: HandleOrder { session_id, registration },
    })
}

/// A registration is refused to a session that counts as many segments as `max_segments`, and one
/// that announces no handle or more than 64 is a protocol error. Otherwise its handles are
/// received, for exactly what was to be registered.
pub proof fn law_registrations_are_received<H>(
    state: ServerState<H>,
    session_id: SessionId,
    request: IamRequest,
    limits: ResourceLimits,
    bounds: QosBounds,
    copies: Seq<Option<H>>,
)
    requires
        is_open(state, session_id),
    ensures
        ({
            let session = state.sessions[session_id.value].session;
            let effect = state.dispatched_request(
                session_id,
                request,
                Verdict::Allow,
                limits,
                bounds,
                copies,
            );
            let full = session.usage.segment_count >= limits.max_segments;
            let refused = denies(
                effect,
                state,
                DenialReason::ResourceLimitExceeded,
                "Maximum segment count reached"@,
            );
            match request {
                IamRequest::RegisterSegment { service_id, port_id, segment_size, handle_count } => {
                    &&& audits(
                        effect,
                        AuditEventKind::AddSegment { size: segment_size },
                        session.credentials,
                    )
                    &&& if full {
                        refused
                    } else if handle_count == 0 {
                        only_says(
                            effect,
                            state,
                            Answer::ProtocolError {
                                message: "RegisterSegment requires at least one handle"@,
                            },
                        )
                    } else if handle_count > 64 {
                        only_says(
                            effect,
                            state,
                            Answer::ProtocolError {
                                message: "RegisterSegment announces too many handles"@,
                            },
                        )
                    } else {
                        receives(
                            effect,
                            state,
                            session_id,
                            Registration::Segment { port_id, segment_size },
                        )
                    }
                },
                IamRequest::RegisterDynamicSegment {
                    service_id,
                    port_id,
                    segment_id,
                    segment_size,
                    handle_count,
                } => {
                    &&& audits(
                        effect,
                        AuditEventKind::AddSegment { size: segment_size },
                        session.credentials,
                    )
                    &&& if full {
                        refused
                    } else if handle_count == 0 {
                        only_says(
                            effect,
                            state,
                            Answer::ProtocolError {
                                message: "RegisterDynamicSegment requires at least one handle"@,
                            },
                        )
                    } else if handle_count > 64 {
                        only_says(
                            effect,
                            state,
                            Answer::ProtocolError {
                                message: "RegisterDynamicSegment announces too many handles"@,
                            },
                        )
                    } else {
                        receives(
                            effect,
                            state,
                            session_id,
                            Registration::DynamicSegment {
                                port_id,
                                segment_index: segment_id,
                                segment_size,
                            },
                        )
                    }
                },
                IamRequest::RegisterChannel {
                    service_id,
                    sender_port_id,
                    receiver_port_id,
                    channel_size,
                    handle_count,
                } => {
                    &&& audits(
                        effect,
                        AuditEventKind::AddSegment { size: channel_size },
                        session.credentials,
                    )
                    &&& if full {
                        refused
                    } else if handle_count == 0 {
                        only_says(
                            effect,
                            state,
                            Answer::ProtocolError {
                                message: "RegisterChannel requires at least one handle"@,
                            },
                        )
                    } else if handle_count > 64 {
                        only_says(
                            effect,
                            state,
                            Answer::ProtocolError {
                                message: "RegisterChannel announces too many handles"@,
                            },
                        )
                    } else {
                        receives(
                            effect,
                            state,
                            session_id,
                            Registration::Channel {
                                sender_port_id,
                                receiver_port_id,
                                channel_size,
                            },
                        )
                    }
                },
                IamRequest::RegisterMgmtSegment {
                    service_id,
                    port_id,
                    mgmt_size,
                    handle_count,
                } => {
                    &&& audits(
                        effect,
                        AuditEventKind::AddSegment { size: mgmt_size },
                        session.credentials,
                    )
                    &&& if full {
                        refused
                    } else if handle_count == 0 {
                        only_says(
                            effect,
                            state,
                            Answer::ProtocolError {
                                message: "RegisterMgmtSegment requires at least one handle"@,
                            },
                        )
                    } else if handle_count > 64 {
                        only_says(
                            effect,
                            state,
                            Answer::ProtocolError {
                                message: "RegisterMgmtSegment announces too many handles"@,
                            },
                        )
                    } else {
                        receives(
                            effect,
                            state,
                            session_id,
                            Registration::MgmtSegment { port_id, mgmt_size },
                        )
                    }
                },
                _ => true,
            }
        }),
{
}

/// Where no handles can be received, a registration of a session that is there is a protocol
/// error, and nothing happens.
pub proof fn law_registrations_need_their_place<H>(
    state: ServerState<H>,
    session_id: SessionId,
    request: IamRequest,
    verdict: Verdict,
    limits: ResourceLimits,
    bounds: QosBounds,
    copies: Seq<Option<H>>,
)
    requires
        state.sessions.contains_key(session_id.value),
        request is RegisterSegment || request is RegisterDynamicSegment || request
            is RegisterChannel || request is RegisterMgmtSegment,
    ensures
        ({
            let effect = state.request(session_id, request, verdict, limits, bounds, copies);
            &&& effect.audit is None
            &&& only_says(
                effect,
                state,
                Answer::ProtocolError {
                    message: match request {
                        IamRequest::RegisterSegment { .. } => {
                            "RegisterSegment must be handled in dispatch loop"@
                        },
                        IamRequest::RegisterDynamicSegment { .. } => {
                            "RegisterDynamicSegment must be handled in dispatch loop"@
                        },
                        IamRequest::RegisterChannel { .. } => {
                            "RegisterChannel must be handled in dispatch loop"@
                        },
                        _ => "RegisterMgmtSegment must be handled in dispatch loop"@,
                    },
                },
            )
        }),
{
}

/// For every other request it does not matter whether handles can be received.
pub proof fn law_other_requests_have_no_place<H>(
    state: ServerState<H>,
    session_id: SessionId,
    request: IamRequest,
    verdict: Verdict,
    limits: ResourceLimits,
    bounds: QosBounds,
    copies: Seq<Option<H>>,
)
    requires
        !(request is RegisterSegment),
        !(request is RegisterDynamicSegment),
        !(request is RegisterChannel),
        !(request is RegisterMgmtSegment),
    ensures
        state.dispatched_request(session_id, request, verdict, limits, bounds, copies)
            == state.request(session_id, request, verdict, limits, bounds, copies),
{
}

/// What came of a request is shown as it is: an event for the audit log exactly if there is one, of
/// the same kind, process and decision, and a reply of the same kind with the same contents.
pub proof fn law_outcomes_are_shown<H>(outcome: server::Outcome<H>, effect: Effect<H>)
    requires
        outcome.shows(effect),
    ensures
        outcome.audit is None <==> effect.audit is None,
        outcome.audit matches Some(record) ==> {
            &&& effect.audit->0.kind == record.kind
            &&& effect.audit->0.credentials == record.credentials
            &&& effect.audit->0.verdict == record.decision@
        },
        match outcome.reply {
            server::Reply::Answer { response, handles } => effect.reply == (ReplyState::Answer {
                answer: response@,
                handles: handles@,
            }),
            server::Reply::Failed { error } => effect.reply == (ReplyState::<H>::Failed { error }),
            server::Reply::CreateSegment { order } => effect.reply == (ReplyState::<
                H,
            >::CreateSegment { order }),
            server::Reply::ReceiveHandles { order } => effect.reply == (ReplyState::<
                H,
            >::ReceiveHandles { order }),
        },
{
}

/// The server is ready for every request of every session that has counted fewer segments than can
/// be counted, as long as port identifiers are left; and to grant such a session any segment.
pub proof fn law_servers_are_ready<H>(
    state: ServerState<H>,
    session_id: SessionId,
    request: IamRequest,
    segment_id: SegmentId,
)
    requires
        state.port_counter < u128::MAX,
        state.sessions.contains_key(session_id.value)
            ==> state.sessions[session_id.value].session.usage.segment_count < usize::MAX,
    ensures
        state.ready_for(session_id, request),
        state.counts_further(session_id),
        state.can_grant(session_id, segment_id),
{
}

/// About a port or a segment, the policy is asked with the credentials of the session's process, and
/// its limits and bounds matter only where it allows.
pub proof fn law_policy_is_asked_about_the_session<P: IamPolicy, H>(
    policy: P,
    state: ServerState<H>,
    session_id: SessionId,
    service: Seq<char>,
    port_type: PortType,
    size: usize,
    verdict: Verdict,
    limits: ResourceLimits,
    bounds: QosBounds,
)
    requires
        is_open(state, session_id),
    ensures
        ({
            let credentials = state.sessions[session_id.value].session.credentials;
            let limited = policy.may_limit(credentials, limits);
            &&& server::attach_ruled(
                policy,
                state,
                session_id,
                service,
                port_type,
                verdict,
                limits,
                bounds,
            ) <==> policy.may_decide_attach(credentials, service, port_type, verdict) && (verdict
                is Deny || (limited && policy.may_bound(credentials, bounds)))
            &&& server::segment_ruled(
                policy,
                state,
                session_id,
                service,
                size,
                verdict,
                limits,
            ) <==> policy.may_decide_add_segment(credentials, service, size, verdict) && (verdict
                is Deny || limited)
        }),
{
}

} // verus!
