//! Laws of the conversation between a client and the server: what the server answers, and what
//! the client makes of it.

use vstd::prelude::*;
use crate::client;
use crate::error::{IamClientError};
use crate::policy::{DefaultPolicy, IamPolicy, QosBounds, ResourceLimits, Verdict};
use crate::protocol;
use crate::protocol::{
    Answer, DenialReason, IamRequest, IamResponse, PortType, ProtocolVersion, SegmentInfo, SessionId,
    INVALID_SESSION_ID, MAX_HANDLES_PER_MESSAGE,
};
use crate::segment_manager;
use crate::segment_manager::GAP_SEGMENT;
use crate::server_state;
use crate::server_state::{QosRequest, ReplyState, SegmentOrder, ServerState};
use crate::text;
use crate::types::{SegmentId, ServiceId};

verus! {

/// Whether a response is the answer of a reply, and as many handles go with it.
pub open spec fn says<H>(reply: ReplyState<H>, response: IamResponse, handles: int) -> bool {
    reply matches ReplyState::Answer { answer, handles: given } && answer == response@
        && given.len() == handles
}

/// A client of the current version that says hello gets the session that the server has for it.
pub proof fn law_hello_opens_session<H>(
    state: ServerState<H>,
    session_id: SessionId,
    response: IamResponse,
)
    requires
        session_id.value != INVALID_SESSION_ID,
        says(state.hello(session_id, ProtocolVersion::current()).reply, response, 0),
    ensures
        client::greeting(response) == Ok::<SessionId, IamClientError>(session_id),
{
}

/// A client of an incompatible version that says hello is told so.
pub proof fn law_incompatible_hello_is_explained<H>(
    state: ServerState<H>,
    session_id: SessionId,
    version: ProtocolVersion,
    response: IamResponse,
)
    requires
        !protocol::versions_compatible(version, ProtocolVersion::current()),
        says(state.hello(session_id, version).reply, response, 0),
    ensures
        client::greeting(response) == Err::<SessionId, _>(IamClientError::VersionMismatch),
{
    law_version_refusal_fits(version);
}

/// A message of few characters is within the protocol's limit.
proof fn lemma_short_message_fits(message: Seq<char>)
    requires
        message.len() <= 128,
    ensures
        protocol::message_fits(message),
{
    text::lemma_encoded_length(message);
}

/// What a client of an incompatible version is told is within the protocol's limit on error
/// messages, whatever the versions are.
pub proof fn law_version_refusal_fits(version: ProtocolVersion)
    ensures
        server_state::version_refused(version) matches Answer::Denied { message, .. }
            && protocol::message_fits(message),
{
    reveal_strlit("Client version ");
    reveal_strlit(".");
    reveal_strlit(" not compatible with server version ");
    text::lemma_short_decimal(version.major as nat);
    text::lemma_short_decimal(version.minor as nat);
    text::lemma_short_decimal(ProtocolVersion::current().major as nat);
    text::lemma_short_decimal(ProtocolVersion::current().minor as nat);
    lemma_short_message_fits(server_state::version_refused(version)->Denied_message);
}

/// What the server denies is a denied request to the client, whatever was asked for, where the
/// message is within the protocol's limit. A longer message, which only a policy can give, is a
/// protocol error.
pub proof fn law_denial_is_understood(response: IamResponse)
    requires
        response matches IamResponse::Denied { message, .. } && protocol::message_fits(message@),
    ensures
        client::created_service(response) == Err::<ServiceId, _>(IamClientError::RequestDenied),
        client::attached_port(response) == Err::<(u128, Vec<SegmentInfo>, usize), _>(
            IamClientError::RequestDenied,
        ),
        client::added_segment(response) == Err::<(SegmentId, usize, usize), _>(
            IamClientError::RequestDenied,
        ),
        client::registered_segment(response) == Err::<SegmentId, _>(IamClientError::RequestDenied),
        client::registered_index(response) == Err::<u8, _>(IamClientError::RequestDenied),
        client::granted_segment(response) == Err::<Option<(SegmentInfo, usize)>, _>(
            IamClientError::RequestDenied,
        ),
        client::granted_dynamic_segment(response) == Err::<Option<(SegmentInfo, usize)>, _>(
            IamClientError::RequestDenied,
        ),
{
}

/// The segments that are offered are as many as have a duplicate of their handle.
proof fn lemma_offered<H>(segment_info: Seq<SegmentInfo>, copies: Seq<Option<H>>, n: int)
    requires
        0 <= n <= segment_info.len(),
    ensures
        server_state::offered(segment_info, copies, n).len() <= n,
        (forall|i: int| 0 <= i < n ==> (#[trigger] server_state::copy_at(copies, i)) is Some)
            ==> server_state::offered(segment_info, copies, n).map_values(
            |one: (SegmentInfo, H)| one.0,
        ) == segment_info.take(n),
    decreases n,
{
    let first = |one: (SegmentInfo, H)| one.0;
    if n > 0 {
        lemma_offered(segment_info, copies, n - 1);
        if forall|i: int| 0 <= i < n ==> (#[trigger] server_state::copy_at(copies, i)) is Some {
            let rest = server_state::offered(segment_info, copies, n - 1);
            assert(server_state::copy_at(copies, n - 1) is Some);
            assert(server_state::offered(segment_info, copies, n).map_values(first)
                =~= rest.map_values(first).push(segment_info[n - 1]));
            assert(segment_info.take(n) =~= segment_info.take(n - 1).push(segment_info[n - 1]));
        }
    } else {
        assert(server_state::offered(segment_info, copies, n).map_values(first)
            =~= segment_info.take(n));
    }
}

/// A port that the server attaches is attached to the client: the answer stays within the
/// protocol's limits, tells of as many segments as it announces handles, and as many handles
/// follow it. Where every handle could be duplicated and one message can pass them all, a
/// subscriber is told of all the active segments that its session may access.
pub proof fn law_attachment_is_accepted<H>(
    state: ServerState<H>,
    session_id: SessionId,
    service: Seq<char>,
    port_type: PortType,
    asked: QosRequest,
    limits: ResourceLimits,
    bounds: QosBounds,
    copies: Seq<Option<H>>,
    response: IamResponse,
    handles: int,
)
    requires
        state.port_counter < u128::MAX,
        response is AttachOk,
        says(
            state.attach_within(
                session_id,
                service,
                port_type,
                asked,
                limits,
                bounds,
                copies,
            ).reply,
            response,
            handles,
        ),
    ensures
        client::attached_port(response) matches Ok((port_id, segment_info, count)) && port_id
            == state.port_counter + 1 && segment_info@.len() == count && count == handles && count
            <= MAX_HANDLES_PER_MESSAGE && ({
            let known = segment_manager::session_infos(state.table, session_id);
            port_type is Subscriber && known.len() <= MAX_HANDLES_PER_MESSAGE && (forall|i: int|
                0 <= i < known.len() ==> (#[trigger] server_state::copy_at(copies, i)) is Some)
                ==> segment_info@ == known
        }),
{
    let known = segment_manager::session_infos(state.table, session_id);
    if known.len() <= MAX_HANDLES_PER_MESSAGE {
        lemma_offered(known, copies, known.len() as int);
        assert(known.take(known.len() as int) =~= known);
    } else {
        lemma_offered(known, copies, MAX_HANDLES_PER_MESSAGE as int);
    }
}

/// The handles that a subscriber's request asks for are, one by one, those of the active segments
/// that its session may access, in the order in which it is told of them: all of them, or as many
/// as one message can pass.
pub proof fn law_wanted_handles_are_those_offered<H>(
    state: ServerState<H>,
    session_id: SessionId,
    request: IamRequest,
    i: int,
)
    requires
        request is AttachSubscriber,
    ensures
        ({
            let known = segment_manager::session_infos(state.table, session_id);
            let segments = segment_manager::session_segments(state.table, session_id);
            let wanted = state.wanted_handles(session_id, request);
            &&& wanted.len() == (if known.len() <= MAX_HANDLES_PER_MESSAGE {
                known.len() as int
            } else {
                MAX_HANDLES_PER_MESSAGE as int
            })
            &&& 0 <= i < wanted.len() ==> wanted[i] == segments[i].handle && known[i]
                == segments[i].info()
        }),
{
    segment_manager::lemma_session_infos(state.table, session_id);
}

/// A segment that was created for a port is a new segment to the client: the answer announces
/// the one handle that follows it.
pub proof fn law_created_segment_is_accepted<H>(
    state: ServerState<H>,
    order: SegmentOrder,
    handle: H,
    size: usize,
    kept: H,
    response: IamResponse,
)
    requires
        size > 0,
        says(state.segment_created(order, Ok((handle, size)), Some(kept)).reply, response, 1),
    ensures
        client::added_segment(response) == Ok::<(SegmentId, usize, usize), IamClientError>(
            (order.segment_id, size, 1),
        ),
{
}

/// A consumer that asks for a producer's segment gets it with its one handle, or learns that
/// there is none yet; it is never an error.
pub proof fn law_requested_segment_is_understood<H>(
    state: ServerState<H>,
    session_id: SessionId,
    port_id: u128,
    duplicate: Option<H>,
    response: IamResponse,
)
    requires
        state.request_segment(session_id, port_id, duplicate).reply matches ReplyState::Answer {
            answer,
            ..
        } && answer == response@,
    ensures
        client::granted_segment(response) is Ok,
        client::granted_segment(response) matches Ok(Some((_, count))) ==> says(
            state.request_segment(session_id, port_id, duplicate).reply,
            response,
            count as int,
        ),
{
}

/// A consumer that asks for a segment of a producer's dynamic set gets it with its one handle,
/// or learns that it is not registered yet; it is never an error.
pub proof fn law_requested_dynamic_segment_is_understood<H>(
    state: ServerState<H>,
    session_id: SessionId,
    port_id: u128,
    index: u8,
    duplicate: Option<H>,
    response: IamResponse,
)
    requires
        state.request_dynamic_segment(
            session_id,
            port_id,
            index,
            duplicate,
        ).reply matches ReplyState::Answer { answer, .. } && answer == response@,
    ensures
        client::granted_dynamic_segment(response) is Ok,
        client::granted_dynamic_segment(response) matches Ok(Some((_, count))) ==> says(
            state.request_dynamic_segment(session_id, port_id, index, duplicate).reply,
            response,
            count as int,
        ),
{
}

/// A segment that the server created for a producer is what a consumer that asks for the index
/// of its identifier gets, with a duplicate of the handle that the server kept.
pub proof fn law_created_segment_is_served<H>(
    state: ServerState<H>,
    order: SegmentOrder,
    handle: H,
    size: usize,
    kept: H,
    consumer: SessionId,
    duplicate: H,
)
    requires
        size > 0,
        order.segment_id.value != GAP_SEGMENT,
    ensures
        ({
            let served = state.segment_created(order, Ok((handle, size)), Some(kept)).state;
            let id = served.table.at_index_of_port(order.port_id, order.segment_id.value);
            &&& id == Some(order.segment_id.value)
            &&& served.table.grant_of(id) == Some(kept)
            &&& served.request_dynamic_segment(
                consumer,
                order.port_id,
                order.segment_id.value,
                Some(duplicate),
            ).reply matches ReplyState::Answer { answer, handles }
            &&& handles == seq![duplicate]
            &&& answer matches Answer::DynamicSegmentHandleOk { segment_info, handle_count }
            &&& handle_count == 1
            &&& segment_info.segment_id == order.segment_id
            &&& segment_info.size == size
        }),
{
}

/// With the default policy a process of another user gets no port: the answer is a denial for
/// want of authorization, and the server stays as it is.
pub proof fn law_default_policy_guards_ports<H>(
    policy: DefaultPolicy,
    state: ServerState<H>,
    session_id: SessionId,
    service: Seq<char>,
    port_type: PortType,
    asked: QosRequest,
    verdict: Verdict,
    limits: ResourceLimits,
    bounds: QosBounds,
    copies: Seq<Option<H>>,
)
    requires
        state.sessions[session_id.value].session.credentials.uid != policy.owner_uid,
        policy.may_decide_attach(
            state.sessions[session_id.value].session.credentials,
            service,
            port_type,
            verdict,
        ),
    ensures
        ({
            let effect = state.attach(
                session_id,
                service,
                port_type,
                asked,
                verdict,
                limits,
                bounds,
                copies,
            );
            &&& effect.state == state
            &&& effect.reply matches ReplyState::Answer { answer, handles }
            &&& handles.len() == 0
            &&& answer matches Answer::Denied { reason, .. }
            &&& reason == DenialReason::Unauthorized
        }),
{
}

/// With the default policy a process of another user gets no segment: the answer is a denial for
/// want of authorization, and the server stays as it is.
pub proof fn law_default_policy_guards_segments<H>(
    policy: DefaultPolicy,
    state: ServerState<H>,
    session_id: SessionId,
    service: Seq<char>,
    port_id: u128,
    requested_size: usize,
    bucket_size: usize,
    bucket_align: usize,
    verdict: Verdict,
    limits: ResourceLimits,
)
    requires
        state.sessions[session_id.value].session.credentials.uid != policy.owner_uid,
        policy.may_decide_add_segment(
            state.sessions[session_id.value].session.credentials,
            service,
            requested_size,
            verdict,
        ),
    ensures
        ({
            let effect = state.add_segment(
                session_id,
                port_id,
                requested_size,
                bucket_size,
                bucket_align,
                verdict,
                limits,
            );
            &&& effect.state == state
            &&& effect.reply matches ReplyState::Answer { answer, handles }
            &&& handles.len() == 0
            &&& answer matches Answer::Denied { reason, .. }
            &&& reason == DenialReason::Unauthorized
        }),
{
}

} // verus!
