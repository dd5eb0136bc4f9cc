//! Laws of brokering: which segments the server keeps and for whom, whom it tells of them, and who
//! gets which handle, in the fields of requests, answers and of what the server keeps.

use vstd::prelude::*;
use crate::audit::AuditEventKind;
use crate::error::IamServerError;
use crate::ledger;
use crate::policy::{QosBounds, ResourceLimits, Verdict};
use crate::protocol::{
    Answer, DenialReason, IamNotification, IamRequest, PortType, SegmentInfo, SessionId,
};
use crate::request_laws;
use crate::segment_laws;
use crate::segment_manager;
use crate::segment_manager::{SegmentState, SegmentTable};
use crate::server_state;
use crate::server_state::{
    ConsumerState, Effect, EntryState, HandleOrder, Registration, ReplyState, SegmentOrder,
    ServerState,
};
use crate::session;
use crate::session::{PortInfo, SessionState};
use crate::turn;
use crate::turn::StepState;
use crate::types::{AccessRights, SegmentId, ServiceId};

verus! {

/// The ports that are told of new segments of a service are those that are consumers of this very
/// service: whatever port is noted as a consumer of some service is among them exactly if that is
/// the service, and no other port is among them.
pub proof fn law_consumers_are_of_the_service<H>(
    state: ServerState<H>,
    service: Seq<char>,
    session_id: SessionId,
    port_id: u128,
)
    ensures
        state.consumers_of(service).contains((session_id, port_id)) <==> exists|i: int|
            0 <= i < state.consumers.len() && (#[trigger] state.consumers[i]).service == service
                && state.consumers[i].session_id == session_id && state.consumers[i].port_id
                == port_id,
        state.consumers_of(service).len() <= state.consumers.len(),
{
    let keep = |consumer: ConsumerState| consumer.service == service;
    let pick = |consumer: ConsumerState| (consumer.session_id, consumer.port_id);
    let kept = state.consumers.filter(keep);
    let picked = kept.map_values(pick);
    assert(state.consumers_of(service) == picked);
    if picked.contains((session_id, port_id)) {
        let j = choose|j: int| 0 <= j < picked.len() && picked[j] == (session_id, port_id);
        state.consumers.lemma_filter_pred(keep, j);
        assert(kept.contains(kept[j]));
        state.consumers.lemma_filter_contains_rev(keep, kept[j]);
        let i = choose|i: int| 0 <= i < state.consumers.len() && state.consumers[i] == kept[j];
        assert(state.consumers[i].service == service);
    }
    if exists|i: int|
        0 <= i < state.consumers.len() && (#[trigger] state.consumers[i]).service == service
            && state.consumers[i].session_id == session_id && state.consumers[i].port_id
            == port_id {
        let i = choose|i: int|
            0 <= i < state.consumers.len() && (#[trigger] state.consumers[i]).service == service
                && state.consumers[i].session_id == session_id && state.consumers[i].port_id
                == port_id;
        state.consumers.lemma_filter_contains(keep, i);
        let j = choose|j: int| 0 <= j < kept.len() && kept[j] == state.consumers[i];
        assert(picked[j] == (session_id, port_id));
    }
    lemma_filter_shortens(state.consumers, keep);
}

proof fn lemma_filter_shortens<A>(list: Seq<A>, keep: spec_fn(A) -> bool)
    ensures
        list.filter(keep).len() <= list.len(),
    decreases list.len(),
{
    reveal(Seq::filter);
    if list.len() > 0 {
        lemma_filter_shortens(list.drop_last(), keep);
    }
}

/// A port that comes to be a consumer of a service is told after all that were before it; the
/// consumers of other services stay who they were.
pub proof fn law_new_consumers_come_last<H>(
    state: ServerState<H>,
    service: Seq<char>,
    new: ConsumerState,
)
    ensures
        ({
            let after = ServerState { consumers: state.consumers.push(new), ..state };
            after.consumers_of(service) == (if new.service == service {
                state.consumers_of(service).push((new.session_id, new.port_id))
            } else {
                state.consumers_of(service)
            })
        }),
{
    let keep = |consumer: ConsumerState| consumer.service == service;
    let pick = |consumer: ConsumerState| (consumer.session_id, consumer.port_id);
    let after = ServerState { consumers: state.consumers.push(new), ..state };
    reveal(Seq::filter);
    assert(state.consumers.push(new).drop_last() =~= state.consumers);
    if keep(new) {
        assert(after.consumers_of(service) =~= state.consumers_of(service).push(
            (new.session_id, new.port_id),
        ));
    } else {
        assert(after.consumers_of(service) =~= state.consumers_of(service));
    }
}

/// A broadcast authorizes and grants a segment to sessions that have a consumer port of the
/// service, and to no others; each such session gets it if both duplicates for one of its ports are
/// there and the segment is not being retired.
pub proof fn law_broadcast_stays_in_the_service<H>(
    state: ServerState<H>,
    service: Seq<char>,
    segment_id: SegmentId,
    copies: Seq<(Option<H>, Option<H>)>,
    session_id: SessionId,
    other: u8,
)
    requires
        copies.len() == state.consumers_of(service).len(),
        state.table.segments.contains_key(segment_id.value),
    ensures
        ({
            let consumers = state.consumers_of(service);
            let after = server_state::after_broadcast(
                state,
                segment_id,
                consumers,
                copies,
                copies.len() as int,
            );
            let before = state.table.segments[segment_id.value];
            let now = after.table.segments[segment_id.value];
            let told = !before.retiring && exists|i: int|
                0 <= i < consumers.len() && (#[trigger] consumers[i]).0 == session_id
                    && copies[i].0 is Some && copies[i].1 is Some;
            &&& told ==> exists|i: int|
                0 <= i < state.consumers.len() && (#[trigger] state.consumers[i]).service == service
                    && state.consumers[i].session_id == session_id
            &&& after.table.segments.dom() == state.table.segments.dom()
            &&& other != segment_id.value ==> after.table.segments[other]
                == state.table.segments[other]
            &&& now.authorized.contains(session_id.value) <==> before.authorized.contains(
                session_id.value,
            ) || told
            &&& now == (SegmentState { authorized: now.authorized, ..before })
            &&& after.sessions.dom() == state.sessions.dom()
            &&& state.sessions.contains_key(session_id.value) ==> {
                let one = state.sessions[session_id.value].session;
                let two = after.sessions[session_id.value].session;
                &&& two.granted == (if told {
                    one.granted.insert(segment_id.value)
                } else {
                    one.granted
                })
                &&& !told ==> after.sessions[session_id.value] == state.sessions[session_id.value]
            }
        }),
{
    let consumers = state.consumers_of(service);
    let n = copies.len() as int;
    lemma_broadcast_reaches(state, segment_id, consumers, copies, n, session_id, other);
    if exists|i: int|
        0 <= i < consumers.len() && (#[trigger] consumers[i]).0 == session_id && copies[i].0 is Some
            && copies[i].1 is Some {
        let i = choose|i: int|
            0 <= i < consumers.len() && (#[trigger] consumers[i]).0 == session_id
                && copies[i].0 is Some && copies[i].1 is Some;
        assert(consumers.contains((session_id, consumers[i].1))) by {
            assert(consumers[i] == (session_id, consumers[i].1));
        }
        law_consumers_are_of_the_service(state, service, session_id, consumers[i].1);
    }
}

proof fn lemma_broadcast_reaches<H>(
    state: ServerState<H>,
    segment_id: SegmentId,
    consumers: Seq<(SessionId, u128)>,
    copies: Seq<(Option<H>, Option<H>)>,
    n: int,
    session_id: SessionId,
    other: u8,
)
    requires
        0 <= n <= consumers.len(),
        n <= copies.len(),
        state.table.segments.contains_key(segment_id.value),
    ensures
        ({
            let after = server_state::after_broadcast(state, segment_id, consumers, copies, n);
            let before = state.table.segments[segment_id.value];
            let now = after.table.segments[segment_id.value];
            let told = !before.retiring && exists|i: int|
                0 <= i < n && (#[trigger] consumers[i]).0 == session_id && copies[i].0 is Some
                    && copies[i].1 is Some;
            &&& after.table.segments.dom() == state.table.segments.dom()
            &&& other != segment_id.value ==> after.table.segments[other]
                == state.table.segments[other]
            &&& now.authorized.contains(session_id.value) <==> before.authorized.contains(
                session_id.value,
            ) || told
            &&& now == (SegmentState { authorized: now.authorized, ..before })
            &&& after.sessions.dom() == state.sessions.dom()
            &&& state.sessions.contains_key(session_id.value) ==> {
                let one = state.sessions[session_id.value].session;
                let two = after.sessions[session_id.value].session;
                &&& two.granted == (if told {
                    one.granted.insert(segment_id.value)
                } else {
                    one.granted
                })
                &&& !told ==> after.sessions[session_id.value] == state.sessions[session_id.value]
            }
        }),
    decreases n,
{
    let after = server_state::after_broadcast(state, segment_id, consumers, copies, n);
    if n > 0 {
        lemma_broadcast_reaches(state, segment_id, consumers, copies, n - 1, session_id, other);
        let rest = server_state::after_broadcast(state, segment_id, consumers, copies, n - 1);
        let key = consumers[n - 1].0;
        assert(rest.table.segments.dom().contains(segment_id.value));
        assert(after.table.segments.dom() =~= state.table.segments.dom());
        assert(rest.sessions.dom().contains(key.value) == state.sessions.dom().contains(key.value));
        assert(after.sessions.dom() =~= state.sessions.dom());
        let both = copies[n - 1].0 is Some && copies[n - 1].1 is Some;
        if key.value == session_id.value {
            assert(key == session_id);
        }
        if state.sessions.contains_key(session_id.value) {
            let one = state.sessions[session_id.value].session;
            assert(one.granted.insert(segment_id.value).insert(segment_id.value)
                =~= one.granted.insert(segment_id.value));
        }
        if exists|i: int|
            0 <= i < n - 1 && (#[trigger] consumers[i]).0 == session_id && copies[i].0 is Some
                && copies[i].1 is Some {
            let i = choose|i: int|
                0 <= i < n - 1 && (#[trigger] consumers[i]).0 == session_id && copies[i].0 is Some
                    && copies[i].1 is Some;
            assert(0 <= i < n && consumers[i].0 == session_id);
        }
        if both && key == session_id {
            assert(0 <= n - 1 < n && consumers[n - 1].0 == session_id);
        }
    } else {
        assert(after == state);
    }
}

/// Each consumer whose session is there and for whom both duplicates are there is told once, in
/// its turn, of the new segment and its size, with the duplicate that was made for it; of a
/// segment that is being retired, or not there, nobody is told.
pub proof fn law_each_consumer_is_told_once<H>(
    state: ServerState<H>,
    segment_id: SegmentId,
    size: usize,
    consumers: Seq<(SessionId, u128)>,
    copies: Seq<(Option<H>, Option<H>)>,
    n: int,
)
    requires
        0 <= n,
    ensures
        ({
            let fewer = server_state::notices(state, segment_id, size, consumers, copies, n);
            let more = server_state::notices(state, segment_id, size, consumers, copies, n + 1);
            let open = state.table.segments.contains_key(segment_id.value)
                && !state.table.segments[segment_id.value].retiring;
            &&& server_state::notices(state, segment_id, size, consumers, copies, 0).len() == 0
            &&& if open && state.sessions.contains_key(consumers[n].0.value) && copies[n].0 is Some
                && copies[n].1 is Some {
                &&& more.len() == fewer.len() + 1
                &&& more.drop_last() == fewer
                &&& more.last().session_id == consumers[n].0
                &&& more.last().handle == copies[n].0->0
                &&& more.last().notification == (IamNotification::SegmentUpdate {
                    segment_id,
                    size,
                    handle_count: 1,
                })
            } else {
                more == fewer
            }
        }),
{
    let fewer = server_state::notices(state, segment_id, size, consumers, copies, n);
    let more = server_state::notices(state, segment_id, size, consumers, copies, n + 1);
    if more.len() > fewer.len() {
        assert(more.drop_last() =~= fewer);
    }
}

/// What the creation of a segment comes to. A factory that creates none, and one that failed, is a
/// denial; any other error, a handle that the server cannot keep, and a segment of no size give
/// the session up. Otherwise the producer gets the handle, and the server keeps the duplicate, for
/// reading and writing, under the identifier that was ordered, at the index of that identifier.
pub proof fn law_created_segments_are_kept<H>(
    state: ServerState<H>,
    order: SegmentOrder,
    created: Result<(H, usize), IamServerError>,
    kept: Option<H>,
)
    ensures
        ({
            let effect = state.segment_created(order, created, kept);
            let id = order.segment_id;
            &&& effect.audit is None
            &&& match (created, kept) {
                (Err(IamServerError::SegmentCreationNotSupported), _) => request_laws::denies(
                    effect,
                    state,
                    DenialReason::InvalidRequest,
                    "Segment creation not supported by this service"@,
                ),
                (Err(IamServerError::SegmentCreationFailed), _) => request_laws::denies(
                    effect,
                    state,
                    DenialReason::InternalError,
                    "Failed to create segment"@,
                ),
                (Err(error), _) => effect.state == state && effect.reply == (ReplyState::<
                    H,
                >::Failed { error }),
                (Ok(_), None) => effect.state == state && effect.reply == (ReplyState::<
                    H,
                >::Failed { error: IamServerError::HandlePassingFailed }),
                (Ok((handle, size)), Some(own)) => if size == 0 {
                    effect.state == state && effect.reply == (ReplyState::<H>::Failed {
                        error: IamServerError::InvalidSegmentSize,
                    })
                } else {
                    let table = effect.state.table;
                    &&& effect.reply matches ReplyState::Answer {
                        answer: Answer::AddSegmentOk { segment_id, size: told, handle_count },
                        handles,
                    }
                    &&& segment_id == id
                    &&& told == size
                    &&& handle_count == 1
                    &&& handles.len() == 1
                    &&& handles[0] == handle
                    &&& table.segments == state.table.segments.insert(
                        id.value,
                        SegmentState {
                            id,
                            handle: own,
                            size,
                            access: AccessRights { read: true, write: true },
                            authorized: Set::empty(),
                            retiring: false,
                            pending: Set::empty(),
                        },
                    )
                    &&& is_placed(state.table, table, order.port_id, id.value, id)
                    &&& table.channels == state.table.channels
                    &&& table.mgmt_segments == state.table.mgmt_segments
                    &&& table.next_id == state.table.next_id
                    &&& keeps_ports(state, effect.state)
                },
            }
        }),
{
}

/// Whether the producers and consumers are the same, and the number of the last port.
pub open spec fn keeps_ports<H>(before: ServerState<H>, after: ServerState<H>) -> bool {
    &&& after.producers == before.producers
    &&& after.consumers == before.consumers
    &&& after.port_counter == before.port_counter
}

/// Whether a segment stands at an index of a port's list from now on: those at other indices stay,
/// and indices that were not there before are gaps, marked by the identifier 255.
pub open spec fn is_placed<H>(
    before: SegmentTable<H>,
    after: SegmentTable<H>,
    port: u128,
    index: u8,
    id: SegmentId,
) -> bool {
    let old_length = if before.port_segments.contains_key(port) {
        before.port_segments[port].len() as int
    } else {
        0int
    };
    let list = after.port_segments[port];
    &&& after.port_segments.contains_key(port)
    &&& list.len() == (if old_length <= index {
        index + 1
    } else {
        old_length
    })
    &&& list[index as int] == id
    &&& forall|i: int|
        0 <= i < list.len() && i != index ==> #[trigger] list[i] == (if i < old_length {
            before.port_segments[port][i]
        } else {
            SegmentId { value: 255 }
        })
    &&& forall|other: u128|
        other != port ==> after.port_segments.contains_key(other)
            == #[trigger] before.port_segments.contains_key(other)
    &&& forall|other: u128|
        other != port && before.port_segments.contains_key(other)
            ==> #[trigger] after.port_segments[other] == before.port_segments[other]
}

/// A segment that was created for a port is announced in the service of which that port is a
/// producer, and to nobody if the port is no producer; the producer is answered in either case.
pub proof fn law_created_segments_are_announced<H>(
    state: ServerState<H>,
    order: SegmentOrder,
    handle: H,
    size: usize,
    own: H,
)
    requires
        size > 0,
    ensures
        ({
            let effect = state.segment_created(order, Ok((handle, size)), Some(own));
            match turn::step_for_segment(state, order, effect) {
                StepState::Announce { service, segment_id, size: told, answer, handles } => {
                    &&& state.producers.contains_key(order.port_id)
                    &&& service == state.producers[order.port_id]
                    &&& segment_id == order.segment_id
                    &&& told == size
                    &&& answer == (Answer::AddSegmentOk { segment_id, size, handle_count: 1 })
                    &&& handles.len() == 1
                    &&& handles[0] == handle
                },
                StepState::Respond { answer, handles } => {
                    &&& !state.producers.contains_key(order.port_id)
                    &&& answer == (Answer::AddSegmentOk {
                        segment_id: order.segment_id,
                        size,
                        handle_count: 1,
                    })
                    &&& handles.len() == 1
                    &&& handles[0] == handle
                },
                _ => false,
            }
        }),
{
}

/// A reply is carried out: an answer is sent as it is, with its handles; a failure ends the turn;
/// what is ordered is done.
pub proof fn law_replies_are_carried_out<H>(
    answer: Answer,
    handles: Seq<H>,
    error: IamServerError,
    segment_order: SegmentOrder,
    handle_order: HandleOrder,
)
    ensures
        turn::step_for(ReplyState::Answer { answer, handles }) == (StepState::Respond {
            answer,
            handles,
        }),
        turn::step_for(ReplyState::<H>::Failed { error }) == (StepState::<H>::Done {
            turn: Err(error),
        }),
        turn::step_for(ReplyState::<H>::CreateSegment { order: segment_order }) == (StepState::<
            H,
        >::CreateSegment { order: segment_order }),
        turn::step_for(ReplyState::<H>::ReceiveHandles { order: handle_order }) == (StepState::<
            H,
        >::ReceiveHandles { order: handle_order }),
{
}

/// What a segment of a producer, that others may read, is when it was just registered.
pub open spec fn shared_by_client<H>(id: SegmentId, handle: H, size: usize) -> SegmentState<H> {
    SegmentState {
        id,
        handle,
        size,
        access: AccessRights { read: true, write: false },
        authorized: Set::empty(),
        retiring: false,
        pending: Set::empty(),
    }
}

/// A data segment that is registered gets a free identifier, of which the client learns, is the
/// last of its port, and can be read, not written, in the size that was stated. One of no size is
/// refused; where the identifiers 1 to 254 are in use, the session is given up.
pub proof fn law_registered_segments_are_filed<H>(
    state: ServerState<H>,
    session_id: SessionId,
    port_id: u128,
    segment_size: usize,
    handles: Seq<H>,
)
    requires
        handles.len() > 0,
    ensures
        ({
            let registration = Registration::Segment { port_id, segment_size };
            let effect = state.handles_received(HandleOrder { session_id, registration }, handles);
            let table = effect.state.table;
            &&& effect.audit is None
            &&& segment_size == 0 ==> effect.state == state && effect.reply == (ReplyState::<
                H,
            >::Failed { error: IamServerError::InvalidSegmentSize })
            &&& segment_size > 0 ==> match effect.reply {
                ReplyState::Failed { error } => {
                    &&& error == IamServerError::ResourceLimitExceeded
                    &&& effect.state == state
                    &&& forall|id: u8|
                        1 <= id <= 254 ==> #[trigger] state.table.segments.contains_key(id)
                },
                ReplyState::Answer { answer: Answer::RegisterSegmentOk { segment_id }, handles: none } => {
                    let id = segment_id.value;
                    let list = table.port_segments[port_id];
                    &&& none.len() == 0
                    &&& 1 <= id <= 254
                    &&& !state.table.segments.contains_key(id)
                    &&& table.segments == state.table.segments.insert(
                        id,
                        shared_by_client(segment_id, handles[0], segment_size),
                    )
                    &&& table.port_segments.contains_key(port_id)
                    &&& list.last() == segment_id
                    &&& list.drop_last() == (if state.table.port_segments.contains_key(port_id) {
                        state.table.port_segments[port_id]
                    } else {
                        Seq::empty()
                    })
                    &&& forall|other: u128|
                        other != port_id ==> table.port_segments.contains_key(other)
                            == #[trigger] state.table.port_segments.contains_key(other)
                    &&& forall|other: u128|
                        other != port_id && state.table.port_segments.contains_key(other)
                            ==> #[trigger] table.port_segments[other]
                            == state.table.port_segments[other]
                    &&& table.channels == state.table.channels
                    &&& table.mgmt_segments == state.table.mgmt_segments
                    &&& table.next_id == (id + 1) as u8
                    &&& keeps_ports(state, effect.state)
                },
                _ => false,
            }
        }),
{
    lemma_identifiers(state.table);
    let registration = Registration::Segment { port_id, segment_size };
    let effect = state.handles_received(HandleOrder { session_id, registration }, handles);
    if let Some(id) = state.table.next_free() {
        let list = effect.state.table.port_segments[port_id];
        assert(state.table.segments_of(port_id).push(SegmentId { value: id }).drop_last()
            =~= state.table.segments_of(port_id));
    }
}

proof fn lemma_identifiers<H>(table: SegmentTable<H>)
    ensures
        match table.next_free() {
            Some(id) => 1 <= id <= 254 && !table.segments.contains_key(id),
            None => forall|id: u8| 1 <= id <= 254 ==> #[trigger] table.segments.contains_key(id),
        },
{
    if let Some(id) = table.next_free() {
        assert(table.is_next_free(id));
    } else {
        assert forall|id: u8| 1 <= id <= 254 implies #[trigger] table.segments.contains_key(id) by {
            if !table.segments.contains_key(id) {
                assert(table.usable(id));
                request_laws::lemma_some_identifier_is_next(table, id);
            }
        }
    }
}

/// A dynamic segment that is registered gets a free identifier and stands at the index that was
/// stated, which the client is told again; it can be read, not written, in the size that was
/// stated. It is refused like any data segment.
pub proof fn law_registered_dynamic_segments_are_filed<H>(
    state: ServerState<H>,
    session_id: SessionId,
    port_id: u128,
    segment_index: u8,
    segment_size: usize,
    handles: Seq<H>,
)
    requires
        handles.len() > 0,
    ensures
        ({
            let registration = Registration::DynamicSegment {
                port_id,
                segment_index,
                segment_size,
            };
            let effect = state.handles_received(HandleOrder { session_id, registration }, handles);
            let table = effect.state.table;
            &&& effect.audit is None
            &&& segment_size == 0 ==> effect.state == state && effect.reply == (ReplyState::<
                H,
            >::Failed { error: IamServerError::InvalidSegmentSize })
            &&& segment_size > 0 ==> match effect.reply {
                ReplyState::Failed { error } => {
                    &&& error == IamServerError::ResourceLimitExceeded
                    &&& effect.state == state
                    &&& forall|id: u8|
                        1 <= id <= 254 ==> #[trigger] state.table.segments.contains_key(id)
                },
                ReplyState::Answer {
                    answer: Answer::RegisterDynamicSegmentOk { segment_id },
                    handles: none,
                } => {
                    let id = table.port_segments[port_id][segment_index as int];
                    &&& segment_id == segment_index
                    &&& none.len() == 0
                    &&& 1 <= id.value <= 254
                    &&& !state.table.segments.contains_key(id.value)
                    &&& table.segments == state.table.segments.insert(
                        id.value,
                        shared_by_client(id, handles[0], segment_size),
                    )
                    &&& is_placed(state.table, table, port_id, segment_index, id)
                    &&& table.channels == state.table.channels
                    &&& table.mgmt_segments == state.table.mgmt_segments
                    &&& table.next_id == (id.value + 1) as u8
                    &&& keeps_ports(state, effect.state)
                },
                _ => false,
            }
        }),
{
    lemma_identifiers(state.table);
}

/// A channel that is registered is kept for its two ports, sender first, with the first handle, to
/// be read and written, in the size that was stated or as one byte; what was kept for the two ports
/// before is replaced.
pub proof fn law_registered_channels_are_filed<H>(
    state: ServerState<H>,
    session_id: SessionId,
    sender_port_id: u128,
    receiver_port_id: u128,
    channel_size: usize,
    handles: Seq<H>,
)
    requires
        handles.len() > 0,
    ensures
        ({
            let registration = Registration::Channel {
                sender_port_id,
                receiver_port_id,
                channel_size,
            };
            let effect = state.handles_received(HandleOrder { session_id, registration }, handles);
            &&& effect.audit is None
            &&& effect.reply == (ReplyState::<H>::Answer {
                answer: Answer::RegisterChannelOk,
                handles: Seq::empty(),
            })
            &&& effect.state.table == (SegmentTable {
                channels: state.table.channels.insert(
                    (sender_port_id, receiver_port_id),
                    SegmentState {
                        id: SegmentId { value: 0 },
                        handle: handles[0],
                        size: if channel_size > 0 {
                            channel_size
                        } else {
                            1
                        },
                        access: AccessRights { read: true, write: true },
                        authorized: Set::empty(),
                        retiring: false,
                        pending: Set::empty(),
                    },
                ),
                ..state.table
            })
            &&& keeps_ports(state, effect.state)
        }),
{
}

/// A management segment that is registered is kept for its port, with the first handle, to be read
/// and not written, in the size that was stated or as one byte; what was kept for the port before
/// is replaced.
pub proof fn law_registered_mgmt_segments_are_filed<H>(
    state: ServerState<H>,
    session_id: SessionId,
    port_id: u128,
    mgmt_size: usize,
    handles: Seq<H>,
)
    requires
        handles.len() > 0,
    ensures
        ({
            let registration = Registration::MgmtSegment { port_id, mgmt_size };
            let effect = state.handles_received(HandleOrder { session_id, registration }, handles);
            &&& effect.audit is None
            &&& effect.reply == (ReplyState::<H>::Answer {
                answer: Answer::RegisterMgmtSegmentOk,
                handles: Seq::empty(),
            })
            &&& effect.state.table == (SegmentTable {
                mgmt_segments: state.table.mgmt_segments.insert(
                    port_id,
                    SegmentState {
                        id: SegmentId { value: 0 },
                        handle: handles[0],
                        size: if mgmt_size > 0 {
                            mgmt_size
                        } else {
                            1
                        },
                        access: AccessRights { read: true, write: false },
                        authorized: Set::empty(),
                        retiring: false,
                        pending: Set::empty(),
                    },
                ),
                ..state.table
            })
            &&& keeps_ports(state, effect.state)
        }),
{
}

/// A registration of which no handle arrives gives the session up, and registers nothing.
pub proof fn law_registrations_need_handles<H>(
    state: ServerState<H>,
    order: HandleOrder,
    handles: Seq<H>,
)
    ensures
        handles.len() == 0 ==> {
            let effect = state.handles_received(order, handles);
            &&& effect.state == state
            &&& effect.audit is None
            &&& effect.reply == (ReplyState::<H>::Failed {
                error: IamServerError::HandlePassingFailed,
            })
        },
{
}

/// Whether an effect gives a session a data segment with one handle: the session may access it from
/// now on, and is granted it; no other segment changes.
pub open spec fn gives_segment<H>(
    effect: Effect<H>,
    state: ServerState<H>,
    session_id: SessionId,
    id: u8,
    handle: H,
) -> bool {
    let before = state.table.segments[id];
    &&& effect.audit is None
    &&& effect.state.table == (SegmentTable {
        segments: state.table.segments.insert(
            id,
            SegmentState { authorized: before.authorized.insert(session_id.value), ..before },
        ),
        ..state.table
    })
    &&& effect.state.sessions.contains_key(session_id.value)
    &&& effect.state.sessions[session_id.value].session.granted
        == state.sessions[session_id.value].session.granted.insert(id)
    &&& keeps_ports(state, effect.state)
    &&& effect.reply matches ReplyState::Answer { handles, .. }
    &&& handles.len() == 1
    &&& handles[0] == handle
}

/// What a client is told of a segment that it gets.
pub open spec fn told_of<H>(id: u8, segment: SegmentState<H>) -> SegmentInfo {
    SegmentInfo {
        segment_id: SegmentId { value: id },
        size: segment.size,
        access: segment.access,
    }
}

/// Who asks for the segment of a port gets the first that the port has registered, with the
/// duplicate of its handle, if it is there, is not being retired, and there is a duplicate.
/// Otherwise nothing happens, and the client learns that there is none.
pub proof fn law_segments_are_handed_out<H>(
    state: ServerState<H>,
    session_id: SessionId,
    service_id: ServiceId,
    sender_port_id: u128,
    verdict: Verdict,
    limits: ResourceLimits,
    bounds: QosBounds,
    copies: Seq<Option<H>>,
)
    requires
        request_laws::is_open(state, session_id),
    ensures
        ({
            let effect = state.dispatched_request(
                session_id,
                IamRequest::RequestSegmentHandle { service_id, sender_port_id },
                verdict,
                limits,
                bounds,
                copies,
            );
            let id = state.table.port_segments[sender_port_id][0].value;
            let segment = state.table.segments[id];
            if state.table.port_segments.contains_key(sender_port_id)
                && state.table.port_segments[sender_port_id].len() > 0
                && state.table.segments.contains_key(id) && !segment.retiring && copies.len() > 0
                && copies[0] is Some {
                &&& gives_segment(effect, state, session_id, id, copies[0]->0)
                &&& effect.reply->answer == (Answer::SegmentHandleOk {
                    segment_info: told_of(id, segment),
                    handle_count: 1,
                })
            } else {
                &&& effect.audit is None
                &&& request_laws::only_says(effect, state, Answer::SegmentHandleNotFound)
            }
        }),
{
}

/// Who asks for the segment at an index of a port gets the one that stands there, with the
/// duplicate of its handle, if the index is no gap, the segment is there and not being retired, and
/// there is a duplicate. Otherwise nothing happens, and the client is to ask again.
pub proof fn law_dynamic_segments_are_handed_out<H>(
    state: ServerState<H>,
    session_id: SessionId,
    service_id: ServiceId,
    sender_port_id: u128,
    index: u8,
    verdict: Verdict,
    limits: ResourceLimits,
    bounds: QosBounds,
    copies: Seq<Option<H>>,
)
    requires
        request_laws::is_open(state, session_id),
    ensures
        ({
            let effect = state.dispatched_request(
                session_id,
                IamRequest::RequestDynamicSegmentHandle {
                    service_id,
                    sender_port_id,
                    segment_id: index,
                },
                verdict,
                limits,
                bounds,
                copies,
            );
            let id = state.table.port_segments[sender_port_id][index as int].value;
            let segment = state.table.segments[id];
            if state.table.port_segments.contains_key(sender_port_id) && index
                < state.table.port_segments[sender_port_id].len() && id != 255
                && state.table.segments.contains_key(id) && !segment.retiring && copies.len() > 0
                && copies[0] is Some {
                &&& gives_segment(effect, state, session_id, id, copies[0]->0)
                &&& effect.reply->answer == (Answer::DynamicSegmentHandleOk {
                    segment_info: told_of(id, segment),
                    handle_count: 1,
                })
            } else {
                &&& effect.audit is None
                &&& request_laws::only_says(effect, state, Answer::DynamicSegmentPending)
            }
        }),
{
}

/// Who asks for a channel gets the one from the very sender to the very receiver, with the duplicate
/// of its handle, if it is registered and there is a duplicate; the session may access it from now
/// on. Otherwise nothing happens, and the client learns that there is none.
pub proof fn law_channels_are_handed_out<H>(
    state: ServerState<H>,
    session_id: SessionId,
    service_id: ServiceId,
    sender_port_id: u128,
    receiver_port_id: u128,
    verdict: Verdict,
    limits: ResourceLimits,
    bounds: QosBounds,
    copies: Seq<Option<H>>,
)
    requires
        request_laws::is_open(state, session_id),
    ensures
        ({
            let effect = state.dispatched_request(
                session_id,
                IamRequest::RequestChannelHandle { service_id, sender_port_id, receiver_port_id },
                verdict,
                limits,
                bounds,
                copies,
            );
            let pair = (sender_port_id, receiver_port_id);
            let channel = state.table.channels[pair];
            &&& effect.audit is None
            &&& if state.table.channels.contains_key(pair) && copies.len() > 0
                && copies[0] is Some {
                &&& effect.reply matches ReplyState::Answer {
                    answer: Answer::ChannelHandleOk { segment_info, handle_count },
                    handles,
                }
                &&& handle_count == 1
                &&& handles.len() == 1
                &&& handles[0] == copies[0]->0
                &&& segment_info.segment_id == channel.id
                &&& segment_info.size == channel.size
                &&& segment_info.access == channel.access
                &&& effect.state == (ServerState {
                    table: SegmentTable {
                        channels: state.table.channels.insert(
                            pair,
                            SegmentState {
                                authorized: channel.authorized.insert(session_id.value),
                                ..channel
                            },
                        ),
                        ..state.table
                    },
                    ..state
                })
            } else {
                request_laws::only_says(effect, state, Answer::ChannelHandleNotFound)
            }
        }),
{
}

/// Who asks for the management segment of a port gets it, with the duplicate of its handle, if it is
/// registered and there is a duplicate; the session may access it from now on. Otherwise nothing
/// happens, and the client learns that there is none.
pub proof fn law_mgmt_segments_are_handed_out<H>(
    state: ServerState<H>,
    session_id: SessionId,
    service_id: ServiceId,
    port_id: u128,
    verdict: Verdict,
    limits: ResourceLimits,
    bounds: QosBounds,
    copies: Seq<Option<H>>,
)
    requires
        request_laws::is_open(state, session_id),
    ensures
        ({
            let effect = state.dispatched_request(
                session_id,
                IamRequest::RequestMgmtSegmentHandle { service_id, port_id },
                verdict,
                limits,
                bounds,
                copies,
            );
            let mgmt = state.table.mgmt_segments[port_id];
            &&& effect.audit is None
            &&& if state.table.mgmt_segments.contains_key(port_id) && copies.len() > 0
                && copies[0] is Some {
                &&& effect.reply matches ReplyState::Answer {
                    answer: Answer::MgmtSegmentHandleOk { segment_info, handle_count },
                    handles,
                }
                &&& handle_count == 1
                &&& handles.len() == 1
                &&& handles[0] == copies[0]->0
                &&& segment_info.segment_id == mgmt.id
                &&& segment_info.size == mgmt.size
                &&& segment_info.access == mgmt.access
                &&& effect.state == (ServerState {
                    table: SegmentTable {
                        mgmt_segments: state.table.mgmt_segments.insert(
                            port_id,
                            SegmentState {
                                authorized: mgmt.authorized.insert(session_id.value),
                                ..mgmt
                            },
                        ),
                        ..state.table
                    },
                    ..state
                })
            } else {
                request_laws::only_says(effect, state, Answer::MgmtSegmentHandleNotFound)
            }
        }),
{
}

/// The handle that is to be duplicated for a request is the one of what the request asks for; none
/// where that is not there, or is being retired, and for requests that ask for nothing.
pub proof fn law_the_right_handle_is_duplicated<H>(
    state: ServerState<H>,
    session_id: SessionId,
    request: IamRequest,
)
    requires
        !(request is AttachSubscriber),
    ensures
        ({
            let table = state.table;
            let wanted = state.wanted_handles(session_id, request);
            match request {
                IamRequest::RequestSegmentHandle { sender_port_id: port, .. } => {
                    let id = table.port_segments[port][0].value;
                    if table.port_segments.contains_key(port) && table.port_segments[port].len() > 0
                        && table.segments.contains_key(id) && !table.segments[id].retiring {
                        wanted.len() == 1 && wanted[0] == table.segments[id].handle
                    } else {
                        wanted.len() == 0
                    }
                },
                IamRequest::RequestDynamicSegmentHandle {
                    sender_port_id: port,
                    segment_id: index,
                    ..
                } => {
                    let id = table.port_segments[port][index as int].value;
                    if table.port_segments.contains_key(port) && index
                        < table.port_segments[port].len() && id != 255
                        && table.segments.contains_key(id) && !table.segments[id].retiring {
                        wanted.len() == 1 && wanted[0] == table.segments[id].handle
                    } else {
                        wanted.len() == 0
                    }
                },
                IamRequest::RequestChannelHandle { sender_port_id, receiver_port_id, .. } => {
                    let pair = (sender_port_id, receiver_port_id);
                    if table.channels.contains_key(pair) {
                        wanted.len() == 1 && wanted[0] == table.channels[pair].handle
                    } else {
                        wanted.len() == 0
                    }
                },
                IamRequest::RequestMgmtSegmentHandle { port_id, .. } => {
                    if table.mgmt_segments.contains_key(port_id) {
                        wanted.len() == 1 && wanted[0] == table.mgmt_segments[port_id].handle
                    } else {
                        wanted.len() == 0
                    }
                },
                _ => wanted.len() == 0,
            }
        }),
{
}

/// Whether a session may access a segment of a table that is not being retired.
pub open spec fn may_use<H>(table: SegmentTable<H>, session_id: SessionId, id: u8) -> bool {
    &&& table.segments.contains_key(id)
    &&& table.segments[id].authorized.contains(session_id.value)
    &&& !table.segments[id].retiring
}

proof fn lemma_picked<H>(
    segments: Map<u8, SegmentState<H>>,
    keep: spec_fn(SegmentState<H>) -> bool,
    n: int,
)
    requires
        0 <= n <= 256,
        forall|key: u8| #[trigger] segments.contains_key(key) ==> segments[key].id.value == key,
    ensures
        ({
            let picked = segment_manager::picked_below(segments, keep, n);
            &&& forall|i: int|
                0 <= i < picked.len() ==> {
                    let id = (#[trigger] picked[i]).id.value;
                    &&& id < n
                    &&& segments.contains_key(id)
                    &&& keep(segments[id])
                    &&& picked[i] == segments[id]
                }
            &&& forall|i: int, j: int|
                0 <= i < j < picked.len() ==> (#[trigger] picked[i]).id.value < (
                #[trigger] picked[j]).id.value
            &&& forall|key: u8|
                key < n && #[trigger] segments.contains_key(key) && keep(segments[key])
                    ==> picked.contains(segments[key])
        }),
    decreases n,
{
    if n > 0 {
        lemma_picked(segments, keep, n - 1);
        let rest = segment_manager::picked_below(segments, keep, n - 1);
        let picked = segment_manager::picked_below(segments, keep, n);
        let last = (n - 1) as u8;
        assert forall|i: int| 0 <= i < picked.len() implies {
            let id = (#[trigger] picked[i]).id.value;
            &&& id < n
            &&& segments.contains_key(id)
            &&& keep(segments[id])
            &&& picked[i] == segments[id]
        } by {
            if i < rest.len() {
                assert(picked[i] == rest[i]);
            }
        }
        assert forall|i: int, j: int| 0 <= i < j < picked.len() implies (
        #[trigger] picked[i]).id.value < (#[trigger] picked[j]).id.value by {
            assert(picked[i] == rest[i]);
            if j < rest.len() {
                assert(picked[j] == rest[j]);
            }
        }
        assert forall|key: u8|
            key < n && #[trigger] segments.contains_key(key) && keep(
                segments[key],
            ) implies picked.contains(segments[key]) by {
            if key < n - 1 {
                let i = choose|i: int| 0 <= i < rest.len() && rest[i] == segments[key];
                assert(picked[i] == segments[key]);
            } else {
                assert(picked[picked.len() - 1] == segments[key]);
            }
        }
    }
}

/// A session is told of exactly the segments that it may access and that are not being retired, each
/// by its identifier, size and rights, by ascending identifier and each once.
pub proof fn law_sessions_are_told_of_their_segments<H>(
    table: SegmentTable<H>,
    session_id: SessionId,
    id: u8,
    i: int,
    j: int,
)
    requires
        segment_laws::filed_under_own_id(table),
    ensures
        ({
            let told = segment_manager::session_infos(table, session_id);
            &&& may_use(table, session_id, id) <==> told.contains(told_of(id, table.segments[id]))
                && table.segments.contains_key(id)
            &&& 0 <= i < told.len() ==> may_use(table, session_id, told[i].segment_id.value)
                && told[i] == told_of(
                told[i].segment_id.value,
                table.segments[told[i].segment_id.value],
            )
            &&& 0 <= i < j < told.len() ==> told[i].segment_id.value < told[j].segment_id.value
        }),
{
    let keep = |state: SegmentState<H>|
        state.authorized.contains(session_id.value) && !state.retiring;
    let picked = segment_manager::session_segments(table, session_id);
    let told = segment_manager::session_infos(table, session_id);
    lemma_picked(table.segments, keep, 256);
    segment_manager::lemma_session_infos(table, session_id);
    assert forall|k: int| 0 <= k < picked.len() implies told[k] == told_of(
        (#[trigger] picked[k]).id.value,
        table.segments[picked[k].id.value],
    ) by {
        assert(told[k] == picked[k].info());
        assert(picked[k] == table.segments[picked[k].id.value]);
    }
    if may_use(table, session_id, id) {
        assert(keep(table.segments[id]));
        assert(picked.contains(table.segments[id]));
        let k = choose|k: int| 0 <= k < picked.len() && picked[k] == table.segments[id];
        assert(told[k] == told_of(id, table.segments[id]));
    }
    if told.contains(told_of(id, table.segments[id])) && table.segments.contains_key(id) {
        let k = choose|k: int| 0 <= k < told.len() && told[k] == told_of(id, table.segments[id]);
        assert(picked[k].id.value == id);
    }
    if 0 <= i < told.len() {
        assert(told[i] == told_of(picked[i].id.value, table.segments[picked[i].id.value]));
        if 0 <= j < told.len() {
            assert(told[j] == told_of(picked[j].id.value, table.segments[picked[j].id.value]));
        }
    }
}

/// The handles that are to be duplicated for a subscriber are those of the segments that its session
/// is told of, one by one, 64 at most; and the subscriber gets each segment with the duplicate of
/// its own handle, if there is one.
pub proof fn law_subscribers_get_their_segments<H>(
    state: ServerState<H>,
    session_id: SessionId,
    service_id: ServiceId,
    buffer_size: usize,
    copies: Seq<Option<H>>,
    i: int,
)
    requires
        segment_laws::filed_under_own_id(state.table),
    ensures
        ({
            let told = segment_manager::session_infos(state.table, session_id);
            let wanted = state.wanted_handles(
                session_id,
                IamRequest::AttachSubscriber { service_id, buffer_size },
            );
            let offer = state.offer(session_id, PortType::Subscriber, copies);
            &&& wanted.len() == (if told.len() <= 64 {
                told.len() as int
            } else {
                64int
            })
            &&& 0 <= i < wanted.len() ==> wanted[i]
                == state.table.segments[told[i].segment_id.value].handle
            &&& 0 <= i < wanted.len() && i < copies.len() && copies[i] is Some ==> offer.contains(
                (told[i], copies[i]->0),
            )
            &&& 0 <= i < offer.len() ==> exists|j: int|
                0 <= j < wanted.len() && j < copies.len() && (#[trigger] copies[j]) is Some
                    && offer[i] == (told[j], copies[j]->0)
            &&& (copies.len() >= wanted.len() && forall|j: int|
                0 <= j < wanted.len() ==> (#[trigger] copies[j]) is Some) ==> offer.len()
                == wanted.len() && (0 <= i < wanted.len() ==> offer[i] == (told[i], copies[i]->0))
            &&& state.offer(session_id, PortType::Publisher, copies).len() == 0
            &&& state.offer(session_id, PortType::Server, copies).len() == 0
            &&& state.offer(session_id, PortType::Client, copies).len() == 0
        }),
{
    let told = segment_manager::session_infos(state.table, session_id);
    let picked = segment_manager::session_segments(state.table, session_id);
    segment_manager::lemma_session_infos(state.table, session_id);
    let n: int = if told.len() <= 64 {
        told.len() as int
    } else {
        64
    };
    lemma_offered_pairs(told, copies, n, i);
    lemma_picked(
        state.table.segments,
        |state: SegmentState<H>|
            state.authorized.contains(session_id.value) && !state.retiring,
        256,
    );
    if 0 <= i < n {
        assert(told[i] == picked[i].info());
        assert(picked[i] == state.table.segments[picked[i].id.value]);
    }
}

proof fn lemma_offered_pairs<H>(
    told: Seq<SegmentInfo>,
    copies: Seq<Option<H>>,
    n: int,
    i: int,
)
    requires
        0 <= n <= told.len(),
    ensures
        ({
            let offer = server_state::offered(told, copies, n);
            &&& 0 <= i < n && i < copies.len() && copies[i] is Some ==> offer.contains(
                (told[i], copies[i]->0),
            )
            &&& 0 <= i < offer.len() ==> exists|j: int|
                0 <= j < n && j < copies.len() && (#[trigger] copies[j]) is Some && offer[i] == (
                    told[j],
                    copies[j]->0,
                )
            &&& (copies.len() >= n && forall|j: int|
                0 <= j < n ==> (#[trigger] copies[j]) is Some) ==> offer.len() == n && (0 <= i < n
                ==> offer[i] == (told[i], copies[i]->0))
        }),
    decreases n,
{
    if n > 0 {
        lemma_offered_pairs(told, copies, n - 1, i);
        let rest = server_state::offered(told, copies, n - 1);
        let offer = server_state::offered(told, copies, n);
        if 0 <= i < n - 1 && i < copies.len() && copies[i] is Some {
            let k = choose|k: int| 0 <= k < rest.len() && rest[k] == (told[i], copies[i]->0);
            assert(offer[k] == (told[i], copies[i]->0));
        }
        if i == n - 1 && i < copies.len() && copies[i] is Some {
            assert(offer[offer.len() - 1] == (told[i], copies[i]->0));
        }
        if 0 <= i < offer.len() {
            if i < rest.len() {
                assert(offer[i] == rest[i]);
                let j = choose|j: int|
                    0 <= j < n - 1 && j < copies.len() && (#[trigger] copies[j]) is Some && rest[i]
                        == (told[j], copies[j]->0);
                assert(0 <= j < n && copies[j] is Some);
            } else {
                assert(copies[n - 1] is Some);
            }
        }
        if copies.len() >= n && forall|j: int| 0 <= j < n ==> (#[trigger] copies[j]) is Some {
            assert(copies[n - 1] is Some);
        }
    }
}

/// A client that acknowledges the retirement of a segment is heard only if it was asked to: its
/// session has nothing to acknowledge of the segment any more, and the segment waits for it no
/// longer, or goes if it waited for nobody else. Otherwise it is denied, and nothing happens.
pub proof fn law_acknowledgments_are_heard<H>(
    state: ServerState<H>,
    session_id: SessionId,
    service_id: ServiceId,
    segment_id: SegmentId,
    verdict: Verdict,
    limits: ResourceLimits,
    bounds: QosBounds,
    copies: Seq<Option<H>>,
)
    requires
        request_laws::is_open(state, session_id),
    ensures
        ({
            let effect = state.dispatched_request(
                session_id,
                IamRequest::AckSegmentRetirement { service_id, segment_id },
                verdict,
                limits,
                bounds,
                copies,
            );
            let id = segment_id.value;
            let before = state.table.segments[id];
            let after = effect.state.table;
            let heard = state.table.segments.contains_key(id) && before.retiring
                && before.authorized.contains(session_id.value);
            let waits = exists|other: u64|
                other != session_id.value && before.pending.contains(other);
            &&& effect.audit is None
            &&& if state.sessions[session_id.value].session.pending.contains(id) {
                &&& effect.reply == (ReplyState::<H>::Answer {
                    answer: Answer::AckOk,
                    handles: Seq::empty(),
                })
                &&& !effect.state.sessions[session_id.value].session.pending.contains(id)
                &&& heard && waits ==> after.segments == state.table.segments.insert(
                    id,
                    SegmentState { pending: before.pending.remove(session_id.value), ..before },
                )
                &&& heard && !waits ==> after.segments == state.table.segments.remove(id)
                &&& !heard ==> after.segments == state.table.segments
                &&& after.port_segments == state.table.port_segments
                &&& after.channels == state.table.channels
                &&& after.mgmt_segments == state.table.mgmt_segments
                &&& after.next_id == state.table.next_id
                &&& keeps_ports(state, effect.state)
            } else {
                request_laws::denies(
                    effect,
                    state,
                    DenialReason::Unauthorized,
                    "Session not authorized for this segment retirement"@,
                )
            }
        }),
{
    let id = segment_id.value;
    let before = state.table.segments[id];
    let session = state.sessions[session_id.value].session;
    if session.pending.contains(id) {
        let table = segment_manager::table_after_ack(state.table, segment_id, session_id);
        let acked = state.with_session(
            session_id,
            SessionState { pending: session.pending.remove(id), ..session },
        );
        ledger::lemma_settling_keeps(acked.sessions, acked.ledger, table, None);
        assert(acked.sessions.contains_key(session_id.value));
        assert(acked.sessions[session_id.value].session.pending == session.pending.remove(id));
        let rest = before.pending.remove(session_id.value);
        if exists|other: u64| other != session_id.value && before.pending.contains(other) {
            let other = choose|other: u64|
                other != session_id.value && before.pending.contains(other);
            assert(rest.contains(other));
            assert(!rest.is_empty());
        } else {
            assert(rest =~= Set::empty());
            assert(rest.is_empty());
        }
    }
}

/// A retirement that begins asks every session that may access the segment, and no other, whether it
/// is there or not; a session that is there has it pending. A retirement that has begun asks
/// nobody again.
pub proof fn law_retirements_ask_who_has_access<H>(
    state: ServerState<H>,
    segment_id: SegmentId,
    session_id: SessionId,
)
    requires
        state.table.segments.contains_key(segment_id.value),
        !state.table.segments[segment_id.value].retiring,
    ensures
        ({
            let id = segment_id.value;
            let before = state.table.segments[id];
            let after = state.with_retirement(segment_id);
            &&& after.table == (SegmentTable {
                segments: state.table.segments.insert(
                    id,
                    SegmentState { retiring: true, pending: before.authorized, ..before },
                ),
                ..state.table
            })
            &&& after.sessions.contains_key(session_id.value) == state.sessions.contains_key(
                session_id.value,
            )
            &&& state.sessions.contains_key(session_id.value) ==> {
                let entry = state.sessions[session_id.value];
                after.sessions[session_id.value] == (EntryState {
                    session: SessionState {
                        pending: if before.authorized.contains(session_id.value) {
                            entry.session.pending.insert(id)
                        } else {
                            entry.session.pending
                        },
                        ..entry.session
                    },
                    ..entry
                })
            }
            &&& after.ledger == state.ledger
            &&& keeps_ports(state, after)
            &&& after.with_retirement(segment_id).table == after.table
        }),
{
    let after = state.with_retirement(segment_id);
    assert(after.with_retirement(segment_id).table.segments =~= after.table.segments);
}

/// Whether a port has a segment in its list; gaps, marked by 255, are none.
pub open spec fn lists<H>(table: SegmentTable<H>, port: u128, id: u8) -> bool {
    &&& id != 255
    &&& table.port_segments.contains_key(port)
    &&& exists|i: int|
        0 <= i < table.port_segments[port].len() && (#[trigger] table.port_segments[port][i]).value
            == id
}

proof fn lemma_listed<H>(table: SegmentTable<H>, port: u128, id: u8)
    ensures
        table.registered_by(port, id) == lists(table, port, id),
{
    if lists(table, port, id) {
        let list = table.port_segments[port];
        let i = choose|i: int| 0 <= i < list.len() && (#[trigger] list[i]).value == id;
        assert(list[i] == (SegmentId { value: id }));
    }
    if table.registered_by(port, id) {
        let list = table.port_segments[port];
        let i = choose|i: int| 0 <= i < list.len() && list[i] == (SegmentId { value: id });
        assert(list[i].value == id);
    }
}

/// With a port goes what it has registered, and nothing else: the data segments of its list, its
/// list, its management segment, and every channel that begins or ends at it.
pub proof fn law_ports_are_reaped<H>(
    table: SegmentTable<H>,
    port: u128,
    id: u8,
    other: u128,
    pair: (u128, u128),
)
    ensures
        ({
            let after = table.without_port(port);
            &&& after.segments.contains_key(id) <==> table.segments.contains_key(id) && !lists(
                table,
                port,
                id,
            )
            &&& after.segments.contains_key(id) ==> after.segments[id] == table.segments[id]
            &&& after.port_segments.contains_key(other) <==> table.port_segments.contains_key(
                other,
            ) && other != port
            &&& after.port_segments.contains_key(other) ==> after.port_segments[other]
                == table.port_segments[other]
            &&& after.mgmt_segments.contains_key(other) <==> table.mgmt_segments.contains_key(
                other,
            ) && other != port
            &&& after.mgmt_segments.contains_key(other) ==> after.mgmt_segments[other]
                == table.mgmt_segments[other]
            &&& after.channels.contains_key(pair) <==> table.channels.contains_key(pair) && pair.0
                != port && pair.1 != port
            &&& after.channels.contains_key(pair) ==> after.channels[pair] == table.channels[pair]
            &&& after.next_id == table.next_id
        }),
{
    lemma_listed(table, port, id);
}

/// Removing what a port has of one kind leaves the other kinds: its data segments, the channels that
/// begin at it, those that end at it, and its management segment.
pub proof fn law_kinds_are_reaped_apart<H>(
    table: SegmentTable<H>,
    port: u128,
    id: u8,
    pair: (u128, u128),
)
    ensures
        ({
            let after = table.without_port_segments(port);
            &&& after.segments.contains_key(id) <==> table.segments.contains_key(id) && !lists(
                table,
                port,
                id,
            )
            &&& after.segments.contains_key(id) ==> after.segments[id] == table.segments[id]
            &&& after == (SegmentTable {
                segments: after.segments,
                port_segments: table.port_segments.remove(port),
                ..table
            })
        }),
        ({
            let after = table.without_sender(port);
            &&& after.channels.contains_key(pair) <==> table.channels.contains_key(pair) && pair.0
                != port
            &&& after.channels.contains_key(pair) ==> after.channels[pair] == table.channels[pair]
            &&& after == (SegmentTable { channels: after.channels, ..table })
        }),
        ({
            let after = table.without_receiver(port);
            &&& after.channels.contains_key(pair) <==> table.channels.contains_key(pair) && pair.1
                != port
            &&& after.channels.contains_key(pair) ==> after.channels[pair] == table.channels[pair]
            &&& after == (SegmentTable { channels: after.channels, ..table })
        }),
        table.without_mgmt(port) == (SegmentTable {
            mgmt_segments: table.mgmt_segments.remove(port),
            ..table
        }),
{
    lemma_listed(table, port, id);
}

/// A segment that is removed leaves its identifier and its place in every list, where what came
/// after it moves up; all else stays.
pub proof fn law_segments_are_removed<H>(
    table: SegmentTable<H>,
    id: SegmentId,
    port: u128,
    other: SegmentId,
)
    ensures
        ({
            let after = table.without_segment(id);
            &&& after.segments == table.segments.remove(id.value)
            &&& after.port_segments.contains_key(port) == table.port_segments.contains_key(port)
            &&& table.port_segments.contains_key(port) ==> (after.port_segments[port].contains(
                other,
            ) <==> table.port_segments[port].contains(other) && other.value != id.value)
            &&& after.channels == table.channels
            &&& after.mgmt_segments == table.mgmt_segments
            &&& after.next_id == table.next_id
        }),
{
    if table.port_segments.contains_key(port) {
        let list = table.port_segments[port];
        let keep = |other: SegmentId| other.value != id.value;
        let kept = list.filter(keep);
        assert(table.without_segment(id).port_segments[port] == kept);
        if kept.contains(other) {
            let i = choose|i: int| 0 <= i < kept.len() && kept[i] == other;
            list.lemma_filter_pred(keep, i);
            list.lemma_filter_contains_rev(keep, other);
        }
        if list.contains(other) && other.value != id.value {
            let i = choose|i: int| 0 <= i < list.len() && list[i] == other;
            list.lemma_filter_contains(keep, i);
        }
    }
}

/// A session that gives up a port of its own has one port less, the counter of which type goes down
/// by one; the port is a producer or a consumer no more, what it had registered is gone, and
/// nothing of other ports is. `i` is where the port stands among the session's ports.
pub proof fn law_ports_are_given_up<H>(
    state: ServerState<H>,
    session_id: SessionId,
    service_id: ServiceId,
    port_id: u128,
    verdict: Verdict,
    limits: ResourceLimits,
    bounds: QosBounds,
    copies: Seq<Option<H>>,
    i: int,
)
    requires
        request_laws::is_open(state, session_id),
        0 <= i < state.sessions[session_id.value].session.ports.len(),
        state.sessions[session_id.value].session.ports[i].port_id == port_id,
        forall|j: int|
            0 <= j < i ==> (#[trigger] state.sessions[session_id.value].session.ports[j]).port_id
                != port_id,
    ensures
        ({
            let effect = state.dispatched_request(
                session_id,
                IamRequest::Detach { service_id, port_id },
                verdict,
                limits,
                bounds,
                copies,
            );
            let before = state.sessions[session_id.value].session;
            let after = effect.state.sessions[session_id.value].session;
            let kind = before.ports[i].port_type;
            let less = |count: usize, here: bool|
                if here && count > 0 {
                    count - 1
                } else {
                    count as int
                };
            &&& request_laws::audits(effect, AuditEventKind::Detach { port_id }, before.credentials)
            &&& effect.reply == (ReplyState::<H>::Answer {
                answer: Answer::DetachOk,
                handles: Seq::empty(),
            })
            &&& after.ports == before.ports.remove(i)
            &&& after.usage.publisher_count == less(
                before.usage.publisher_count,
                kind is Publisher,
            )
            &&& after.usage.subscriber_count == less(
                before.usage.subscriber_count,
                kind is Subscriber,
            )
            &&& after.usage.server_count == less(before.usage.server_count, kind is Server)
            &&& after.usage.client_count == less(before.usage.client_count, kind is Client)
            &&& effect.state.table == state.table.without_port(port_id)
            &&& effect.state.port_counter == state.port_counter
            &&& effect.state.producers == (if kind is Publisher || kind is Server {
                state.producers.remove(port_id)
            } else {
                state.producers
            })
            &&& kind is Publisher || kind is Server ==> effect.state.consumers == state.consumers
            &&& kind is Subscriber || kind is Client ==> effect.state.consumers
                == state.consumers.filter(
                |consumer: ConsumerState|
                    consumer.session_id != session_id || consumer.port_id != port_id,
            )
        }),
{
    let before = state.sessions[session_id.value].session;
    assert(session::attached(before.ports, port_id));
    session::lemma_position(before.ports, port_id);
    let p = session::position(before.ports, port_id);
    assert(p == i) by {
        if p < i {
            assert(before.ports[p].port_id != port_id);
        }
    }
    let without = state.without_port(session_id, port_id);
    ledger::lemma_settling_keeps(without.sessions, without.ledger, without.table, None);
    assert(without.sessions.contains_key(session_id.value));
    let mine = |consumer: ConsumerState|
        !(consumer.session_id == session_id && consumer.port_id == port_id);
    let same = |consumer: ConsumerState|
        consumer.session_id != session_id || consumer.port_id != port_id;
    assert(mine =~= same);
}

/// A session that gives up a port that is not its own keeps its ports and their counters, and every
/// port stays a producer or consumer of its service; it is answered and audited all the same, and
/// what was registered for that port is gone.
pub proof fn law_foreign_ports_stay<H>(
    state: ServerState<H>,
    session_id: SessionId,
    service_id: ServiceId,
    port_id: u128,
    verdict: Verdict,
    limits: ResourceLimits,
    bounds: QosBounds,
    copies: Seq<Option<H>>,
)
    requires
        request_laws::is_open(state, session_id),
        forall|j: int|
            0 <= j < state.sessions[session_id.value].session.ports.len() ==> (
            #[trigger] state.sessions[session_id.value].session.ports[j]).port_id != port_id,
    ensures
        ({
            let effect = state.dispatched_request(
                session_id,
                IamRequest::Detach { service_id, port_id },
                verdict,
                limits,
                bounds,
                copies,
            );
            let before = state.sessions[session_id.value].session;
            let after = effect.state.sessions[session_id.value].session;
            &&& request_laws::audits(effect, AuditEventKind::Detach { port_id }, before.credentials)
            &&& effect.reply == (ReplyState::<H>::Answer {
                answer: Answer::DetachOk,
                handles: Seq::empty(),
            })
            &&& after.ports == before.ports
            &&& after.usage.publisher_count == before.usage.publisher_count
            &&& after.usage.subscriber_count == before.usage.subscriber_count
            &&& after.usage.server_count == before.usage.server_count
            &&& after.usage.client_count == before.usage.client_count
            &&& effect.state.table == state.table.without_port(port_id)
            &&& keeps_ports(state, effect.state)
        }),
{
    let before = state.sessions[session_id.value].session;
    assert(!session::attached(before.ports, port_id));
    let without = state.without_port(session_id, port_id);
    ledger::lemma_settling_keeps(without.sessions, without.ledger, without.table, None);
    assert(without.sessions.contains_key(session_id.value));
}

/// Whether a port is among some ports.
pub open spec fn among(ports: Seq<PortInfo>, port_id: u128) -> bool {
    exists|i: int| 0 <= i < ports.len() && (#[trigger] ports[i]).port_id == port_id
}

proof fn lemma_among_front(ports: Seq<PortInfo>, port_id: u128)
    requires
        ports.len() > 0,
    ensures
        among(ports, port_id) <==> among(ports.drop_last(), port_id) || ports.last().port_id
            == port_id,
{
    let front = ports.drop_last();
    if among(front, port_id) {
        let i = choose|i: int| 0 <= i < front.len() && (#[trigger] front[i]).port_id == port_id;
        assert(ports[i].port_id == port_id);
    }
    if ports.last().port_id == port_id {
        assert(ports[ports.len() - 1].port_id == port_id);
    }
    if among(ports, port_id) {
        let i = choose|i: int| 0 <= i < ports.len() && (#[trigger] ports[i]).port_id == port_id;
        if i < front.len() {
            assert(front[i].port_id == port_id);
        }
    }
}

proof fn lemma_reaping_several<H>(
    table: SegmentTable<H>,
    ports: Seq<PortInfo>,
    id: u8,
    other: u128,
    pair: (u128, u128),
)
    ensures
        ({
            let after = server_state::table_without_ports(table, ports);
            let reaped = exists|i: int|
                0 <= i < ports.len() && lists(table, (#[trigger] ports[i]).port_id, id);
            &&& after.segments.contains_key(id) <==> table.segments.contains_key(id) && !reaped
            &&& after.segments.contains_key(id) ==> after.segments[id] == table.segments[id]
            &&& after.port_segments.contains_key(other) <==> table.port_segments.contains_key(
                other,
            ) && !among(ports, other)
            &&& after.port_segments.contains_key(other) ==> after.port_segments[other]
                == table.port_segments[other]
            &&& after.mgmt_segments.contains_key(other) <==> table.mgmt_segments.contains_key(
                other,
            ) && !among(ports, other)
            &&& after.mgmt_segments.contains_key(other) ==> after.mgmt_segments[other]
                == table.mgmt_segments[other]
            &&& after.channels.contains_key(pair) <==> table.channels.contains_key(pair) && !among(
                ports,
                pair.0,
            ) && !among(ports, pair.1)
            &&& after.channels.contains_key(pair) ==> after.channels[pair] == table.channels[pair]
            &&& after.next_id == table.next_id
        }),
    decreases ports.len(),
{
    if ports.len() > 0 {
        let front = ports.drop_last();
        let last = ports.last().port_id;
        let middle = server_state::table_without_ports(table, front);
        lemma_reaping_several(table, front, id, other, pair);
        lemma_reaping_several(table, front, id, last, pair);
        law_ports_are_reaped(middle, last, id, other, pair);
        lemma_among_front(ports, other);
        lemma_among_front(ports, pair.0);
        lemma_among_front(ports, pair.1);
        let reaped = exists|i: int|
            0 <= i < ports.len() && lists(table, (#[trigger] ports[i]).port_id, id);
        let reaped_front = exists|i: int|
            0 <= i < front.len() && lists(table, (#[trigger] front[i]).port_id, id);
        if reaped_front {
            let i = choose|i: int|
                0 <= i < front.len() && lists(table, (#[trigger] front[i]).port_id, id);
            assert(ports[i] == front[i]);
        }
        if lists(table, last, id) {
            assert(lists(table, ports[ports.len() - 1].port_id, id));
        }
        if reaped {
            let i = choose|i: int|
                0 <= i < ports.len() && lists(table, (#[trigger] ports[i]).port_id, id);
            if i < front.len() {
                assert(front[i] == ports[i]);
            }
        }
        assert(reaped <==> reaped_front || lists(table, last, id));
        if !among(front, last) {
            assert(lists(middle, last, id) == lists(table, last, id)) by {
                if table.port_segments.contains_key(last) {
                    assert(middle.port_segments[last] == table.port_segments[last]);
                }
            }
        } else if lists(table, last, id) {
            let i = choose|i: int| 0 <= i < front.len() && (#[trigger] front[i]).port_id == last;
            assert(lists(table, front[i].port_id, id));
        }
    }
}

/// When a session leaves, its ports are reaped, its consumers and producers go, and so does its
/// access to every segment; what belongs to other ports and sessions stays.
pub proof fn law_leaving_takes_only_the_own<H>(
    state: ServerState<H>,
    session_id: SessionId,
    id: u8,
    other: u128,
    pair: (u128, u128),
    key: u64,
)
    requires
        state.sessions.contains_key(session_id.value),
    ensures
        ({
            let ports = state.sessions[session_id.value].session.ports;
            let after = state.removed(session_id);
            let reaped = exists|i: int|
                0 <= i < ports.len() && lists(state.table, (#[trigger] ports[i]).port_id, id);
            let produced = exists|i: int|
                0 <= i < ports.len() && (#[trigger] ports[i]).port_id == other && (
                ports[i].port_type is Publisher || ports[i].port_type is Server);
            &&& after.sessions.contains_key(key) <==> state.sessions.contains_key(key) && key
                != session_id.value
            &&& after.sessions.contains_key(key) ==> after.sessions[key].session.ports
                == state.sessions[key].session.ports && after.sessions[key].handshake_complete
                == state.sessions[key].handshake_complete
            &&& after.table.segments.contains_key(id) <==> state.table.segments.contains_key(id)
                && !reaped
            &&& after.table.segments.contains_key(id) ==> after.table.segments[id] == (
            SegmentState {
                authorized: state.table.segments[id].authorized.remove(session_id.value),
                pending: state.table.segments[id].pending.remove(session_id.value),
                ..state.table.segments[id]
            })
            &&& after.table.port_segments.contains_key(other)
                <==> state.table.port_segments.contains_key(other) && !among(ports, other)
            &&& after.table.mgmt_segments.contains_key(other)
                <==> state.table.mgmt_segments.contains_key(other) && !among(ports, other)
            &&& after.table.mgmt_segments.contains_key(other) ==> after.table.mgmt_segments[other]
                == state.table.mgmt_segments[other]
            &&& after.table.channels.contains_key(pair) <==> state.table.channels.contains_key(pair)
                && !among(ports, pair.0) && !among(ports, pair.1)
            &&& after.table.channels.contains_key(pair) ==> after.table.channels[pair]
                == state.table.channels[pair]
            &&& after.producers.contains_key(other) <==> state.producers.contains_key(other)
                && !produced
            &&& after.producers.contains_key(other) ==> after.producers[other]
                == state.producers[other]
            &&& after.consumers == state.consumers.filter(
                |consumer: ConsumerState| consumer.session_id != session_id,
            )
            &&& after.port_counter == state.port_counter
        }),
{
    let ports = state.sessions[session_id.value].session.ports;
    let without = state.without_session(session_id);
    lemma_reaping_several(state.table, ports, id, other, pair);
    lemma_producers_left(state.producers, ports, other);
    ledger::lemma_settling_keeps(without.sessions, without.ledger, without.table, None);
    let after = state.removed(session_id);
    assert(after.sessions.dom().contains(key) == without.sessions.dom().contains(key));
}

proof fn lemma_producers_left(producers: Map<u128, Seq<char>>, ports: Seq<PortInfo>, other: u128)
    ensures
        ({
            let after = server_state::producers_without_ports(producers, ports);
            let produced = exists|i: int|
                0 <= i < ports.len() && (#[trigger] ports[i]).port_id == other && (
                ports[i].port_type is Publisher || ports[i].port_type is Server);
            &&& after.contains_key(other) <==> producers.contains_key(other) && !produced
            &&& after.contains_key(other) ==> after[other] == producers[other]
        }),
    decreases ports.len(),
{
    if ports.len() > 0 {
        let front = ports.drop_last();
        lemma_producers_left(producers, front, other);
        let last = ports.last();
        let is_last = last.port_id == other && (last.port_type is Publisher || last.port_type
            is Server);
        if exists|i: int|
            0 <= i < front.len() && (#[trigger] front[i]).port_id == other && (
            front[i].port_type is Publisher || front[i].port_type is Server) {
            let i = choose|i: int|
                0 <= i < front.len() && (#[trigger] front[i]).port_id == other && (
                front[i].port_type is Publisher || front[i].port_type is Server);
            assert(ports[i] == front[i]);
        }
        if is_last {
            assert(ports[ports.len() - 1].port_id == other);
        }
        if exists|i: int|
            0 <= i < ports.len() && (#[trigger] ports[i]).port_id == other && (
            ports[i].port_type is Publisher || ports[i].port_type is Server) {
            let i = choose|i: int|
                0 <= i < ports.len() && (#[trigger] ports[i]).port_id == other && (
                ports[i].port_type is Publisher || ports[i].port_type is Server);
            if i < front.len() {
                assert(front[i] == ports[i]);
            }
        }
    }
}

/// A client that connects has a session that waits for hello, with no ports, no segments and nothing
/// to count; other sessions, and all else, stay as they were.
pub proof fn law_sessions_begin_empty<H>(
    state: ServerState<H>,
    id: SessionId,
    credentials: crate::types::ProcessCredentials,
    now: u64,
    other: u64,
)
    ensures
        ({
            let after = state.with_new_session(SessionState::fresh(id, credentials, now));
            let new = after.sessions[id.value];
            &&& after.sessions.contains_key(id.value)
            &&& !new.handshake_complete
            &&& new.session.id == id
            &&& new.session.credentials == credentials
            &&& new.session.authenticated_at == now
            &&& new.session.ports.len() == 0
            &&& new.session.granted == Set::<u8>::empty()
            &&& new.session.pending == Set::<u8>::empty()
            &&& new.session.usage.publisher_count == 0
            &&& new.session.usage.subscriber_count == 0
            &&& new.session.usage.server_count == 0
            &&& new.session.usage.client_count == 0
            &&& new.session.usage.segment_count == 0
            &&& new.session.usage.total_memory == 0
            &&& other != id.value ==> after.sessions.contains_key(other)
                == state.sessions.contains_key(other)
            &&& other != id.value && state.sessions.contains_key(other) ==> after.sessions[other]
                == state.sessions[other]
            &&& after.table == state.table
            &&& after.ledger == state.ledger
            &&& keeps_ports(state, after)
        }),
{
}

/// A server that nobody has connected to knows no session, no segment, no port and no charge.
pub proof fn law_servers_begin_empty<H>(key: u64, id: u8, port: u128, pair: (u128, u128))
    ensures
        ({
            let state = ServerState::<H>::empty();
            &&& !state.sessions.contains_key(key)
            &&& !state.table.segments.contains_key(id)
            &&& !state.table.port_segments.contains_key(port)
            &&& !state.table.channels.contains_key(pair)
            &&& !state.table.mgmt_segments.contains_key(port)
            &&& state.table.next_id == 0
            &&& !state.producers.contains_key(port)
            &&& state.consumers.len() == 0
            &&& state.ledger.len() == 0
            &&& state.port_counter == 0
        }),
{
}

/// A segment that is registered from outside gets the free identifier that is reached first, unless
/// it is of no size or no identifier is free; access to a segment is given if it is there, is not
/// being retired, and its handle could be duplicated.
pub proof fn law_outside_segments_are_brokered<H>(
    table: SegmentTable<H>,
    size: usize,
    result: Result<SegmentId, IamServerError>,
    id: u8,
    duplicate: Option<H>,
)
    requires
        segment_manager::registration(table, size, result),
    ensures
        match result {
            Ok(given) => {
                &&& size > 0
                &&& 1 <= given.value <= 254
                &&& !table.segments.contains_key(given.value)
                &&& 1 <= id <= 254 && !table.segments.contains_key(id) ==> request_laws::steps_up(
                    table.next_id,
                    given.value,
                ) <= request_laws::steps_up(table.next_id, id)
            },
            Err(error) => {
                &&& size == 0 ==> error == IamServerError::InvalidSegmentSize
                &&& size > 0 ==> error == IamServerError::ResourceLimitExceeded && (1 <= id <= 254
                    ==> table.segments.contains_key(id))
            },
        },
        ({
            let access = segment_manager::authorization(table.grantable(id), duplicate);
            if !table.segments.contains_key(id) || table.segments[id].retiring {
                access == Err::<H, _>(IamServerError::SegmentNotFound)
            } else if duplicate is None {
                access == Err::<H, _>(IamServerError::HandlePassingFailed)
            } else {
                access == Ok::<H, IamServerError>(duplicate->0)
            }
        }),
{
    if result is Ok && 1 <= id <= 254 && !table.segments.contains_key(id) {
        assert(table.usable(id));
    }
    if size > 0 && result is Err && 1 <= id <= 254 && !table.segments.contains_key(id) {
        assert(table.usable(id));
    }
}

/// A session that is given access to a segment may access it from now on, and one whose access is
/// taken may not, and need not acknowledge anything; no other session, segment or property changes.
pub proof fn law_access_is_by_session<H>(
    segment: SegmentState<H>,
    table: SegmentTable<H>,
    id: SegmentId,
    handle: H,
    size: usize,
    access: AccessRights,
    session: u64,
    other: u8,
)
    ensures
        segment.with_session(session) == (SegmentState {
            authorized: segment.authorized.insert(session),
            ..segment
        }),
        segment.without_session(session) == (SegmentState {
            authorized: segment.authorized.remove(session),
            pending: segment.pending.remove(session),
            ..segment
        }),
        table.with_session(other, session) == (SegmentTable {
            segments: table.segments.insert(other, opened_to(table, other, session)),
            ..table
        }),
        table.with_segment(id, handle, size, access) == (SegmentTable {
            segments: table.segments.insert(
                id.value,
                SegmentState {
                    id,
                    handle,
                    size,
                    access,
                    authorized: Set::empty(),
                    retiring: false,
                    pending: Set::empty(),
                },
            ),
            ..table
        }),
        table.segments.contains_key(other) ==> table.without_session(session).segments.contains_key(
            other,
        ) && table.without_session(session).segments[other] == (SegmentState {
            authorized: table.segments[other].authorized.remove(session),
            pending: table.segments[other].pending.remove(session),
            ..table.segments[other]
        }),
        !table.segments.contains_key(other) ==> !table.without_session(
            session,
        ).segments.contains_key(other),
        segment_manager::authorized_for(table, SegmentId { value: other }, SessionId { value: session })
            <==> table.segments.contains_key(other) && table.segments[other].authorized.contains(
            session,
        ),
        segment.info() == (SegmentInfo {
            segment_id: segment.id,
            size: segment.size,
            access: segment.access,
        }),
{
}

/// A segment of a table once a session may access it.
pub open spec fn opened_to<H>(
    table: SegmentTable<H>,
    id: u8,
    session: u64,
) -> SegmentState<H> {
    let segment = table.segments[id];
    SegmentState {
        id: segment.id,
        handle: segment.handle,
        size: segment.size,
        access: segment.access,
        authorized: segment.authorized.insert(session),
        retiring: segment.retiring,
        pending: segment.pending,
    }
}

} // verus!
