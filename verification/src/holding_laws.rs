//! Laws of double counting: nothing counts twice for a session, whether it brought it, was granted
//! it, or both.

use vstd::prelude::*;
use crate::accounting_laws;
use crate::error::IamServerError;
use crate::ledger;
use crate::ledger::{Charge, Holding};
use crate::policy::{QosBounds, ResourceLimits, Verdict};
use crate::protocol::{Answer, IamRequest, SessionId};
use crate::segment_manager::SegmentTable;
use crate::server_laws;
use crate::server_state;
use crate::server_state::{HandleOrder, Registration, ReplyState, SegmentOrder, ServerState};
use crate::session::SessionState;
use crate::types::SegmentId;

verus! {

/// Whether no session is charged twice for one thing.
pub open spec fn charged_once(charges: Seq<Charge>) -> bool {
    forall|i: int, j: int|
        #![trigger charges[i], charges[j]]
        0 <= i < j < charges.len() ==> !(charges[i].session_id == charges[j].session_id
            && charges[i].holding == charges[j].holding)
}

/// What counts for a session.
pub open spec fn holdings_of(charges: Seq<Charge>, key: u64) -> Set<Holding> {
    Set::new(|holding: Holding| ledger::is_charged(charges, SessionId { value: key }, holding))
}

proof fn lemma_new_charge_keeps_once(charges: Seq<Charge>, charge: Charge)
    requires
        charged_once(charges),
        !ledger::is_charged(charges, charge.session_id, charge.holding),
    ensures
        charged_once(charges.push(charge)),
{
    let more = charges.push(charge);
    assert forall|i: int, j: int|
        #![trigger more[i], more[j]]
        0 <= i < j < more.len() implies !(more[i].session_id == more[j].session_id
        && more[i].holding == more[j].holding) by {
        assert(more[i] == charges[i]);
        if j < charges.len() {
            assert(more[j] == charges[j]);
        }
    }
}

proof fn lemma_fewer_charges_keep_once(charges: Seq<Charge>, keep: spec_fn(Charge) -> bool)
    requires
        charged_once(charges),
    ensures
        charged_once(charges.filter(keep)),
    decreases charges.len(),
{
    reveal(Seq::filter);
    if charges.len() > 0 {
        let front = charges.drop_last();
        let last = charges.last();
        assert forall|i: int, j: int|
            #![trigger front[i], front[j]]
            0 <= i < j < front.len() implies !(front[i].session_id == front[j].session_id
            && front[i].holding == front[j].holding) by {
            assert(front[i] == charges[i]);
            assert(front[j] == charges[j]);
        }
        lemma_fewer_charges_keep_once(front, keep);
        let kept = front.filter(keep);
        if keep(last) {
            if ledger::is_charged(kept, last.session_id, last.holding) {
                let i = choose|i: int|
                    0 <= i < kept.len() && (#[trigger] kept[i]).session_id == last.session_id
                        && kept[i].holding == last.holding;
                assert(kept.contains(kept[i]));
                front.lemma_filter_contains_rev(keep, kept[i]);
                let j = choose|j: int| 0 <= j < front.len() && front[j] == kept[i];
                assert(charges[j] == front[j]);
                assert(charges[charges.len() - 1] == last);
                assert(false);
            }
            lemma_new_charge_keeps_once(kept, last);
        }
    }
}

proof fn lemma_settling_keeps_once<H>(state: ServerState<H>, replaced: Option<Holding>)
    requires
        charged_once(state.ledger),
    ensures
        charged_once(state.settled(replaced).ledger),
{
    lemma_fewer_charges_keep_once(
        state.ledger,
        |charge: Charge| charge.lasts(state.table, replaced),
    );
}

proof fn lemma_filing_keeps_once<H>(
    state: ServerState<H>,
    session_id: SessionId,
    holding: Holding,
    size: usize,
)
    requires
        charged_once(state.ledger),
    ensures
        charged_once(state.settled(Some(holding)).with_charge(session_id, holding, size).ledger),
{
    let settled = state.settled(Some(holding));
    lemma_settling_keeps_once(state, Some(holding));
    ledger::lemma_settled_ledger_lasts(state.ledger, state.table, Some(holding));
    lemma_new_charge_keeps_once(settled.ledger, Charge { session_id, holding, size });
}

/// A segment that is granted to a session is granted from then on, and counts for it once: it adds
/// its size to what the session counts only where it did not count before. To grant it again
/// changes nothing.
pub proof fn law_granting_counts_once<H>(
    state: ServerState<H>,
    session_id: SessionId,
    segment_id: SegmentId,
)
    requires
        state.sessions.contains_key(session_id.value),
    ensures
        ({
            let holding = Holding::Segment { segment_id };
            let before = state.sessions[session_id.value].session;
            let after = state.with_grant(session_id, segment_id);
            let now = after.sessions[session_id.value].session;
            &&& now.granted == before.granted.insert(segment_id.value)
            &&& if ledger::is_charged(state.ledger, session_id, holding) {
                now.usage == before.usage && after.ledger == state.ledger
            } else {
                let size = state.table.segments[segment_id.value].size;
                &&& now.usage == before.usage.with_segment(size)
                &&& after.ledger == state.ledger.push(Charge { session_id, holding, size })
            }
            &&& ledger::is_charged(after.ledger, session_id, holding)
            &&& after.with_grant(session_id, segment_id) == after
        }),
{
    let holding = Holding::Segment { segment_id };
    let size = state.table.segments[segment_id.value].size;
    ledger::lemma_charged_with(
        state.ledger,
        Charge { session_id, holding, size },
        session_id,
        holding,
    );
    let after = state.with_grant(session_id, segment_id);
    let now = after.sessions[session_id.value].session;
    assert(now.granted.insert(segment_id.value) =~= now.granted);
    assert(after.with_grant(session_id, segment_id).sessions =~= after.sessions);
}

/// A server that nobody has connected to charges nobody twice, and neither does one that a session
/// joins, or that begins a retirement.
pub proof fn law_nothing_counts_twice_at_first<H>(
    state: ServerState<H>,
    new: SessionState,
    segment_id: SegmentId,
)
    requires
        charged_once(state.ledger),
    ensures
        charged_once(ServerState::<H>::empty().ledger),
        charged_once(state.with_new_session(new).ledger),
        charged_once(state.with_retirement(segment_id).ledger),
{
}

/// No request makes anything count twice for a session, whatever the policy says to it.
pub proof fn law_requests_count_nothing_twice<H>(
    state: ServerState<H>,
    session_id: SessionId,
    request: IamRequest,
    verdict: Verdict,
    limits: ResourceLimits,
    bounds: QosBounds,
    copies: Seq<Option<H>>,
)
    requires
        charged_once(state.ledger),
    ensures
        charged_once(
            state.dispatched_request(
                session_id,
                request,
                verdict,
                limits,
                bounds,
                copies,
            ).state.ledger,
        ),
{
    let after = state.dispatched_request(
        session_id,
        request,
        verdict,
        limits,
        bounds,
        copies,
    ).state;
    if state.sessions.contains_key(session_id.value) {
        match request {
            IamRequest::Detach { port_id, .. } => {
                lemma_settling_keeps_once(state.without_port(session_id, port_id), None);
            },
            IamRequest::AckSegmentRetirement { segment_id, .. } => {
                lemma_fewer_charges_keep_once(
                    state.ledger,
                    |charge: Charge| charge.lasts(after.table, None),
                );
            },
            IamRequest::RequestSegmentHandle { .. } => {
                lemma_granting_keeps_once(
                    state,
                    session_id,
                    SegmentId { value: server_laws::asked_id(state, request) },
                );
            },
            IamRequest::RequestDynamicSegmentHandle { .. } => {
                lemma_granting_keeps_once(
                    state,
                    session_id,
                    SegmentId { value: server_laws::asked_id(state, request) },
                );
            },
            _ => {
                assert(after.ledger == state.ledger);
            },
        }
    }
}

proof fn lemma_granting_keeps_once<H>(
    state: ServerState<H>,
    session_id: SessionId,
    segment_id: SegmentId,
)
    requires
        charged_once(state.ledger),
    ensures
        charged_once(
            ServerState {
                table: state.table.with_session(segment_id.value, session_id.value),
                ..state
            }.with_grant(session_id, segment_id).ledger,
        ),
{
    let holding = Holding::Segment { segment_id };
    let shared = state.table.with_session(segment_id.value, session_id.value);
    if !ledger::is_charged(state.ledger, session_id, holding) {
        lemma_new_charge_keeps_once(
            state.ledger,
            Charge { session_id, holding, size: shared.segments[segment_id.value].size },
        );
    }
}

/// Neither a segment that is created nor handles that are received make anything count twice.
pub proof fn law_completions_count_nothing_twice<H>(
    state: ServerState<H>,
    segment_order: SegmentOrder,
    created: Result<(H, usize), IamServerError>,
    kept: Option<H>,
    handle_order: HandleOrder,
    handles: Seq<H>,
)
    requires
        charged_once(state.ledger),
    ensures
        charged_once(state.segment_created(segment_order, created, kept).state.ledger),
        charged_once(state.handles_received(handle_order, handles).state.ledger),
{
    if created is Ok && kept is Some && (created->Ok_0).1 > 0 {
        lemma_filing_keeps_once(
            ServerState {
                table: state.segment_created(segment_order, created, kept).state.table,
                ..state
            },
            segment_order.session_id,
            Holding::Segment { segment_id: segment_order.segment_id },
            (created->Ok_0).1,
        );
    }
    if handles.len() > 0 {
        if let Ok((table, holding, _)) = state.filed(handle_order.registration, handles[0]) {
            lemma_filing_keeps_once(
                ServerState { table, ..state },
                handle_order.session_id,
                holding,
                handle_order.registration.size(),
            );
        }
    }
}

/// Neither do consumers that are told of a new segment, access that is given to a session, nor a
/// session that leaves.
pub proof fn law_brokering_counts_nothing_twice<H>(
    state: ServerState<H>,
    segment_id: SegmentId,
    consumers: Seq<(SessionId, u128)>,
    copies: Seq<(Option<H>, Option<H>)>,
    n: int,
    session_id: SessionId,
)
    requires
        charged_once(state.ledger),
    ensures
        charged_once(
            server_state::after_broadcast(state, segment_id, consumers, copies, n).ledger,
        ),
        charged_once(
            ServerState {
                table: state.table.with_session(segment_id.value, session_id.value),
                ..state
            }.with_grant(session_id, segment_id).ledger,
        ),
        charged_once(state.removed(session_id).ledger),
    decreases n,
{
    lemma_granting_keeps_once(state, session_id, segment_id);
    lemma_fewer_charges_keep_once(
        state.ledger,
        |charge: Charge| charge.session_id != session_id,
    );
    lemma_settling_keeps_once(state.without_session(session_id), None);
    if n > 0 {
        law_brokering_counts_nothing_twice(
            state,
            segment_id,
            consumers,
            copies,
            n - 1,
            session_id,
        );
        lemma_granting_keeps_once(
            server_state::after_broadcast(state, segment_id, consumers, copies, n - 1),
            consumers[n - 1].0,
            segment_id,
        );
    }
}

proof fn lemma_holdings_are_charges(charges: Seq<Charge>, key: u64)
    requires
        charged_once(charges),
    ensures
        holdings_of(charges, key).finite(),
        holdings_of(charges, key).len() == accounting_laws::charge_count(charges, key),
    decreases charges.len(),
{
    if charges.len() == 0 {
        assert(holdings_of(charges, key) =~= Set::empty());
    } else {
        let front = charges.drop_last();
        let last = charges.last();
        let before = holdings_of(front, key);
        assert(charges =~= front.push(last));
        assert forall|i: int, j: int|
            #![trigger front[i], front[j]]
            0 <= i < j < front.len() implies !(front[i].session_id == front[j].session_id
            && front[i].holding == front[j].holding) by {
            assert(front[i] == charges[i]);
            assert(front[j] == charges[j]);
        }
        lemma_holdings_are_charges(front, key);
        assert forall|holding: Holding| holdings_of(charges, key).contains(holding) == (
        before.contains(holding) || (last.session_id.value == key && last.holding == holding)) by {
            ledger::lemma_charged_with(front, last, SessionId { value: key }, holding);
        }
        if last.session_id.value == key {
            if before.contains(last.holding) {
                let i = choose|i: int|
                    0 <= i < front.len() && (#[trigger] front[i]).session_id == (SessionId {
                        value: key,
                    }) && front[i].holding == last.holding;
                assert(charges[i] == front[i]);
                assert(charges[charges.len() - 1] == last);
                assert(false);
            }
            assert(holdings_of(charges, key) =~= before.insert(last.holding));
        } else {
            assert(holdings_of(charges, key) =~= before);
        }
    }
}

/// A session counts as many segments as there are things that count for it.
pub proof fn law_usage_is_number_of_holdings<H>(state: ServerState<H>, key: u64)
    requires
        accounting_laws::balanced(state),
        charged_once(state.ledger),
        state.sessions.contains_key(key),
    ensures
        holdings_of(state.ledger, key).finite(),
        state.sessions[key].session.usage.segment_count == holdings_of(state.ledger, key).len(),
{
    lemma_holdings_are_charges(state.ledger, key);
}

proof fn lemma_broadcast_leaves_counted<H>(
    state: ServerState<H>,
    segment_id: SegmentId,
    consumers: Seq<(SessionId, u128)>,
    copies: Seq<(Option<H>, Option<H>)>,
    n: int,
    session_id: SessionId,
)
    requires
        state.sessions.contains_key(session_id.value),
        ledger::is_charged(state.ledger, session_id, Holding::Segment { segment_id }),
    ensures
        ({
            let after = server_state::after_broadcast(state, segment_id, consumers, copies, n);
            &&& after.sessions.contains_key(session_id.value)
            &&& after.sessions[session_id.value].session.usage
                == state.sessions[session_id.value].session.usage
            &&& ledger::is_charged(after.ledger, session_id, Holding::Segment { segment_id })
        }),
    decreases n,
{
    if n > 0 {
        lemma_broadcast_leaves_counted(state, segment_id, consumers, copies, n - 1, session_id);
        let rest = server_state::after_broadcast(state, segment_id, consumers, copies, n - 1);
        let holding = Holding::Segment { segment_id };
        let told = consumers[n - 1].0;
        let size = rest.table.segments[segment_id.value].size;
        ledger::lemma_charged_with(
            rest.ledger,
            Charge { session_id: told, holding, size },
            session_id,
            holding,
        );
        if told.value == session_id.value {
            assert(told == session_id);
        }
    }
}

proof fn lemma_new_segment_displaces_nothing<H>(
    state: ServerState<H>,
    table: SegmentTable<H>,
    holding: Holding,
)
    requires
        server_laws::nothing_owed(state),
        !holding.is_in(state.table),
        forall|other: Holding| #[trigger] other.is_in(state.table) ==> other.is_in(table),
    ensures
        ({
            let filed = ServerState { table, ..state };
            filed.settled(Some(holding)) == filed
        }),
{
    assert forall|i: int| 0 <= i < state.ledger.len() implies (#[trigger] state.ledger[i]).lasts(
        table,
        Some(holding),
    ) by {
        assert(state.ledger[i].lasts(state.table, None));
        assert(state.ledger[i].holding.is_in(state.table));
    }
    ledger::lemma_nothing_to_settle(state.sessions, state.ledger, table, Some(holding));
}

/// A segment that a session asks for and gets counts for it once, whatever consumers are told of
/// it, those of the session itself among them: after the whole turn it counts one segment more,
/// and the segment's size.
pub proof fn law_created_segment_counts_once<H>(
    state: ServerState<H>,
    limits: ResourceLimits,
    order: SegmentOrder,
    handle: H,
    size: usize,
    kept: H,
    consumers: Seq<(SessionId, u128)>,
    copies: Seq<(Option<H>, Option<H>)>,
    n: int,
)
    requires
        server_laws::nothing_owed(state),
        state.sessions.contains_key(order.session_id.value),
        size > 0,
        state.add_segment_within(
            order.session_id,
            order.port_id,
            order.requested_size,
            order.bucket_size,
            order.bucket_align,
            limits,
        ).reply == (ReplyState::<H>::CreateSegment { order }),
    ensures
        ({
            let ordered = state.add_segment_within(
                order.session_id,
                order.port_id,
                order.requested_size,
                order.bucket_size,
                order.bucket_align,
                limits,
            ).state;
            let created = ordered.segment_created(order, Ok((handle, size)), Some(kept)).state;
            let after = server_state::after_broadcast(
                created,
                order.segment_id,
                consumers,
                copies,
                n,
            );
            let before = state.sessions[order.session_id.value].session.usage;
            let usage = after.sessions[order.session_id.value].session.usage;
            &&& usage == before.with_segment(size)
            &&& usage.segment_count == before.segment_count + 1
        }),
{
    let ordered = state.add_segment_within(
        order.session_id,
        order.port_id,
        order.requested_size,
        order.bucket_size,
        order.bucket_align,
        limits,
    ).state;
    let holding = Holding::Segment { segment_id: order.segment_id };
    let created = ordered.segment_created(order, Ok((handle, size)), Some(kept)).state;
    assert(!ordered.table.segments.contains_key(order.segment_id.value));
    lemma_new_segment_displaces_nothing(ordered, created.table, holding);
    ledger::lemma_charged_with(
        ordered.ledger,
        Charge { session_id: order.session_id, holding, size },
        order.session_id,
        holding,
    );
    lemma_broadcast_leaves_counted(
        created,
        order.segment_id,
        consumers,
        copies,
        n,
        order.session_id,
    );
}

/// Whether something counts for a session already, by the very session and the very thing.
pub open spec fn counts_already<H>(
    state: ServerState<H>,
    session_id: SessionId,
    holding: Holding,
) -> bool {
    exists|i: int|
        0 <= i < state.ledger.len() && (#[trigger] state.ledger[i]).session_id == session_id
            && state.ledger[i].holding == holding
}

/// A segment that is granted to a session counts one segment more for it, in the size of the
/// segment, exactly if it does not count for this very session yet, whatever counts for others.
pub proof fn law_grants_count_by_session<H>(
    state: ServerState<H>,
    session_id: SessionId,
    segment_id: SegmentId,
    other: u64,
)
    requires
        state.sessions.contains_key(session_id.value),
        state.sessions[session_id.value].session.usage.segment_count < usize::MAX,
    ensures
        ({
            let before = state.sessions[session_id.value].session;
            let after = state.with_grant(session_id, segment_id);
            let now = after.sessions[session_id.value].session;
            let size = state.table.segments[segment_id.value].size;
            &&& now.granted.contains(segment_id.value)
            &&& if counts_already(state, session_id, Holding::Segment { segment_id }) {
                now.usage == before.usage
            } else {
                &&& now.usage.segment_count == before.usage.segment_count + 1
                &&& now.usage.total_memory == (if before.usage.total_memory + size <= usize::MAX {
                    before.usage.total_memory + size
                } else {
                    usize::MAX as int
                })
            }
            &&& other != session_id.value && state.sessions.contains_key(other)
                ==> after.sessions[other] == state.sessions[other]
            &&& after.table == state.table
        }),
{
}

/// What is registered counts one segment more for the session that registers it, in the size that it
/// states, under what it is: the data segment of the identifier that it got, the channel of the two
/// ports, or the management segment of the port.
pub proof fn law_registrations_count<H>(
    state: ServerState<H>,
    session_id: SessionId,
    registration: Registration,
    handles: Seq<H>,
)
    requires
        server_laws::nothing_owed(state),
        state.sessions.contains_key(session_id.value),
        state.sessions[session_id.value].session.usage.segment_count < usize::MAX,
        handles.len() > 0,
        state.handles_received(HandleOrder { session_id, registration }, handles).reply is Answer,
        match registration {
            Registration::Channel { sender_port_id, receiver_port_id, .. } => {
                !state.table.channels.contains_key((sender_port_id, receiver_port_id))
            },
            Registration::MgmtSegment { port_id, .. } => {
                !state.table.mgmt_segments.contains_key(port_id)
            },
            _ => true,
        },
    ensures
        ({
            let effect = state.handles_received(HandleOrder { session_id, registration }, handles);
            let before = state.sessions[session_id.value].session.usage;
            let usage = effect.state.sessions[session_id.value].session.usage;
            let size = match registration {
                Registration::Segment { segment_size, .. } => segment_size,
                Registration::DynamicSegment { segment_size, .. } => segment_size,
                Registration::Channel { channel_size, .. } => channel_size,
                Registration::MgmtSegment { mgmt_size, .. } => mgmt_size,
            };
            let charge = effect.state.ledger.last();
            &&& usage.segment_count == before.segment_count + 1
            &&& usage.total_memory == (if before.total_memory + size <= usize::MAX {
                before.total_memory + size
            } else {
                usize::MAX as int
            })
            &&& effect.state.ledger.len() == state.ledger.len() + 1
            &&& effect.state.ledger.drop_last() == state.ledger
            &&& charge.session_id == session_id
            &&& charge.size == size
            &&& match registration {
                Registration::Segment { .. } => {
                    &&& effect.reply matches ReplyState::Answer {
                        answer: Answer::RegisterSegmentOk { segment_id },
                        ..
                    }
                    &&& charge.holding == (Holding::Segment { segment_id })
                },
                Registration::DynamicSegment { port_id, segment_index, .. } => charge.holding == (
                Holding::Segment {
                    segment_id: effect.state.table.port_segments[port_id][segment_index as int],
                }),
                Registration::Channel { sender_port_id, receiver_port_id, .. } => charge.holding == (
                Holding::Channel { sender_port_id, receiver_port_id }),
                Registration::MgmtSegment { port_id, .. } => charge.holding == (
                Holding::MgmtSegment { port_id }),
            }
        }),
{
    let effect = state.handles_received(HandleOrder { session_id, registration }, handles);
    let (table, holding, answer) = state.filed(registration, handles[0])->Ok_0;
    if let Some(id) = state.table.next_free() {
        assert(state.table.is_next_free(id));
    }
    lemma_new_segment_displaces_nothing(state, table, holding);
    assert(effect.state.ledger.drop_last() =~= state.ledger);
}

/// Whether the server holds something: a data segment by its identifier, a channel by its two ports,
/// a management segment by its port.
pub open spec fn is_held<H>(table: SegmentTable<H>, holding: Holding) -> bool {
    match holding {
        Holding::Segment { segment_id } => table.segments.contains_key(segment_id.value),
        Holding::Channel { sender_port_id, receiver_port_id } => table.channels.contains_key(
            (sender_port_id, receiver_port_id),
        ),
        Holding::MgmtSegment { port_id } => table.mgmt_segments.contains_key(port_id),
    }
}

/// What the server holds no more, and what was replaced, counts no more, and everything else that
/// counted goes on to count.
pub proof fn law_only_what_is_held_counts<H>(
    state: ServerState<H>,
    replaced: Option<Holding>,
    charge: Charge,
)
    ensures
        state.settled(replaced).ledger.contains(charge) <==> state.ledger.contains(charge)
            && is_held(state.table, charge.holding) && replaced != Some(charge.holding),
        server_laws::nothing_owed(state) && state.ledger.contains(charge) ==> is_held(
            state.table,
            charge.holding,
        ),
        state.settled(replaced).table == state.table,
{
    let keep = |charge: Charge| charge.lasts(state.table, replaced);
    let rest = state.ledger.filter(keep);
    if rest.contains(charge) {
        let i = choose|i: int| 0 <= i < rest.len() && rest[i] == charge;
        state.ledger.lemma_filter_pred(keep, i);
        state.ledger.lemma_filter_contains_rev(keep, charge);
    }
    if state.ledger.contains(charge) {
        let i = choose|i: int| 0 <= i < state.ledger.len() && state.ledger[i] == charge;
        if charge.lasts(state.table, replaced) {
            state.ledger.lemma_filter_contains(keep, i);
        }
        if server_laws::nothing_owed(state) {
            assert(state.ledger[i].lasts(state.table, None));
        }
    }
}

/// What counted for a session and is gone is taken off again: one segment, and its size, but never
/// below zero; a data segment is not granted any more. Ports and their counters stay.
pub proof fn law_what_is_gone_is_taken_off(charge: Charge, session: SessionState)
    ensures
        ({
            let after = charge.given_back(session);
            &&& after.usage.segment_count == (if session.usage.segment_count > 0 {
                session.usage.segment_count - 1
            } else {
                0int
            })
            &&& after.usage.total_memory == (if session.usage.total_memory >= charge.size {
                session.usage.total_memory - charge.size
            } else {
                0int
            })
            &&& after.ports == session.ports
            &&& after.credentials == session.credentials
            &&& after.usage.publisher_count == session.usage.publisher_count
            &&& after.usage.subscriber_count == session.usage.subscriber_count
            &&& after.usage.server_count == session.usage.server_count
            &&& after.usage.client_count == session.usage.client_count
            &&& match charge.holding {
                Holding::Segment { segment_id } => after.granted == session.granted.remove(
                    segment_id.value,
                ),
                _ => after.granted == session.granted,
            }
        }),
{
    if let Holding::Segment { segment_id } = charge.holding {
        if !session.granted.contains(segment_id.value) {
            assert(session.granted.remove(segment_id.value) =~= session.granted);
        }
    }
}

} // verus!
