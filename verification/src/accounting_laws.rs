//! Laws of what sessions are charged for: what counts is what the server holds.

use vstd::prelude::*;
use crate::error::IamServerError;
use crate::ledger;
use crate::ledger::{Charge, Holding};
use crate::policy::{QosBounds, ResourceLimits, Verdict};
use crate::protocol::{IamRequest, SessionId};
use crate::segment_manager;
use crate::segment_manager::SegmentTable;
use crate::server_laws;
use crate::server_state;
use crate::server_state::{EntryState, HandleOrder, Registration, SegmentOrder, ServerState};
use crate::session::SessionState;
use crate::types::{AccessRights, SegmentId};

verus! {

/// The sessions once a session has given up a port.
spec fn detached(sessions: Map<u64, EntryState>, key: u64, port_id: u128) -> Map<u64, EntryState> {
    sessions.insert(
        key,
        EntryState { session: sessions[key].session.without_port(port_id), ..sessions[key] },
    )
}

/// It does not matter whether sessions are settled before or after one of them gives up a port.
proof fn lemma_detaching_commutes<H>(
    sessions: Map<u64, EntryState>,
    key: u64,
    port_id: u128,
    charges: Seq<Charge>,
    table: SegmentTable<H>,
    replaced: Option<Holding>,
)
    requires
        sessions.contains_key(key),
    ensures
        ledger::settled_sessions(detached(sessions, key, port_id), charges, table, replaced)
            == detached(
            ledger::settled_sessions(sessions, charges, table, replaced),
            key,
            port_id,
        ),
    decreases charges.len(),
{
    if charges.len() > 0 {
        let front = charges.drop_last();
        lemma_detaching_commutes(sessions, key, port_id, front, table, replaced);
        let rest = ledger::settled_sessions(sessions, front, table, replaced);
        let charge = charges.last();
        ledger::lemma_settling_keeps(sessions, front, table, replaced);
        assert(rest.dom().contains(key));
        assert(ledger::refunded(detached(rest, key, port_id), charge) =~= detached(
            ledger::refunded(rest, charge),
            key,
            port_id,
        ));
    }
}

/// Settling once what was replaced and once more what is gone comes to settling both at once.
proof fn lemma_settling_in_two_steps<H>(
    sessions: Map<u64, EntryState>,
    charges: Seq<Charge>,
    first: SegmentTable<H>,
    replaced: Option<Holding>,
    second: SegmentTable<H>,
    both: SegmentTable<H>,
)
    requires
        forall|i: int|
            0 <= i < charges.len() && !(#[trigger] charges[i]).lasts(first, replaced)
                ==> !charges[i].lasts(both, None),
        forall|i: int|
            0 <= i < charges.len() && (#[trigger] charges[i]).lasts(first, replaced)
                ==> charges[i].lasts(second, None) == charges[i].lasts(both, None),
    ensures
        ({
            let kept = charges.filter(|charge: Charge| charge.lasts(first, replaced));
            let once = ledger::settled_sessions(sessions, charges, first, replaced);
            &&& ledger::settled_sessions(once, kept, second, None) == ledger::settled_sessions(
                sessions,
                charges,
                both,
                None,
            )
            &&& kept.filter(|charge: Charge| charge.lasts(second, None)) == charges.filter(
                |charge: Charge| charge.lasts(both, None),
            )
        }),
    decreases charges.len(),
{
    reveal(Seq::filter);
    let keep = |charge: Charge| charge.lasts(first, replaced);
    let keep_second = |charge: Charge| charge.lasts(second, None);
    if charges.len() > 0 {
        let front = charges.drop_last();
        let last = charges.last();
        assert(charges[charges.len() - 1] == last);
        assert forall|i: int|
            0 <= i < front.len() && !(#[trigger] front[i]).lasts(
                first,
                replaced,
            ) implies !front[i].lasts(both, None) by {
            assert(front[i] == charges[i]);
        }
        assert forall|i: int|
            0 <= i < front.len() && (#[trigger] front[i]).lasts(first, replaced) implies front[i].lasts(
            second,
            None,
        ) == front[i].lasts(both, None) by {
            assert(front[i] == charges[i]);
        }
        lemma_settling_in_two_steps(sessions, front, first, replaced, second, both);
        let once = ledger::settled_sessions(sessions, front, first, replaced);
        let kept = front.filter(keep);
        if last.lasts(first, replaced) {
            assert(charges.filter(keep) == kept.push(last));
            assert(kept.push(last).drop_last() =~= kept);
            assert(kept.push(last).last() == last);
        } else {
            assert(charges.filter(keep) == kept);
            ledger::lemma_refund_commutes(once, last, kept, second, None);
        }
    }
}

/// Whether a registration is for a port: it goes when the port is given up.
pub open spec fn is_for_port(registration: Registration, port_id: u128) -> bool {
    match registration {
        Registration::Segment { port_id: owner, .. } => owner == port_id,
        Registration::DynamicSegment { port_id: owner, .. } => owner == port_id,
        Registration::Channel { sender_port_id, receiver_port_id, .. } => sender_port_id == port_id
            || receiver_port_id == port_id,
        Registration::MgmtSegment { port_id: owner, .. } => owner == port_id,
    }
}

/// Whether a registration takes the place of another segment in a port's list, which is then not
/// the port's any more.
pub open spec fn displaces<H>(table: SegmentTable<H>, registration: Registration) -> bool {
    registration matches Registration::DynamicSegment { port_id, segment_index, .. }
        && table.at_index_of_port(port_id, segment_index) is Some
}

/// The key of something that counts: a data segment.
pub open spec fn segment(id: u8) -> Holding {
    Holding::Segment { segment_id: SegmentId { value: id } }
}

/// Whether every segment that a session is granted counts for it.
pub open spec fn granted_is_charged(session: SessionState, charges: Seq<Charge>, key: u64) -> bool {
    forall|id: u8| #[trigger]
        session.granted.contains(id) ==> ledger::is_charged(
            charges,
            SessionId { value: key },
            segment(id),
        )
}

/// A segment that a port got at a free place of its list goes with the port.
proof fn lemma_port_loses_segment<H>(
    table: SegmentTable<H>,
    filed: SegmentTable<H>,
    port_id: u128,
    id: SegmentId,
    index: u8,
)
    requires
        !table.segments.contains_key(id.value),
        id.value != segment_manager::GAP_SEGMENT,
        filed.segments.dom() == table.segments.dom().insert(id.value),
        filed.segments.remove(id.value) == table.segments,
        (table.at_index_of_port(port_id, index) is None && filed.port_segments
            == table.port_segments.insert(
            port_id,
            segment_manager::placed(table.segments_of(port_id), index, id),
        )) || filed.port_segments == table.port_segments.insert(
            port_id,
            table.segments_of(port_id).push(id),
        ),
        filed.channels == table.channels,
        filed.mgmt_segments == table.mgmt_segments,
    ensures
        filed.without_port(port_id) == (SegmentTable {
            next_id: filed.next_id,
            ..table.without_port(port_id)
        }),
{
    let before = table.segments_of(port_id);
    let list = filed.segments_of(port_id);
    let a = filed.without_port(port_id);
    let b = table.without_port(port_id);
    assert(filed.registered_by(port_id, id.value)) by {
        if list == before.push(id) {
            assert(list[before.len() as int] == id);
        } else {
            assert(list[index as int] == id);
        }
    }
    assert forall|key: u8| #[trigger] a.segments.contains_key(key) == b.segments.contains_key(
        key,
    ) by {
        let wanted = SegmentId { value: key };
        if table.registered_by(port_id, key) {
            let i = choose|i: int| 0 <= i < before.len() && before[i] == wanted;
            if list == before.push(id) {
                assert(list[i] == wanted);
            } else {
                assert(i != index);
                assert(list[i] == wanted);
            }
        }
        if filed.registered_by(port_id, key) && key != id.value {
            let i = choose|i: int| 0 <= i < list.len() && list[i] == wanted;
            assert(i < before.len());
            assert(before[i] == wanted);
        }
        assert(filed.segments.dom().contains(key) == (table.segments.dom().contains(key) || key
            == id.value));
    }
    assert forall|key: u8| #[trigger] a.segments.contains_key(key) implies a.segments[key]
        == b.segments[key] by {
        assert(filed.registered_by(port_id, id.value));
        assert(key != id.value);
        assert(filed.segments.remove(id.value)[key] == table.segments[key]);
    }
    assert(a.segments =~= b.segments);
    assert(a.port_segments =~= b.port_segments);
}

/// Whether what was filed in a table goes once a port is given up: the segments are then as if it
/// had never been filed, but for where the scan for a free identifier goes on.
spec fn goes_with_port<H>(
    table: SegmentTable<H>,
    filed: SegmentTable<H>,
    holding: Holding,
    port_id: u128,
) -> bool {
    &&& filed.without_port(port_id) == (SegmentTable {
        next_id: filed.next_id,
        ..table.without_port(port_id)
    })
    &&& !holding.is_in(filed.without_port(port_id))
    &&& holding.is_in(filed)
    &&& holding is Segment ==> !holding.is_in(table)
    &&& forall|other: Holding| #[trigger]
        other.is_in(filed) <==> other.is_in(table) || other == holding
}

/// What is registered for a port at a free place goes with the port.
proof fn lemma_port_loses_registration<H>(
    state: ServerState<H>,
    registration: Registration,
    handle: H,
    port_id: u128,
)
    requires
        is_for_port(registration, port_id),
        !displaces(state.table, registration),
        state.filed(registration, handle) is Ok,
    ensures
        goes_with_port(
            state.table,
            (state.filed(registration, handle)->Ok_0).0,
            (state.filed(registration, handle)->Ok_0).1,
            port_id,
        ),
{
    let table = (state.filed(registration, handle)->Ok_0).0;
    match registration {
        Registration::Segment { .. } => {
            let id = state.table.next_free()->0;
            assert(state.table.is_next_free(id));
            assert(table.segments.remove(id) =~= state.table.segments);
            assert(table.segments.dom() =~= state.table.segments.dom().insert(id));
            lemma_port_loses_segment(state.table, table, port_id, SegmentId { value: id }, 0);
            assert(table.registered_by(port_id, id)) by {
                let list = table.segments_of(port_id);
                assert(list[list.len() - 1] == (SegmentId { value: id }));
            }
        },
        Registration::DynamicSegment { segment_index, .. } => {
            let id = state.table.next_free()->0;
            assert(state.table.is_next_free(id));
            assert(table.segments.remove(id) =~= state.table.segments);
            assert(table.segments.dom() =~= state.table.segments.dom().insert(id));
            lemma_port_loses_segment(
                state.table,
                table,
                port_id,
                SegmentId { value: id },
                segment_index,
            );
            assert(table.registered_by(port_id, id)) by {
                let list = table.segments_of(port_id);
                assert(list[segment_index as int] == (SegmentId { value: id }));
            }
        },
        Registration::Channel { .. } => {
            assert(table.without_port(port_id).channels =~= state.table.without_port(
                port_id,
            ).channels);
        },
        Registration::MgmtSegment { .. } => {
            assert(table.without_port(port_id).mgmt_segments =~= state.table.without_port(
                port_id,
            ).mgmt_segments);
        },
    }
    assert(table.without_port(port_id) =~= SegmentTable {
        next_id: table.next_id,
        ..state.table.without_port(port_id)
    });
}

/// Giving up a port undoes what a session has registered for it: the server is as if the port had
/// been given up without it, usage of the session included, but for where the scan for a free
/// identifier goes on. This is so whether or not a channel or management segment was registered
/// before. It is not so for a dynamic segment that takes the place of another in the port's list,
/// nor where the memory that the session uses cannot be counted.
pub proof fn law_detaching_undoes_registering<H>(
    state: ServerState<H>,
    order: HandleOrder,
    handles: Seq<H>,
    port_id: u128,
)
    requires
        state.sessions.contains_key(order.session_id.value),
        state.counts_further(order.session_id),
        state.sessions[order.session_id.value].session.usage.total_memory
            + order.registration.size() <= usize::MAX,
        server_laws::nothing_owed(state),
        granted_is_charged(
            state.sessions[order.session_id.value].session,
            state.ledger,
            order.session_id.value,
        ),
        is_for_port(order.registration, port_id),
        !displaces(state.table, order.registration),
        handles.len() > 0,
        state.filed(order.registration, handles[0]) is Ok,
    ensures
        ({
            let registered = state.handles_received(order, handles).state;
            let alone = state.detach(order.session_id, port_id).state;
            registered.detach(order.session_id, port_id).state == (ServerState {
                table: SegmentTable { next_id: registered.table.next_id, ..alone.table },
                ..alone
            })
        }),
{
    let (table, holding, _) = state.filed(order.registration, handles[0])->Ok_0;
    lemma_port_loses_registration(state, order.registration, handles[0], port_id);
    lemma_detaching_undoes_filing(
        state,
        table,
        holding,
        order.session_id,
        order.registration.size(),
        port_id,
    );
}

/// Giving up a port undoes a segment that was created for it, in the same way.
pub proof fn law_detaching_undoes_creating<H>(
    state: ServerState<H>,
    order: SegmentOrder,
    handle: H,
    size: usize,
    kept: H,
)
    requires
        state.sessions.contains_key(order.session_id.value),
        state.counts_further(order.session_id),
        state.sessions[order.session_id.value].session.usage.total_memory + size <= usize::MAX,
        server_laws::nothing_owed(state),
        granted_is_charged(
            state.sessions[order.session_id.value].session,
            state.ledger,
            order.session_id.value,
        ),
        size > 0,
        state.table.usable(order.segment_id.value),
        state.table.at_index_of_port(order.port_id, order.segment_id.value) is None,
    ensures
        ({
            let created = state.segment_created(order, Ok((handle, size)), Some(kept)).state;
            created.detach(order.session_id, order.port_id).state == state.detach(
                order.session_id,
                order.port_id,
            ).state
        }),
{
    let id = order.segment_id;
    let created = state.segment_created(order, Ok((handle, size)), Some(kept)).state;
    let holding = Holding::Segment { segment_id: id };
    let table = created.table;
    assert(table.segments.remove(id.value) =~= state.table.segments);
    assert(table.segments.dom() =~= state.table.segments.dom().insert(id.value));
    lemma_port_loses_segment(state.table, table, order.port_id, id, id.value);
    assert(table.registered_by(order.port_id, id.value)) by {
        let list = table.segments_of(order.port_id);
        assert(list[id.value as int] == id);
    }
    assert(goes_with_port(state.table, table, holding, order.port_id));
    lemma_detaching_undoes_filing(state, table, holding, order.session_id, size, order.port_id);
}

proof fn lemma_detaching_undoes_filing<H>(
    state: ServerState<H>,
    table: SegmentTable<H>,
    holding: Holding,
    session_id: SessionId,
    size: usize,
    port_id: u128,
)
    requires
        state.sessions.contains_key(session_id.value),
        state.counts_further(session_id),
        state.sessions[session_id.value].session.usage.total_memory + size <= usize::MAX,
        server_laws::nothing_owed(state),
        granted_is_charged(
            state.sessions[session_id.value].session,
            state.ledger,
            session_id.value,
        ),
        goes_with_port(state.table, table, holding, port_id),
    ensures
        ({
            let filed = ServerState { table, ..state }.settled(Some(holding)).with_charge(
                session_id,
                holding,
                size,
            );
            let alone = state.detach(session_id, port_id).state;
            filed.detach(session_id, port_id).state == (ServerState {
                table: SegmentTable { next_id: table.next_id, ..alone.table },
                ..alone
            })
        }),
{
    let key = session_id.value;
    let charges = state.ledger;
    let left = table.without_port(port_id);
    let both = state.table.without_port(port_id);
    let new = Charge { session_id, holding, size };
    let once = ledger::settled_sessions(state.sessions, charges, table, Some(holding));
    let kept = charges.filter(|charge: Charge| charge.lasts(table, Some(holding)));
    let registered = ServerState { table, ..state }.settled(Some(holding)).with_charge(
        session_id,
        holding,
        size,
    );
    let lost = registered.without_port(session_id, port_id);
    ledger::lemma_settling_keeps(state.sessions, charges, table, Some(holding));
    assert(once.dom().contains(key));
    assert(registered.ledger == kept.push(new));
    assert(lost.sessions =~= detached(registered.sessions, key, port_id));
    // The new charge is given back.
    assert(kept.push(new).drop_last() =~= kept);
    assert(!new.lasts(left, None));
    ledger::lemma_refund_commutes(lost.sessions, new, kept, left, None);
    if let Holding::Segment { segment_id } = holding {
        // What was not held before was not granted either.
        let session = state.sessions[key].session;
        if session.granted.contains(segment_id.value) {
            assert(segment(segment_id.value) == holding);
            let i = choose|i: int|
                0 <= i < charges.len() && (#[trigger] charges[i]).session_id == (SessionId {
                    value: key,
                }) && charges[i].holding == holding;
            assert(charges[i].lasts(state.table, None));
            assert(false);
        }
        assert(ledger::only_gave_back(once[key], state.sessions[key]));
        assert(!once[key].session.granted.contains(segment_id.value));
    }
    assert(ledger::refunded(lost.sessions, new) =~= detached(once, key, port_id));
    lemma_detaching_commutes(once, key, port_id, kept, left, None);
    // The rest is given back as without the registration.
    assert forall|i: int|
        0 <= i < charges.len() && !(#[trigger] charges[i]).lasts(
            table,
            Some(holding),
        ) implies !charges[i].lasts(both, None) by {
        assert(charges[i].lasts(state.table, None));
        assert(charges[i].holding.is_in(table));
        assert(charges[i].holding == holding);
    }
    assert forall|i: int|
        0 <= i < charges.len() && (#[trigger] charges[i]).lasts(
            table,
            Some(holding),
        ) implies charges[i].lasts(left, None) == charges[i].lasts(both, None) by {}
    lemma_settling_in_two_steps(state.sessions, charges, table, Some(holding), left, both);
    lemma_detaching_commutes(state.sessions, key, port_id, charges, both, None);
    let alone = state.without_port(session_id, port_id);
    assert(alone.sessions =~= detached(state.sessions, key, port_id));
    let keep = |charge: Charge| charge.lasts(left, None);
    kept.lemma_filter_push(new, keep);
    assert(registered.detach(session_id, port_id).state =~= ServerState {
        table: SegmentTable { next_id: registered.table.next_id, ..both },
        ..state.detach(session_id, port_id).state
    });
}

/// How many charges a session has.
pub open spec fn charge_count(charges: Seq<Charge>, key: u64) -> int
    decreases charges.len(),
{
    if charges.len() == 0 {
        0
    } else if charges.last().session_id.value == key {
        charge_count(charges.drop_last(), key) + 1
    } else {
        charge_count(charges.drop_last(), key)
    }
}

/// How much memory a session is charged for.
pub open spec fn charged_memory(charges: Seq<Charge>, key: u64) -> int
    decreases charges.len(),
{
    if charges.len() == 0 {
        0
    } else if charges.last().session_id.value == key {
        charged_memory(charges.drop_last(), key) + charges.last().size
    } else {
        charged_memory(charges.drop_last(), key)
    }
}

/// Whether a session counts what it is charged for: it counts one segment, and its size, for each
/// charge, and is granted nothing that does not count.
pub open spec fn agrees(session: SessionState, charges: Seq<Charge>, key: u64) -> bool {
    &&& session.usage.segment_count == charge_count(charges, key)
    &&& session.usage.total_memory == charged_memory(charges, key)
    &&& granted_is_charged(session, charges, key)
}

/// Whether the books agree: only sessions that are there are charged, and each counts what it is
/// charged for.
pub open spec fn books_agree<H>(state: ServerState<H>) -> bool {
    &&& forall|i: int|
        0 <= i < state.ledger.len() ==> state.sessions.contains_key(
            (#[trigger] state.ledger[i]).session_id.value,
        )
    &&& forall|key: u64| #[trigger]
        state.sessions.contains_key(key) ==> agrees(state.sessions[key].session, state.ledger, key)
}

/// Whether what sessions count is what the server holds for them: the books agree, and nothing is
/// charged that is gone.
pub open spec fn balanced<H>(state: ServerState<H>) -> bool {
    books_agree(state) && server_laws::nothing_owed(state)
}

proof fn lemma_counts_are_not_negative(charges: Seq<Charge>, key: u64)
    ensures
        charge_count(charges, key) >= 0,
        charged_memory(charges, key) >= 0,
    decreases charges.len(),
{
    if charges.len() > 0 {
        lemma_counts_are_not_negative(charges.drop_last(), key);
    }
}

proof fn lemma_one_more_charge(charges: Seq<Charge>, charge: Charge, key: u64)
    ensures
        charge_count(charges.push(charge), key) == charge_count(charges, key) + (
        if charge.session_id.value == key {
            1int
        } else {
            0int
        }),
        charged_memory(charges.push(charge), key) == charged_memory(charges, key) + (
        if charge.session_id.value == key {
            charge.size as int
        } else {
            0int
        }),
{
    assert(charges.push(charge).drop_last() =~= charges);
}

/// Settling gives each session back what it was charged for, and no more and no less: what it
/// counts besides, `count` segments of `memory` bytes, stays.
proof fn lemma_settling_counts<H>(
    sessions: Map<u64, EntryState>,
    charges: Seq<Charge>,
    table: SegmentTable<H>,
    replaced: Option<Holding>,
    key: u64,
    count: int,
    memory: int,
)
    requires
        sessions.contains_key(key),
        count >= 0,
        memory >= 0,
        sessions[key].session.usage.segment_count == charge_count(charges, key) + count,
        sessions[key].session.usage.total_memory == charged_memory(charges, key) + memory,
    ensures
        ({
            let after = ledger::settled_sessions(sessions, charges, table, replaced)[key].session;
            let kept = charges.filter(|charge: Charge| charge.lasts(table, replaced));
            &&& after.usage.segment_count == charge_count(kept, key) + count
            &&& after.usage.total_memory == charged_memory(kept, key) + memory
        }),
    decreases charges.len(),
{
    reveal(Seq::filter);
    let keep = |charge: Charge| charge.lasts(table, replaced);
    if charges.len() > 0 {
        let front = charges.drop_last();
        let last = charges.last();
        let own = last.session_id.value == key;
        let with_last: int = if own {
            count + 1
        } else {
            count
        };
        let with_size: int = if own {
            memory + last.size
        } else {
            memory
        };
        lemma_settling_counts(sessions, front, table, replaced, key, with_last, with_size);
        ledger::lemma_settling_keeps(sessions, front, table, replaced);
        let rest = ledger::settled_sessions(sessions, front, table, replaced);
        let kept = front.filter(keep);
        assert(rest.dom().contains(key));
        lemma_counts_are_not_negative(kept, key);
        if last.lasts(table, replaced) {
            lemma_one_more_charge(kept, last, key);
            assert(charges.filter(keep) == kept.push(last));
        } else {
            assert(charges.filter(keep) == kept);
        }
    }
}

/// Settling keeps the books in agreement, and nothing is owed afterwards.
pub proof fn law_settling_balances<H>(state: ServerState<H>, replaced: Option<Holding>)
    requires
        books_agree(state),
    ensures
        balanced(state.settled(replaced)),
{
    let after = state.settled(replaced);
    let keep = |charge: Charge| charge.lasts(state.table, replaced);
    ledger::lemma_settling_keeps(state.sessions, state.ledger, state.table, replaced);
    ledger::lemma_settled_ledger_lasts(state.ledger, state.table, replaced);
    assert forall|i: int| 0 <= i < after.ledger.len() implies {
        &&& after.sessions.contains_key((#[trigger] after.ledger[i]).session_id.value)
        &&& after.ledger[i].lasts(after.table, None)
    } by {
        let charge = after.ledger[i];
        state.ledger.lemma_filter_contains_rev(keep, charge);
        let j = choose|j: int| 0 <= j < state.ledger.len() && state.ledger[j] == charge;
        assert(state.sessions.dom().contains(state.ledger[j].session_id.value));
    }
    assert forall|key: u64| #[trigger] after.sessions.contains_key(key) implies agrees(
        after.sessions[key].session,
        after.ledger,
        key,
    ) by {
        assert(state.sessions.dom().contains(key));
        let before = state.sessions[key].session;
        let left = after.sessions[key].session;
        assert(agrees(before, state.ledger, key));
        lemma_settling_counts(state.sessions, state.ledger, state.table, replaced, key, 0, 0);
        assert forall|id: u8| #[trigger] left.granted.contains(id) implies ledger::is_charged(
            after.ledger,
            SessionId { value: key },
            segment(id),
        ) by {
            assert(before.granted.contains(id));
            let i = choose|i: int|
                0 <= i < state.ledger.len() && (#[trigger] state.ledger[i]).session_id == (
                SessionId { value: key }) && state.ledger[i].holding == segment(id);
            if !state.ledger[i].lasts(state.table, replaced) {
                ledger::lemma_settling_revokes(
                    state.sessions,
                    state.ledger,
                    state.table,
                    replaced,
                    i,
                    SegmentId { value: id },
                );
            }
            state.ledger.lemma_filter_contains(keep, i);
            let j = choose|j: int|
                0 <= j < after.ledger.len() && after.ledger[j] == state.ledger[i];
            assert(after.ledger[j].holding == segment(id));
        }
    }
}

/// Whether a session can count a segment of a size more.
pub open spec fn has_room<H>(state: ServerState<H>, session_id: SessionId, size: usize) -> bool {
    state.sessions.contains_key(session_id.value) ==> {
        let usage = state.sessions[session_id.value].session.usage;
        usage.segment_count < usize::MAX && usage.total_memory + size <= usize::MAX
    }
}

/// Whether a session can count a segment of the server, or counts it already.
pub open spec fn can_count<H>(
    state: ServerState<H>,
    session_id: SessionId,
    segment_id: SegmentId,
) -> bool {
    ||| ledger::is_charged(state.ledger, session_id, Holding::Segment { segment_id })
    ||| has_room(state, session_id, state.table.segments[segment_id.value].size)
}

/// A charge for something that the server holds keeps the balance, and so does the grant of a
/// segment, where the session can count it.
pub proof fn law_charging_keeps_balance<H>(
    state: ServerState<H>,
    session_id: SessionId,
    holding: Holding,
    size: usize,
    segment_id: SegmentId,
)
    requires
        balanced(state),
    ensures
        holding.is_in(state.table) && has_room(state, session_id, size) ==> balanced(
            state.with_charge(session_id, holding, size),
        ),
        state.table.segments.contains_key(segment_id.value) && can_count(
            state,
            session_id,
            segment_id,
        ) ==> balanced(state.with_grant(session_id, segment_id)),
{
    if state.sessions.contains_key(session_id.value) {
        let session = state.sessions[session_id.value].session;
        if holding.is_in(state.table) && has_room(state, session_id, size) {
            lemma_change_keeps_balance(
                state,
                Some(Charge { session_id, holding, size }),
                session_id,
                SessionState { usage: session.usage.with_segment(size), ..session },
                state.with_charge(session_id, holding, size),
            );
        }
        if state.table.segments.contains_key(segment_id.value) && can_count(
            state,
            session_id,
            segment_id,
        ) {
            let own = Holding::Segment { segment_id };
            let own_size = state.table.segments[segment_id.value].size;
            let granted = SessionState {
                granted: session.granted.insert(segment_id.value),
                ..session
            };
            let after = state.with_grant(session_id, segment_id);
            assert(own == segment(segment_id.value));
            if ledger::is_charged(state.ledger, session_id, own) {
                lemma_change_keeps_balance(state, None, session_id, granted, after);
            } else {
                assert(after.sessions =~= state.with_session(
                    session_id,
                    SessionState { usage: session.usage.with_segment(own_size), ..granted },
                ).sessions);
                lemma_change_keeps_balance(
                    state,
                    Some(Charge { session_id, holding: own, size: own_size }),
                    session_id,
                    SessionState { usage: session.usage.with_segment(own_size), ..granted },
                    after,
                );
            }
        }
    }
}

/// A session that counts the new charge, where there is one, and is granted no more than counts,
/// keeps the balance.
proof fn lemma_change_keeps_balance<H>(
    state: ServerState<H>,
    new: Option<Charge>,
    session_id: SessionId,
    changed: SessionState,
    after: ServerState<H>,
)
    requires
        balanced(state),
        state.sessions.contains_key(session_id.value),
        match new {
            Some(charge) => {
                &&& charge.session_id == session_id
                &&& charge.holding.is_in(state.table)
                &&& has_room(state, session_id, charge.size)
                &&& changed.usage
                    == state.sessions[session_id.value].session.usage.with_segment(charge.size)
                &&& after.ledger == state.ledger.push(charge)
            },
            None => {
                &&& changed.usage == state.sessions[session_id.value].session.usage
                &&& after.ledger == state.ledger
            },
        },
        forall|id: u8| #[trigger]
            changed.granted.contains(id) ==> {
                ||| state.sessions[session_id.value].session.granted.contains(id)
                ||| ledger::is_charged(state.ledger, session_id, segment(id))
                ||| (new matches Some(charge) && charge.holding == segment(id))
            },
        after.table == state.table,
        after.sessions == state.with_session(session_id, changed).sessions,
    ensures
        balanced(after),
{
    let charges = state.ledger;
    assert forall|i: int| 0 <= i < after.ledger.len() implies {
        &&& after.sessions.contains_key((#[trigger] after.ledger[i]).session_id.value)
        &&& after.ledger[i].lasts(after.table, None)
    } by {
        if i < charges.len() {
            assert(after.ledger[i] == charges[i]);
        }
    }
    assert forall|key: u64| #[trigger] after.sessions.contains_key(key) implies agrees(
        after.sessions[key].session,
        after.ledger,
        key,
    ) by {
        assert(state.sessions.contains_key(key));
        let before = state.sessions[key].session;
        let now = after.sessions[key].session;
        assert(agrees(before, charges, key));
        if let Some(charge) = new {
            lemma_one_more_charge(charges, charge, key);
        }
        assert forall|id: u8| #[trigger] now.granted.contains(id) implies ledger::is_charged(
            after.ledger,
            SessionId { value: key },
            segment(id),
        ) by {
            if let Some(charge) = new {
                ledger::lemma_charged_with(
                    charges,
                    charge,
                    SessionId { value: key },
                    segment(id),
                );
            }
            assert(before.granted.contains(id) ==> ledger::is_charged(
                charges,
                SessionId { value: key },
                segment(id),
            ));
            if key == session_id.value {
                assert(session_id == (SessionId { value: key }));
            }
        }
    }
}

/// A server that nobody has connected to is balanced.
pub proof fn law_new_server_is_balanced<H>()
    ensures
        balanced(ServerState::<H>::empty()),
{
}

proof fn lemma_uncharged(charges: Seq<Charge>, key: u64)
    requires
        forall|i: int|
            0 <= i < charges.len() ==> (#[trigger] charges[i]).session_id.value != key,
    ensures
        charge_count(charges, key) == 0,
        charged_memory(charges, key) == 0,
    decreases charges.len(),
{
    if charges.len() > 0 {
        let front = charges.drop_last();
        assert forall|i: int| 0 <= i < front.len() implies (#[trigger] front[i]).session_id.value
            != key by {
            assert(front[i] == charges[i]);
        }
        lemma_uncharged(front, key);
        assert(charges[charges.len() - 1].session_id.value != key);
    }
}

/// A new session keeps the balance.
pub proof fn law_new_session_keeps_balance<H>(state: ServerState<H>, new: SessionState)
    requires
        balanced(state),
        !state.sessions.contains_key(new.id.value),
        new == SessionState::fresh(new.id, new.credentials, new.authenticated_at),
    ensures
        balanced(state.with_new_session(new)),
{
    let after = state.with_new_session(new);
    lemma_uncharged(state.ledger, new.id.value);
    assert forall|key: u64| #[trigger] after.sessions.contains_key(key) implies agrees(
        after.sessions[key].session,
        after.ledger,
        key,
    ) by {
        if key != new.id.value {
            assert(state.sessions.contains_key(key));
        }
    }
}

/// Where sessions count and are granted the same, and as much is held, one server is as balanced
/// as the other.
proof fn lemma_same_books<H>(state: ServerState<H>, after: ServerState<H>)
    requires
        books_agree(state),
        after.ledger == state.ledger,
        after.sessions.dom() == state.sessions.dom(),
        forall|key: u64| #[trigger]
            state.sessions.contains_key(key) ==> {
                let one = after.sessions[key].session;
                let other = state.sessions[key].session;
                &&& one.usage.segment_count == other.usage.segment_count
                &&& one.usage.total_memory == other.usage.total_memory
                &&& one.granted == other.granted
            },
    ensures
        books_agree(after),
        server_laws::nothing_owed(state) && (forall|holding: Holding| #[trigger]
            holding.is_in(state.table) ==> holding.is_in(after.table)) ==> balanced(after),
{
    assert forall|i: int| 0 <= i < after.ledger.len() implies after.sessions.contains_key(
        (#[trigger] after.ledger[i]).session_id.value,
    ) by {
        assert(state.sessions.dom().contains(state.ledger[i].session_id.value));
    }
    assert forall|key: u64| #[trigger] after.sessions.contains_key(key) implies agrees(
        after.sessions[key].session,
        after.ledger,
        key,
    ) by {
        assert(state.sessions.dom().contains(key));
        assert(agrees(state.sessions[key].session, state.ledger, key));
    }
    if server_laws::nothing_owed(state) && (forall|holding: Holding| #[trigger]
        holding.is_in(state.table) ==> holding.is_in(after.table)) {
        assert forall|i: int| 0 <= i < after.ledger.len() implies (
        #[trigger] after.ledger[i]).lasts(after.table, None) by {
            assert(state.ledger[i].lasts(state.table, None));
        }
    }
}

/// Giving up a port keeps the balance.
pub proof fn law_detaching_keeps_balance<H>(
    state: ServerState<H>,
    session_id: SessionId,
    port_id: u128,
)
    requires
        books_agree(state),
        state.sessions.contains_key(session_id.value),
    ensures
        balanced(state.detach(session_id, port_id).state),
{
    let without = state.without_port(session_id, port_id);
    assert(without.sessions.dom() =~= state.sessions.dom());
    lemma_same_books(state, without);
    law_settling_balances(without, None);
}

/// An acknowledgment keeps the balance.
pub proof fn law_acknowledging_keeps_balance<H>(
    state: ServerState<H>,
    session_id: SessionId,
    segment_id: SegmentId,
)
    requires
        balanced(state),
        state.sessions.contains_key(session_id.value),
    ensures
        balanced(state.ack_retirement(session_id, segment_id).state),
{
    let session = state.sessions[session_id.value].session;
    let acked = ServerState {
        table: segment_manager::table_after_ack(state.table, segment_id, session_id),
        ..state.with_session(
            session_id,
            SessionState { pending: session.pending.remove(segment_id.value), ..session },
        )
    };
    assert(acked.sessions.dom() =~= state.sessions.dom());
    lemma_same_books(state, acked);
    law_settling_balances(acked, None);
}

proof fn lemma_charges_of_others(charges: Seq<Charge>, session_id: SessionId, key: u64)
    requires
        key != session_id.value,
    ensures
        ({
            let others = charges.filter(|charge: Charge| charge.session_id != session_id);
            &&& charge_count(others, key) == charge_count(charges, key)
            &&& charged_memory(others, key) == charged_memory(charges, key)
        }),
    decreases charges.len(),
{
    reveal(Seq::filter);
    let keep = |charge: Charge| charge.session_id != session_id;
    if charges.len() > 0 {
        let front = charges.drop_last();
        let last = charges.last();
        lemma_charges_of_others(front, session_id, key);
        let others = front.filter(keep);
        if last.session_id != session_id {
            lemma_one_more_charge(others, last, key);
            assert(charges.filter(keep) == others.push(last));
        }
    }
}

/// Removing a session keeps the balance.
pub proof fn law_removal_keeps_balance<H>(state: ServerState<H>, session_id: SessionId)
    requires
        books_agree(state),
    ensures
        balanced(state.removed(session_id)),
{
    let without = state.without_session(session_id);
    let keep = |charge: Charge| charge.session_id != session_id;
    assert forall|i: int| 0 <= i < without.ledger.len() implies {
        without.sessions.contains_key((#[trigger] without.ledger[i]).session_id.value)
    } by {
        let charge = without.ledger[i];
        state.ledger.lemma_filter_pred(keep, i);
        state.ledger.lemma_filter_contains_rev(keep, charge);
        let j = choose|j: int| 0 <= j < state.ledger.len() && state.ledger[j] == charge;
        assert(state.sessions.contains_key(state.ledger[j].session_id.value));
        assert(charge.session_id.value != session_id.value);
    }
    assert forall|key: u64| #[trigger] without.sessions.contains_key(key) implies agrees(
        without.sessions[key].session,
        without.ledger,
        key,
    ) by {
        assert(state.sessions.contains_key(key));
        let session = state.sessions[key].session;
        assert(agrees(session, state.ledger, key));
        lemma_charges_of_others(state.ledger, session_id, key);
        assert forall|id: u8| #[trigger] session.granted.contains(id) implies ledger::is_charged(
            without.ledger,
            SessionId { value: key },
            segment(id),
        ) by {
            let i = choose|i: int|
                0 <= i < state.ledger.len() && (#[trigger] state.ledger[i]).session_id == (
                SessionId { value: key }) && state.ledger[i].holding == segment(id);
            state.ledger.lemma_filter_contains(keep, i);
            let j = choose|j: int|
                0 <= j < without.ledger.len() && without.ledger[j] == state.ledger[i];
            assert(without.ledger[j].holding == segment(id));
        }
    }
    law_settling_balances(without, None);
}

/// Every request keeps the balance, whatever the policy says to it, where a session that asks for
/// a segment can count it.
pub proof fn law_requests_keep_balance<H>(
    state: ServerState<H>,
    session_id: SessionId,
    request: IamRequest,
    verdict: Verdict,
    limits: ResourceLimits,
    bounds: QosBounds,
    copies: Seq<Option<H>>,
)
    requires
        balanced(state),
        server_state::asks_for_segment(request) ==> can_count(
            state,
            session_id,
            SegmentId { value: server_laws::asked_id(state, request) },
        ),
    ensures
        balanced(
            state.dispatched_request(session_id, request, verdict, limits, bounds, copies).state,
        ),
{
    if state.sessions.contains_key(session_id.value) {
        match request {
            IamRequest::Detach { port_id, .. } => {
                law_detaching_keeps_balance(state, session_id, port_id);
            },
            IamRequest::AckSegmentRetirement { segment_id, .. } => {
                law_acknowledging_keeps_balance(state, session_id, segment_id);
            },
            IamRequest::RequestSegmentHandle { .. } => {
                lemma_asking_keeps_balance(
                    state,
                    session_id,
                    server_laws::asked_id(state, request),
                );
            },
            IamRequest::RequestDynamicSegmentHandle { .. } => {
                lemma_asking_keeps_balance(
                    state,
                    session_id,
                    server_laws::asked_id(state, request),
                );
            },
            _ => {
                lemma_other_requests_keep_balance(
                    state,
                    session_id,
                    request,
                    verdict,
                    limits,
                    bounds,
                    copies,
                );
            },
        }
    }
}

proof fn lemma_asking_keeps_balance<H>(state: ServerState<H>, session_id: SessionId, id: u8)
    requires
        balanced(state),
        can_count(state, session_id, SegmentId { value: id }),
    ensures
        state.table.segments.contains_key(id) ==> balanced(
            ServerState {
                table: state.table.with_session(id, session_id.value),
                ..state
            }.with_grant(session_id, SegmentId { value: id }),
        ),
{
    if state.table.segments.contains_key(id) {
        let shared = ServerState {
            table: state.table.with_session(id, session_id.value),
            ..state
        };
        lemma_same_books(state, shared);
        law_charging_keeps_balance(
            shared,
            session_id,
            Holding::MgmtSegment { port_id: 0 },
            0,
            SegmentId { value: id },
        );
    }
}

proof fn lemma_other_requests_keep_balance<H>(
    state: ServerState<H>,
    session_id: SessionId,
    request: IamRequest,
    verdict: Verdict,
    limits: ResourceLimits,
    bounds: QosBounds,
    copies: Seq<Option<H>>,
)
    requires
        balanced(state),
        state.sessions.contains_key(session_id.value),
        !(request is Detach),
        !(request is AckSegmentRetirement),
        !server_state::asks_for_segment(request),
    ensures
        balanced(
            state.dispatched_request(session_id, request, verdict, limits, bounds, copies).state,
        ),
{
    let after = state.dispatched_request(
        session_id,
        request,
        verdict,
        limits,
        bounds,
        copies,
    ).state;
    assert(after.ledger == state.ledger);
    assert(after.sessions.dom() =~= state.sessions.dom());
    lemma_same_books(state, after);
}

/// The creation of a segment and the receipt of handles keep the balance too, where the session
/// can count what comes.
pub proof fn law_completions_keep_balance<H>(
    state: ServerState<H>,
    segment_order: SegmentOrder,
    created: Result<(H, usize), IamServerError>,
    kept: Option<H>,
    handle_order: HandleOrder,
    handles: Seq<H>,
)
    requires
        balanced(state),
        created matches Ok((_, size)) ==> has_room(state, segment_order.session_id, size),
        has_room(state, handle_order.session_id, handle_order.registration.size()),
    ensures
        balanced(state.segment_created(segment_order, created, kept).state),
        balanced(state.handles_received(handle_order, handles).state),
{
    let a = state.segment_created(segment_order, created, kept).state;
    if created is Ok && kept is Some && (created->Ok_0).1 > 0 {
        lemma_filing_keeps_balance(
            state,
            a.table,
            segment_order.session_id,
            Holding::Segment { segment_id: segment_order.segment_id },
            (created->Ok_0).1,
        );
    }
    if handles.len() > 0 {
        if let Ok((table, holding, _)) = state.filed(handle_order.registration, handles[0]) {
            lemma_filing_keeps_balance(
                state,
                table,
                handle_order.session_id,
                holding,
                handle_order.registration.size(),
            );
        }
    }
}

proof fn lemma_filing_keeps_balance<H>(
    state: ServerState<H>,
    table: SegmentTable<H>,
    session_id: SessionId,
    holding: Holding,
    size: usize,
)
    requires
        balanced(state),
        has_room(state, session_id, size),
        holding.is_in(table),
    ensures
        balanced(
            ServerState { table, ..state }.settled(Some(holding)).with_charge(
                session_id,
                holding,
                size,
            ),
        ),
{
    let filed = ServerState { table, ..state };
    lemma_same_books(state, filed);
    law_settling_balances(filed, Some(holding));
    ledger::lemma_settling_keeps(filed.sessions, filed.ledger, table, Some(holding));
    let settled = filed.settled(Some(holding));
    assert(settled.sessions.dom() == state.sessions.dom());
    assert(settled.sessions.dom().contains(session_id.value) == state.sessions.dom().contains(
        session_id.value,
    ));
    law_charging_keeps_balance(settled, session_id, holding, size, SegmentId { value: 0 });
}

/// Telling consumers of a new segment keeps the balance too, where all of them can count it.
pub proof fn law_broadcast_keeps_balance<H>(
    state: ServerState<H>,
    segment_id: SegmentId,
    consumers: Seq<(SessionId, u128)>,
    copies: Seq<(Option<H>, Option<H>)>,
    n: int,
)
    requires
        balanced(state),
        forall|i: int|
            0 <= i < n ==> can_count(state, (#[trigger] consumers[i]).0, segment_id),
    ensures
        balanced(server_state::after_broadcast(state, segment_id, consumers, copies, n)),
{
    lemma_broadcast_keeps_balance(state, segment_id, consumers, copies, n, n);
}

proof fn lemma_broadcast_keeps_balance<H>(
    state: ServerState<H>,
    segment_id: SegmentId,
    consumers: Seq<(SessionId, u128)>,
    copies: Seq<(Option<H>, Option<H>)>,
    n: int,
    all: int,
)
    requires
        balanced(state),
        n <= all,
        forall|i: int|
            0 <= i < all ==> can_count(state, (#[trigger] consumers[i]).0, segment_id),
    ensures
        ({
            let after = server_state::after_broadcast(state, segment_id, consumers, copies, n);
            &&& balanced(after)
            &&& after.table.segments[segment_id.value].size
                == state.table.segments[segment_id.value].size
            &&& forall|i: int|
                0 <= i < all ==> can_count(after, (#[trigger] consumers[i]).0, segment_id)
        }),
    decreases n,
{
    if n > 0 {
        lemma_broadcast_keeps_balance(state, segment_id, consumers, copies, n - 1, all);
        let rest = server_state::after_broadcast(state, segment_id, consumers, copies, n - 1);
        let told = consumers[n - 1].0;
        assert(can_count(rest, told, segment_id));
        if copies[n - 1].0 is Some && copies[n - 1].1 is Some && rest.table.grantable(
            segment_id.value,
        ) {
            let shared = ServerState {
                table: rest.table.with_session(segment_id.value, told.value),
                ..rest
            };
            lemma_same_books(rest, shared);
            law_charging_keeps_balance(
                shared,
                told,
                Holding::Segment { segment_id },
                0,
                segment_id,
            );
            let after = shared.with_grant(told, segment_id);
            assert forall|i: int| 0 <= i < all implies can_count(
                after,
                (#[trigger] consumers[i]).0,
                segment_id,
            ) by {
                assert(can_count(rest, consumers[i].0, segment_id));
                let holding = Holding::Segment { segment_id };
                let size = rest.table.segments[segment_id.value].size;
                let charge = Charge { session_id: told, holding, size };
                ledger::lemma_charged_with(rest.ledger, charge, consumers[i].0, holding);
                if consumers[i].0.value == told.value {
                    assert(consumers[i].0 == told);
                }
            }
        }
    }
}

/// Access that is given to a session, a segment that is registered from outside, and a retirement
/// that begins keep the balance too.
pub proof fn law_brokering_keeps_balance<H>(
    state: ServerState<H>,
    segment_id: SegmentId,
    session_id: SessionId,
    handle: H,
    size: usize,
    access: AccessRights,
)
    requires
        balanced(state),
        can_count(state, session_id, segment_id),
    ensures
        state.table.segments.contains_key(segment_id.value) ==> {
            &&& balanced(
                ServerState {
                    table: state.table.with_session(segment_id.value, session_id.value),
                    ..state
                }.with_grant(session_id, segment_id),
            )
            &&& balanced(state.with_retirement(segment_id))
        },
        balanced(
            ServerState {
                table: state.table.scanned_past(segment_id.value).with_segment(
                    segment_id,
                    handle,
                    size,
                    access,
                ),
                ..state
            },
        ),
{
    lemma_asking_keeps_balance(state, session_id, segment_id.value);
    let registered = ServerState {
        table: state.table.scanned_past(segment_id.value).with_segment(
            segment_id,
            handle,
            size,
            access,
        ),
        ..state
    };
    lemma_same_books(state, registered);
    if state.table.segments.contains_key(segment_id.value) {
        let begun = state.with_retirement(segment_id);
        assert(begun.sessions.dom() =~= state.sessions.dom());
        lemma_same_books(state, begun);
    }
}

} // verus!
