//! What holds of the server whatever is asked of it.

use vstd::prelude::*;
use crate::audit::AuditEventKind;
use crate::error::IamServerError;
use crate::ledger;
use crate::ledger::{Charge, Holding};
use crate::policy::{QosBounds, ResourceLimits, Verdict};
use crate::protocol::{Answer, DenialReason, IamRequest, PortType, ProtocolVersion, SessionId};
use crate::segment_laws;
use crate::segment_manager;
use crate::segment_manager::SegmentTable;
use crate::server_state;
use crate::server_state::{
    ConsumerState, EntryState, HandleOrder, QosRequest, Registration, ReplyState, SegmentOrder,
    ServerState,
};
use crate::session;
use crate::session::{PortInfo, SessionState};
use crate::types::SegmentId;

verus! {

/// Whether a session has a port.
pub open spec fn owns<H>(state: ServerState<H>, session: u64, port: PortInfo) -> bool {
    state.sessions.contains_key(session) && state.sessions[session].session.ports.contains(port)
}

/// Whether a port is an attached producer.
pub open spec fn is_producer<H>(state: ServerState<H>, port_id: u128) -> bool {
    exists|key: u64, port: PortInfo| #[trigger]
        owns(state, key, port) && port.port_id == port_id && port.port_type.is_producer()
}

/// Whether a port of a session is noted as a consumer.
pub open spec fn is_noted<H>(state: ServerState<H>, session: u64, port_id: u128) -> bool {
    exists|i: int|
        0 <= i < state.consumers.len() && (#[trigger] state.consumers[i]).session_id.value
            == session && state.consumers[i].port_id == port_id
}

/// Whether a port that is noted as a consumer is one.
pub open spec fn is_consumer<H>(state: ServerState<H>, consumer: ConsumerState) -> bool {
    exists|port: PortInfo| #[trigger]
        owns(state, consumer.session_id.value, port) && port.port_id == consumer.port_id
            && !port.port_type.is_producer()
}

/// Whether what the server has noted in several places agrees: sessions are filed under their
/// own number and count their ports right, a port belongs to one session only and has a number
/// that was given out, and the producers and consumers are the attached ports of those types.
pub open spec fn consistent<H>(state: ServerState<H>) -> bool {
    &&& forall|key: u64| #[trigger]
        state.sessions.contains_key(key) ==> state.sessions[key].session.id.value == key
            && state.sessions[key].session.accounts_for_ports()
    &&& forall|key: u64, port: PortInfo| #[trigger]
        owns(state, key, port) ==> 1 <= port.port_id <= state.port_counter
    &&& forall|a: u64, b: u64, p: PortInfo, q: PortInfo|
        #![trigger owns(state, a, p), owns(state, b, q)]
        owns(state, a, p) && owns(state, b, q) && p.port_id == q.port_id ==> a == b && p == q
    &&& forall|key: u64, port: PortInfo| #[trigger]
        owns(state, key, port) && port.port_type.is_producer() ==> state.producers.contains_key(
            port.port_id,
        )
    &&& forall|port_id: u128| #[trigger]
        state.producers.contains_key(port_id) ==> is_producer(state, port_id)
    &&& forall|key: u64, port: PortInfo| #[trigger]
        owns(state, key, port) && !port.port_type.is_producer() ==> is_noted(
            state,
            key,
            port.port_id,
        )
    &&& forall|i: int|
        0 <= i < state.consumers.len() ==> is_consumer(state, #[trigger] state.consumers[i])
}

/// A server that nobody has connected to is consistent.
pub proof fn law_new_server_is_consistent<H>()
    ensures
        consistent(ServerState::<H>::empty()),
{
}

/// A new session keeps the server consistent.
pub proof fn law_new_session_keeps_consistency<H>(state: ServerState<H>, new: SessionState)
    requires
        consistent(state),
        !state.sessions.contains_key(new.id.value),
        new == SessionState::fresh(new.id, new.credentials, new.authenticated_at),
    ensures
        consistent(state.with_new_session(new)),
{
    let after = state.with_new_session(new);
    session::law_new_session_accounts(new.id, new.credentials, new.authenticated_at);
    assert forall|key: u64, port: PortInfo| #[trigger] owns(after, key, port) == owns(
        state,
        key,
        port,
    ) by {}
    lemma_same_owners(state, after);
}

/// Where the same sessions have the same ports, and the ports are noted alike, one server is
/// as consistent as the other.
proof fn lemma_same_owners<H>(state: ServerState<H>, after: ServerState<H>)
    requires
        consistent(state),
        forall|key: u64, port: PortInfo| #[trigger]
            owns(after, key, port) == owns(state, key, port),
        after.port_counter == state.port_counter,
        after.producers == state.producers,
        after.consumers == state.consumers,
        forall|key: u64| #[trigger]
            after.sessions.contains_key(key) ==> after.sessions[key].session.id.value == key
                && after.sessions[key].session.accounts_for_ports(),
    ensures
        consistent(after),
{
    assert forall|key: u64, port: PortInfo| #[trigger] owns(after, key, port) implies 1
        <= port.port_id <= after.port_counter by {
        assert(owns(state, key, port));
    }
    assert forall|a: u64, b: u64, p: PortInfo, q: PortInfo|
        #![trigger owns(after, a, p), owns(after, b, q)]
        owns(after, a, p) && owns(after, b, q) && p.port_id == q.port_id implies a == b && p
        == q by {
        assert(owns(state, a, p) && owns(state, b, q));
    }
    assert forall|key: u64, port: PortInfo| #[trigger]
        owns(after, key, port) && port.port_type.is_producer() implies after.producers.contains_key(
        port.port_id,
    ) by {
        assert(owns(state, key, port));
    }
    assert forall|port_id: u128| #[trigger] after.producers.contains_key(port_id) implies is_producer(
        after,
        port_id,
    ) by {
        let (key, port) = choose|key: u64, port: PortInfo| #[trigger]
            owns(state, key, port) && port.port_id == port_id && port.port_type.is_producer();
        assert(owns(after, key, port));
    }
    assert forall|key: u64, port: PortInfo| #[trigger]
        owns(after, key, port) && !port.port_type.is_producer() implies is_noted(
        after,
        key,
        port.port_id,
    ) by {
        assert(owns(state, key, port));
        let i = choose|i: int|
            0 <= i < state.consumers.len() && (#[trigger] state.consumers[i]).session_id.value
                == key && state.consumers[i].port_id == port.port_id;
        assert(after.consumers[i].session_id.value == key);
    }
    assert forall|i: int| 0 <= i < after.consumers.len() implies is_consumer(
        after,
        #[trigger] after.consumers[i],
    ) by {
        let port = choose|port: PortInfo| #[trigger]
            owns(state, state.consumers[i].session_id.value, port) && port.port_id
                == state.consumers[i].port_id && !port.port_type.is_producer();
        assert(owns(after, after.consumers[i].session_id.value, port));
    }
}

/// A change of a session that leaves its number, its ports and their counters alone keeps the
/// server consistent: a handshake, a counted segment, an acknowledgment.
pub proof fn law_session_change_keeps_consistency<H>(
    state: ServerState<H>,
    session_id: SessionId,
    entry: EntryState,
    after: ServerState<H>,
)
    requires
        consistent(state),
        state.sessions.contains_key(session_id.value),
        entry.session.id == state.sessions[session_id.value].session.id,
        entry.session.ports == state.sessions[session_id.value].session.ports,
        forall|port_type: PortType| #[trigger]
            entry.session.usage.ports(port_type)
                == state.sessions[session_id.value].session.usage.ports(port_type),
        after.sessions == state.sessions.insert(session_id.value, entry),
        after.port_counter == state.port_counter,
        after.producers == state.producers,
        after.consumers == state.consumers,
    ensures
        consistent(after),
{
    let before = state.sessions[session_id.value].session;
    assert(before.accounts_for_ports());
    assert forall|port_type: PortType|
        #![trigger entry.session.usage.ports(port_type)]
        #![trigger session::count_of(entry.session.ports, port_type)]
        entry.session.usage.ports(port_type) == session::count_of(
            entry.session.ports,
            port_type,
        ) by {
        assert(before.usage.ports(port_type) == session::count_of(before.ports, port_type));
    }
    lemma_same_owners(state, after);
}

/// Settling what sessions count keeps the server consistent.
pub proof fn law_settling_keeps_consistency<H>(state: ServerState<H>, replaced: Option<Holding>)
    requires
        consistent(state),
    ensures
        consistent(state.settled(replaced)),
{
    let after = state.settled(replaced);
    ledger::lemma_settling_keeps(state.sessions, state.ledger, state.table, replaced);
    assert forall|key: u64, port: PortInfo| #[trigger] owns(after, key, port) == owns(
        state,
        key,
        port,
    ) by {
        assert(after.sessions.dom().contains(key) == state.sessions.dom().contains(key));
    }
    assert forall|key: u64| #[trigger] after.sessions.contains_key(key) implies after.sessions[key].session.id.value
        == key && after.sessions[key].session.accounts_for_ports() by {
        assert(state.sessions.dom().contains(key));
        let before = state.sessions[key].session;
        let left = after.sessions[key].session;
        assert(before.accounts_for_ports());
        assert forall|port_type: PortType|
            #![trigger left.usage.ports(port_type)]
            #![trigger session::count_of(left.ports, port_type)]
            left.usage.ports(port_type) == session::count_of(left.ports, port_type) by {
            assert(before.usage.ports(port_type) == session::count_of(before.ports, port_type));
        }
    }
    lemma_same_owners(state, after);
}

/// Counting something for a session, and granting it a segment, keeps the server consistent.
pub proof fn law_counting_keeps_consistency<H>(
    state: ServerState<H>,
    session_id: SessionId,
    holding: Holding,
    size: usize,
    segment_id: SegmentId,
)
    requires
        consistent(state),
    ensures
        consistent(state.with_charge(session_id, holding, size)),
        consistent(state.with_grant(session_id, segment_id)),
{
    if state.sessions.contains_key(session_id.value) {
        let entry = state.sessions[session_id.value];
        law_session_change_keeps_consistency(
            state,
            session_id,
            EntryState {
                session: SessionState {
                    usage: entry.session.usage.with_segment(size),
                    ..entry.session
                },
                ..entry
            },
            state.with_charge(session_id, holding, size),
        );
        let granted = SessionState {
            granted: entry.session.granted.insert(segment_id.value),
            ..entry.session
        };
        let after = state.with_grant(session_id, segment_id);
        if ledger::is_charged(state.ledger, session_id, Holding::Segment { segment_id }) {
            law_session_change_keeps_consistency(
                state,
                session_id,
                EntryState { session: granted, ..entry },
                after,
            );
        } else {
            let counted = EntryState {
                session: SessionState {
                    usage: granted.usage.with_segment(
                        state.table.segments[segment_id.value].size,
                    ),
                    ..granted
                },
                ..entry
            };
            assert(after.sessions =~= state.sessions.insert(session_id.value, counted));
            law_session_change_keeps_consistency(state, session_id, counted, after);
        }
    }
}

/// Another table of segments leaves the server consistent.
proof fn lemma_table_is_free<H>(state: ServerState<H>, table: SegmentTable<H>)
    requires
        consistent(state),
    ensures
        consistent(ServerState { table, ..state }),
{
    let after = ServerState { table, ..state };
    assert forall|key: u64, port: PortInfo| #[trigger] owns(after, key, port) == owns(
        state,
        key,
        port,
    ) by {}
    lemma_same_owners(state, after);
}

/// A new port keeps the server consistent, and its number was never given out before.
pub proof fn law_new_port_keeps_consistency<H>(
    state: ServerState<H>,
    session_id: SessionId,
    service: Seq<char>,
    port_type: PortType,
)
    requires
        consistent(state),
        state.sessions.contains_key(session_id.value),
        state.port_counter < u128::MAX,
        state.sessions[session_id.value].session.usage.ports(port_type) < usize::MAX,
    ensures
        consistent(state.with_new_port(session_id, service, port_type)),
        forall|key: u64, port: PortInfo| #[trigger]
            owns(state, key, port) ==> port.port_id != state.port_counter + 1,
{
    let after = state.with_new_port(session_id, service, port_type);
    let new = PortInfo { port_id: (state.port_counter + 1) as u128, port_type };
    let before = state.sessions[session_id.value].session;
    assert(!session::attached(before.ports, new.port_id)) by {
        if session::attached(before.ports, new.port_id) {
            let i = choose|i: int|
                0 <= i < before.ports.len() && (#[trigger] before.ports[i]).port_id == new.port_id;
            assert(owns(state, session_id.value, before.ports[i]));
        }
    }
    session::law_attaching_accounts(before, new.port_id, port_type);
    let grown = after.sessions[session_id.value].session;
    assert(grown.ports == before.ports.push(new));
    assert forall|key: u64, port: PortInfo| #[trigger]
        owns(after, key, port) <==> owns(state, key, port) || (key == session_id.value && port
            == new) by {
        if key == session_id.value {
            if before.ports.contains(port) {
                let i = choose|i: int| 0 <= i < before.ports.len() && before.ports[i] == port;
                assert(grown.ports[i] == port);
            }
            assert(grown.ports[before.ports.len() as int] == new);
        }
    }
    assert forall|key: u64, port: PortInfo| #[trigger] owns(state, key, port) implies port.port_id
        != new.port_id by {}
    assert forall|a: u64, b: u64, p: PortInfo, q: PortInfo|
        #![trigger owns(after, a, p), owns(after, b, q)]
        owns(after, a, p) && owns(after, b, q) && p.port_id == q.port_id implies a == b && p
        == q by {
        if owns(state, a, p) && owns(state, b, q) {
        }
    }
    assert forall|port_id: u128| #[trigger] after.producers.contains_key(port_id) implies is_producer(
        after,
        port_id,
    ) by {
        if state.producers.contains_key(port_id) {
            let (key, port) = choose|key: u64, port: PortInfo| #[trigger]
                owns(state, key, port) && port.port_id == port_id && port.port_type.is_producer();
            assert(owns(after, key, port));
        } else {
            assert(owns(after, session_id.value, new));
        }
    }
    assert forall|key: u64, port: PortInfo| #[trigger]
        owns(after, key, port) && port.port_type.is_producer() implies after.producers.contains_key(
        port.port_id,
    ) by {
        if owns(state, key, port) {
        }
    }
    assert forall|key: u64, port: PortInfo| #[trigger]
        owns(after, key, port) && !port.port_type.is_producer() implies is_noted(
        after,
        key,
        port.port_id,
    ) by {
        if owns(state, key, port) {
            let i = choose|i: int|
                0 <= i < state.consumers.len() && (#[trigger] state.consumers[i]).session_id.value
                    == key && state.consumers[i].port_id == port.port_id;
            assert(after.consumers[i] == state.consumers[i]);
        } else {
            let i = state.consumers.len() as int;
            assert(after.consumers[i].session_id == session_id);
        }
    }
    assert forall|i: int| 0 <= i < after.consumers.len() implies is_consumer(
        after,
        #[trigger] after.consumers[i],
    ) by {
        if i < state.consumers.len() {
            assert(after.consumers[i] == state.consumers[i]);
            let port = choose|port: PortInfo| #[trigger]
                owns(state, state.consumers[i].session_id.value, port) && port.port_id
                    == state.consumers[i].port_id && !port.port_type.is_producer();
            assert(owns(after, after.consumers[i].session_id.value, port));
        } else {
            assert(owns(after, session_id.value, new));
        }
    }
}

proof fn lemma_owned_is_attached<H>(state: ServerState<H>, key: u64, port: PortInfo)
    requires
        owns(state, key, port),
        state.sessions[key].session.accounts_for_ports(),
    ensures
        session::attached(state.sessions[key].session.ports, port.port_id),
        state.sessions[key].session.ports[session::position(
            state.sessions[key].session.ports,
            port.port_id,
        )] == port,
        session::type_of(state.sessions[key].session.ports, port.port_id) == Some(port.port_type),
{
    let ports = state.sessions[key].session.ports;
    let i = choose|i: int| 0 <= i < ports.len() && ports[i] == port;
    assert(ports[i].port_id == port.port_id);
    session::lemma_position(ports, port.port_id);
    let p = session::position(ports, port.port_id);
    if p < i {
        assert(ports[p].port_id != ports[i].port_id);
    } else if i < p {
        assert(ports[i].port_id != ports[p].port_id);
    }
}

/// Giving up a port keeps the server consistent, and the port is noted nowhere afterwards.
pub proof fn law_detaching_keeps_consistency<H>(
    state: ServerState<H>,
    session_id: SessionId,
    port_id: u128,
)
    requires
        consistent(state),
        state.sessions.contains_key(session_id.value),
    ensures
        consistent(state.detach(session_id, port_id).state),
        forall|port: PortInfo| #[trigger]
            owns(state.detach(session_id, port_id).state, session_id.value, port) ==> port.port_id
                != port_id,
{
    let without = state.without_port(session_id, port_id);
    let after = without.settled(None);
    lemma_lost_port_keeps_consistency(state, session_id, port_id);
    law_settling_keeps_consistency(without, None);
    ledger::lemma_settling_keeps(without.sessions, without.ledger, without.table, None);
    assert forall|port: PortInfo| #[trigger] owns(
        after,
        session_id.value,
        port,
    ) implies port.port_id != port_id by {
        assert(without.sessions.dom().contains(session_id.value));
        assert(owns(without, session_id.value, port));
    }
}

proof fn lemma_lost_port_keeps_consistency<H>(
    state: ServerState<H>,
    session_id: SessionId,
    port_id: u128,
)
    requires
        consistent(state),
        state.sessions.contains_key(session_id.value),
    ensures
        consistent(state.without_port(session_id, port_id)),
        forall|port: PortInfo| #[trigger]
            owns(state.without_port(session_id, port_id), session_id.value, port) ==> port.port_id
                != port_id,
{
    let after = state.without_port(session_id, port_id);
    let before = state.sessions[session_id.value].session;
    let left = after.sessions[session_id.value].session;
    session::law_detaching_accounts(before, port_id);
    assert forall|key: u64, port: PortInfo| #[trigger]
        owns(after, key, port) <==> owns(state, key, port) && !(key == session_id.value
            && port.port_id == port_id) by {
        if key == session_id.value {
            if session::attached(before.ports, port_id) {
                session::lemma_position(before.ports, port_id);
                let p = session::position(before.ports, port_id);
                assert(left.ports == before.ports.remove(p));
                if left.ports.contains(port) {
                    let i = choose|i: int| 0 <= i < left.ports.len() && left.ports[i] == port;
                    let j = if i < p {
                        i
                    } else {
                        i + 1
                    };
                    assert(before.ports[j] == port);
                    assert(before.ports[p].port_id != port.port_id) by {
                        if j < p {
                            assert(before.ports[j].port_id != before.ports[p].port_id);
                        } else {
                            assert(before.ports[p].port_id != before.ports[j].port_id);
                        }
                    }
                }
                if before.ports.contains(port) && port.port_id != port_id {
                    let j = choose|j: int| 0 <= j < before.ports.len() && before.ports[j] == port;
                    let i = if j < p {
                        j
                    } else {
                        j - 1
                    };
                    assert(left.ports[i] == port);
                }
            } else {
                if before.ports.contains(port) {
                    let j = choose|j: int| 0 <= j < before.ports.len() && before.ports[j] == port;
                    assert(before.ports[j].port_id != port_id);
                }
            }
        }
    }
    let gone = session::type_of(before.ports, port_id);
    let keep = |consumer: ConsumerState|
        !(consumer.session_id == session_id && consumer.port_id == port_id);
    if gone is Some {
        session::lemma_position(before.ports, port_id);
        let p = session::position(before.ports, port_id);
        assert(owns(state, session_id.value, before.ports[p]));
    }
    assert forall|a: u64, b: u64, p: PortInfo, q: PortInfo|
        #![trigger owns(after, a, p), owns(after, b, q)]
        owns(after, a, p) && owns(after, b, q) && p.port_id == q.port_id implies a == b && p
        == q by {
        assert(owns(state, a, p) && owns(state, b, q));
    }
    assert forall|key: u64, port: PortInfo| #[trigger]
        owns(after, key, port) && port.port_type.is_producer() implies after.producers.contains_key(
        port.port_id,
    ) by {
        assert(owns(state, key, port));
        if gone is Some {
            let p = session::position(before.ports, port_id);
            assert(owns(state, session_id.value, before.ports[p]));
            assert(port.port_id != port_id);
        }
    }
    assert forall|other: u128| #[trigger] after.producers.contains_key(other) implies is_producer(
        after,
        other,
    ) by {
        assert(state.producers.contains_key(other));
        let (key, port) = choose|key: u64, port: PortInfo| #[trigger]
            owns(state, key, port) && port.port_id == other && port.port_type.is_producer();
        if key == session_id.value && other == port_id {
            lemma_owned_is_attached(state, key, port);
            assert(false);
        }
        assert(owns(after, key, port));
    }
    let filtered = gone is Some && !(gone->0).is_producer();
    assert forall|key: u64, port: PortInfo| #[trigger]
        owns(after, key, port) && !port.port_type.is_producer() implies is_noted(
        after,
        key,
        port.port_id,
    ) by {
        assert(owns(state, key, port));
        let i = choose|i: int|
            0 <= i < state.consumers.len() && (#[trigger] state.consumers[i]).session_id.value
                == key && state.consumers[i].port_id == port.port_id;
        if filtered {
            state.consumers.lemma_filter_contains(keep, i);
            let j = choose|j: int|
                0 <= j < after.consumers.len() && after.consumers[j] == state.consumers[i];
            assert(after.consumers[j].session_id.value == key);
        } else {
            assert(after.consumers[i].session_id.value == key);
        }
    }
    assert forall|i: int| 0 <= i < after.consumers.len() implies is_consumer(
        after,
        #[trigger] after.consumers[i],
    ) by {
        let consumer = after.consumers[i];
        if filtered {
            state.consumers.lemma_filter_pred(keep, i);
            state.consumers.lemma_filter_contains_rev(keep, consumer);
        }
        assert(state.consumers.contains(consumer));
        let j = choose|j: int| 0 <= j < state.consumers.len() && state.consumers[j] == consumer;
        let port = choose|port: PortInfo| #[trigger]
            owns(state, state.consumers[j].session_id.value, port) && port.port_id
                == state.consumers[j].port_id && !port.port_type.is_producer();
        if consumer.session_id.value == session_id.value && port.port_id == port_id {
            lemma_owned_is_attached(state, session_id.value, port);
            assert(consumer.session_id == session_id);
            assert(!keep(consumer));
            assert(false);
        }
        assert(owns(after, consumer.session_id.value, port));
    }
}

proof fn lemma_producers_without(
    producers: Map<u128, Seq<char>>,
    ports: Seq<PortInfo>,
    port_id: u128,
)
    ensures
        server_state::producers_without_ports(producers, ports).contains_key(port_id) <==> (
        producers.contains_key(port_id) && !exists|i: int|
            0 <= i < ports.len() && (#[trigger] ports[i]).port_id == port_id
                && ports[i].port_type.is_producer()),
    decreases ports.len(),
{
    if ports.len() > 0 {
        let front = ports.drop_last();
        lemma_producers_without(producers, front, port_id);
        let among = exists|i: int|
            0 <= i < ports.len() && (#[trigger] ports[i]).port_id == port_id
                && ports[i].port_type.is_producer();
        let among_front = exists|i: int|
            0 <= i < front.len() && (#[trigger] front[i]).port_id == port_id
                && front[i].port_type.is_producer();
        let is_last = ports.last().port_id == port_id && ports.last().port_type.is_producer();
        if among_front {
            let i = choose|i: int|
                0 <= i < front.len() && (#[trigger] front[i]).port_id == port_id
                    && front[i].port_type.is_producer();
            assert(ports[i] == front[i]);
        }
        if is_last {
            assert(ports[ports.len() - 1].port_id == port_id);
        }
        if among && !is_last {
            let i = choose|i: int|
                0 <= i < ports.len() && (#[trigger] ports[i]).port_id == port_id
                    && ports[i].port_type.is_producer();
            assert(front[i] == ports[i]);
        }
        assert(among <==> among_front || is_last);
    }
}

/// Removing a session keeps the server consistent.
pub proof fn law_removal_keeps_consistency<H>(state: ServerState<H>, session_id: SessionId)
    requires
        consistent(state),
    ensures
        consistent(state.removed(session_id)),
{
    lemma_lost_session_keeps_consistency(state, session_id);
    law_settling_keeps_consistency(state.without_session(session_id), None);
}

proof fn lemma_lost_session_keeps_consistency<H>(state: ServerState<H>, session_id: SessionId)
    requires
        consistent(state),
    ensures
        consistent(state.without_session(session_id)),
{
    let after = state.without_session(session_id);
    let there = state.sessions.contains_key(session_id.value);
    let ports = if there {
        state.sessions[session_id.value].session.ports
    } else {
        Seq::empty()
    };
    let keep = |consumer: ConsumerState| consumer.session_id != session_id;
    assert forall|key: u64, port: PortInfo| #[trigger]
        owns(after, key, port) <==> owns(state, key, port) && key != session_id.value by {}
    assert forall|a: u64, b: u64, p: PortInfo, q: PortInfo|
        #![trigger owns(after, a, p), owns(after, b, q)]
        owns(after, a, p) && owns(after, b, q) && p.port_id == q.port_id implies a == b && p
        == q by {
        assert(owns(state, a, p) && owns(state, b, q));
    }
    assert forall|key: u64, port: PortInfo| #[trigger]
        owns(after, key, port) && port.port_type.is_producer() implies after.producers.contains_key(
        port.port_id,
    ) by {
        assert(owns(state, key, port));
        lemma_producers_without(state.producers, ports, port.port_id);
        if exists|i: int|
            0 <= i < ports.len() && (#[trigger] ports[i]).port_id == port.port_id
                && ports[i].port_type.is_producer() {
            let i = choose|i: int|
                0 <= i < ports.len() && (#[trigger] ports[i]).port_id == port.port_id
                    && ports[i].port_type.is_producer();
            assert(owns(state, session_id.value, ports[i]));
            assert(false);
        }
    }
    assert forall|port_id: u128| #[trigger] after.producers.contains_key(port_id) implies is_producer(
        after,
        port_id,
    ) by {
        lemma_producers_without(state.producers, ports, port_id);
        let (key, port) = choose|key: u64, port: PortInfo| #[trigger]
            owns(state, key, port) && port.port_id == port_id && port.port_type.is_producer();
        if key == session_id.value {
            let i = choose|i: int| 0 <= i < ports.len() && ports[i] == port;
            assert(ports[i].port_id == port_id);
            assert(false);
        }
        assert(owns(after, key, port));
    }
    assert forall|key: u64, port: PortInfo| #[trigger]
        owns(after, key, port) && !port.port_type.is_producer() implies is_noted(
        after,
        key,
        port.port_id,
    ) by {
        assert(owns(state, key, port));
        let i = choose|i: int|
            0 <= i < state.consumers.len() && (#[trigger] state.consumers[i]).session_id.value
                == key && state.consumers[i].port_id == port.port_id;
        state.consumers.lemma_filter_contains(keep, i);
        let j = choose|j: int|
            0 <= j < after.consumers.len() && after.consumers[j] == state.consumers[i];
        assert(after.consumers[j].session_id.value == key);
    }
    assert forall|i: int| 0 <= i < after.consumers.len() implies is_consumer(
        after,
        #[trigger] after.consumers[i],
    ) by {
        let consumer = after.consumers[i];
        state.consumers.lemma_filter_pred(keep, i);
        state.consumers.lemma_filter_contains_rev(keep, consumer);
        let j = choose|j: int| 0 <= j < state.consumers.len() && state.consumers[j] == consumer;
        let port = choose|port: PortInfo| #[trigger]
            owns(state, state.consumers[j].session_id.value, port) && port.port_id
                == state.consumers[j].port_id && !port.port_type.is_producer();
        assert(consumer.session_id != session_id);
        assert(consumer.session_id.value != session_id.value);
        assert(owns(after, consumer.session_id.value, port));
    }
}

/// Every request keeps the server consistent, whatever the policy says to it.
pub proof fn law_requests_keep_consistency<H>(
    state: ServerState<H>,
    session_id: SessionId,
    request: IamRequest,
    verdict: Verdict,
    limits: ResourceLimits,
    bounds: QosBounds,
    copies: Seq<Option<H>>,
)
    requires
        consistent(state),
        server_state::attachment_of(request) is Some ==> state.port_counter < u128::MAX,
    ensures
        consistent(
            state.dispatched_request(session_id, request, verdict, limits, bounds, copies).state,
        ),
{
    let after = state.dispatched_request(session_id, request, verdict, limits, bounds, copies).state;
    if state.sessions.contains_key(session_id.value) {
        let entry = state.sessions[session_id.value];
        match request {
            IamRequest::Hello { .. } => {
                law_session_change_keeps_consistency(
                    state,
                    session_id,
                    EntryState { handshake_complete: true, ..entry },
                    state.with_handshake(session_id),
                );
            },
            IamRequest::AckSegmentRetirement { segment_id, .. } => {
                let session = SessionState {
                    pending: entry.session.pending.remove(segment_id.value),
                    ..entry.session
                };
                let acked = ServerState {
                    table: segment_manager::table_after_ack(state.table, segment_id, session_id),
                    ..state.with_session(session_id, session)
                };
                law_session_change_keeps_consistency(
                    state,
                    session_id,
                    EntryState { session, ..entry },
                    acked,
                );
                law_settling_keeps_consistency(acked, None);
            },
            IamRequest::Detach { port_id, .. } => {
                law_detaching_keeps_consistency(state, session_id, port_id);
            },
            _ => {
                if let Some((port_type, service)) = server_state::attachment_of(request) {
                    if entry.session.usage.ports(port_type) < limits.port_limit(port_type) {
                        law_new_port_keeps_consistency(state, session_id, service, port_type);
                    }
                } else {
                    let shared = ServerState { table: after.table, ..state };
                    lemma_table_is_free(state, after.table);
                    law_counting_keeps_consistency(
                        shared,
                        session_id,
                        Holding::MgmtSegment { port_id: 0 },
                        0,
                        SegmentId { value: asked_id(state, request) },
                    );
                }
            },
        }
    }
}

/// The segment that a request for the handle of a data segment asks for.
pub open spec fn asked_id<H>(state: ServerState<H>, request: IamRequest) -> u8 {
    match request {
        IamRequest::RequestSegmentHandle { sender_port_id, .. } => {
            state.table.first_of_port(sender_port_id)->0
        },
        IamRequest::RequestDynamicSegmentHandle { sender_port_id, segment_id, .. } => {
            state.table.at_index_of_port(sender_port_id, segment_id)->0
        },
        _ => 0,
    }
}

/// What follows a request, the creation of a segment or the receipt of handles, keeps the
/// server consistent too.
pub proof fn law_completions_keep_consistency<H>(
    state: ServerState<H>,
    segment_order: SegmentOrder,
    created: Result<(H, usize), IamServerError>,
    kept: Option<H>,
    handle_order: HandleOrder,
    handles: Seq<H>,
)
    requires
        consistent(state),
    ensures
        consistent(state.segment_created(segment_order, created, kept).state),
        consistent(state.handles_received(handle_order, handles).state),
{
    let a = state.segment_created(segment_order, created, kept).state;
    if created is Ok && kept is Some {
        let holding = Holding::Segment { segment_id: segment_order.segment_id };
        lemma_filing_keeps_consistency(
            state,
            a.table,
            segment_order.session_id,
            holding,
            (created->Ok_0).1,
        );
    }
    if handles.len() > 0 {
        if let Ok((table, holding, _)) = state.filed(handle_order.registration, handles[0]) {
            lemma_filing_keeps_consistency(
                state,
                table,
                handle_order.session_id,
                holding,
                handle_order.registration.size(),
            );
        }
    }
}

proof fn lemma_filing_keeps_consistency<H>(
    state: ServerState<H>,
    table: SegmentTable<H>,
    session_id: SessionId,
    holding: Holding,
    size: usize,
)
    requires
        consistent(state),
    ensures
        consistent(
            ServerState { table, ..state }.settled(Some(holding)).with_charge(
                session_id,
                holding,
                size,
            ),
        ),
{
    let filed = ServerState { table, ..state };
    lemma_table_is_free(state, table);
    law_settling_keeps_consistency(filed, Some(holding));
    law_counting_keeps_consistency(
        filed.settled(Some(holding)),
        session_id,
        holding,
        size,
        SegmentId { value: 0 },
    );
}

/// Telling consumers of a new segment keeps the server consistent too.
pub proof fn law_broadcast_keeps_consistency<H>(
    state: ServerState<H>,
    segment_id: SegmentId,
    consumers: Seq<(SessionId, u128)>,
    copies: Seq<(Option<H>, Option<H>)>,
    n: int,
)
    requires
        consistent(state),
    ensures
        consistent(server_state::after_broadcast(state, segment_id, consumers, copies, n)),
    decreases n,
{
    if n > 0 {
        law_broadcast_keeps_consistency(state, segment_id, consumers, copies, n - 1);
        let rest = server_state::after_broadcast(state, segment_id, consumers, copies, n - 1);
        let table = rest.table.with_session(segment_id.value, consumers[n - 1].0.value);
        lemma_table_is_free(rest, table);
        law_counting_keeps_consistency(
            ServerState { table, ..rest },
            consumers[n - 1].0,
            Holding::Segment { segment_id },
            0,
            segment_id,
        );
    }
}

/// A broadcast takes no access away, and leaves the segment as grantable and the sessions as many
/// as they were.
proof fn lemma_broadcast_keeps_segment<H>(
    state: ServerState<H>,
    segment_id: SegmentId,
    consumers: Seq<(SessionId, u128)>,
    copies: Seq<(Option<H>, Option<H>)>,
    n: int,
)
    ensures
        ({
            let after = server_state::after_broadcast(state, segment_id, consumers, copies, n);
            &&& after.table.grantable(segment_id.value) == state.table.grantable(segment_id.value)
            &&& after.sessions.dom() == state.sessions.dom()
        }),
    decreases n,
{
    if n > 0 {
        lemma_broadcast_keeps_segment(state, segment_id, consumers, copies, n - 1);
        let rest = server_state::after_broadcast(state, segment_id, consumers, copies, n - 1);
        let after = server_state::after_broadcast(state, segment_id, consumers, copies, n);
        assert(after.sessions.dom() =~= rest.sessions.dom());
    }
}

/// Whoever is told of a new segment is one of the consumers, has a session, and is authorized for
/// the segment: a notice never goes to a stranger. The session tracks the segment as granted.
pub proof fn law_notices_go_to_authorized_consumers<H>(
    state: ServerState<H>,
    segment_id: SegmentId,
    size: usize,
    consumers: Seq<(SessionId, u128)>,
    copies: Seq<(Option<H>, Option<H>)>,
    n: int,
    i: int,
)
    requires
        0 <= i < server_state::notices(state, segment_id, size, consumers, copies, n).len(),
    ensures
        ({
            let told = server_state::notices(
                state,
                segment_id,
                size,
                consumers,
                copies,
                n,
            )[i].session_id;
            let after = server_state::after_broadcast(state, segment_id, consumers, copies, n);
            let table = after.table;
            &&& exists|j: int| 0 <= j < n && (#[trigger] consumers[j]).0 == told
            &&& state.sessions.contains_key(told.value)
            &&& table.segments.contains_key(segment_id.value)
            &&& table.segments[segment_id.value].authorized.contains(told.value)
            &&& after.sessions[told.value].session.granted.contains(segment_id.value)
        }),
    decreases n,
{
    let rest = server_state::notices(state, segment_id, size, consumers, copies, n - 1);
    lemma_broadcast_keeps_segment(state, segment_id, consumers, copies, n - 1);
    let earlier = server_state::after_broadcast(state, segment_id, consumers, copies, n - 1);
    assert(state.sessions.dom() == earlier.sessions.dom());
    if i < rest.len() {
        law_notices_go_to_authorized_consumers(
            state,
            segment_id,
            size,
            consumers,
            copies,
            n - 1,
            i,
        );
        let j = choose|j: int| 0 <= j < n - 1 && (#[trigger] consumers[j]).0 == rest[i].session_id;
        assert(consumers[j].0 == rest[i].session_id);
        assert(earlier.sessions.dom().contains(rest[i].session_id.value));
    } else {
        assert(earlier.sessions.dom().contains(consumers[n - 1].0.value));
        assert(consumers[n - 1].0 == consumers[n - 1].0);
    }
}

/// A session that the server does not know is refused, and nothing changes.
pub proof fn law_unknown_session_is_refused<H>(
    state: ServerState<H>,
    session_id: SessionId,
    request: IamRequest,
    verdict: Verdict,
    limits: ResourceLimits,
    bounds: QosBounds,
    copies: Seq<Option<H>>,
)
    requires
        !state.sessions.contains_key(session_id.value),
    ensures
        state.dispatched_request(session_id, request, verdict, limits, bounds, copies)
            == state.only_failure(None, IamServerError::SessionNotFound),
{
}

/// Before its handshake is complete a client can do nothing but say hello: every other request
/// is a protocol error, changes nothing and leaves the policy unasked.
pub proof fn law_nothing_before_handshake<H>(
    state: ServerState<H>,
    session_id: SessionId,
    request: IamRequest,
    verdict: Verdict,
    limits: ResourceLimits,
    bounds: QosBounds,
    copies: Seq<Option<H>>,
)
    requires
        state.sessions.contains_key(session_id.value),
        !state.sessions[session_id.value].handshake_complete,
        !(request is Hello),
    ensures
        state.dispatched_request(session_id, request, verdict, limits, bounds, copies)
            == state.only_answer(None, server_state::handshake_missing()),
{
}

/// The handshake completes exactly for clients of the server's major version and of no newer
/// minor version; they learn their session identifier. Other clients are told of the mismatch,
/// and nothing changes.
pub proof fn law_handshake_is_by_version<H>(
    state: ServerState<H>,
    session_id: SessionId,
    version: ProtocolVersion,
)
    requires
        state.sessions.contains_key(session_id.value),
    ensures
        version.major == ProtocolVersion::current().major && version.minor
            <= ProtocolVersion::current().minor ==> {
            &&& state.hello(session_id, version).state.sessions[session_id.value].handshake_complete
            &&& state.hello(session_id, version).reply == (ReplyState::<H>::Answer {
                answer: Answer::HelloOk {
                    negotiated_version: ProtocolVersion::current(),
                    session_id,
                },
                handles: Seq::empty(),
            })
        },
        !(version.major == ProtocolVersion::current().major && version.minor
            <= ProtocolVersion::current().minor) ==> {
            &&& state.hello(session_id, version).state == state
            &&& state.hello(session_id, version).reply matches ReplyState::Answer { answer, .. }
            &&& answer matches Answer::Denied { reason, .. }
            &&& reason == DenialReason::VersionMismatch
        },
{
}

/// Whether the policy rules on a request.
pub open spec fn needs_ruling(request: IamRequest) -> bool {
    request is CreateService || request is AddSegment || server_state::attachment_of(request)
        is Some || server_state::registration_of(request) is Some
}

/// A request that the policy denies is answered with the policy's reason and message, changes
/// nothing, and the denial is in the audit log.
pub proof fn law_denied_request_changes_nothing<H>(
    state: ServerState<H>,
    session_id: SessionId,
    request: IamRequest,
    reason: DenialReason,
    message: Seq<char>,
    limits: ResourceLimits,
    bounds: QosBounds,
    copies: Seq<Option<H>>,
)
    requires
        state.sessions.contains_key(session_id.value),
        state.sessions[session_id.value].handshake_complete,
        needs_ruling(request),
    ensures
        ({
            let verdict = Verdict::Deny { reason, message };
            let effect = state.dispatched_request(
                session_id,
                request,
                verdict,
                limits,
                bounds,
                copies,
            );
            &&& effect.state == state
            &&& effect.reply == (ReplyState::<H>::Answer {
                answer: Answer::Denied { reason, message },
                handles: Seq::empty(),
            })
            &&& effect.audit matches Some(entry)
            &&& entry.verdict == verdict
            &&& entry.credentials == state.sessions[session_id.value].session.credentials
        }),
{
}

/// Every ruling of the policy is in the audit log, with the credentials of the client; an
/// attached port under its identifier, a refused one under zero.
pub proof fn law_rulings_are_audited<H>(
    state: ServerState<H>,
    session_id: SessionId,
    request: IamRequest,
    verdict: Verdict,
    limits: ResourceLimits,
    bounds: QosBounds,
    copies: Seq<Option<H>>,
)
    requires
        state.sessions.contains_key(session_id.value),
        state.sessions[session_id.value].handshake_complete,
        needs_ruling(request),
    ensures
        ({
            let effect = state.dispatched_request(
                session_id,
                request,
                verdict,
                limits,
                bounds,
                copies,
            );
            &&& effect.audit matches Some(entry)
            &&& entry.verdict == verdict
            &&& entry.credentials == state.sessions[session_id.value].session.credentials
            &&& entry.kind matches AuditEventKind::Attach { port_id, .. } ==> port_id == (
            match effect.reply {
                ReplyState::Answer { answer: Answer::AttachOk { port_id, .. }, .. } => port_id,
                _ => 0,
            })
        }),
{
}

/// A request changes no session but the one that sent it, but for what another session counts and
/// is granted of what the request has destroyed: giving up a port and acknowledging a retirement
/// can destroy something. Even of that, nothing is ever added.
pub proof fn law_other_sessions_are_untouched<H>(
    state: ServerState<H>,
    session_id: SessionId,
    request: IamRequest,
    verdict: Verdict,
    limits: ResourceLimits,
    bounds: QosBounds,
    copies: Seq<Option<H>>,
    other: u64,
)
    requires
        other != session_id.value,
    ensures
        ({
            let after = state.dispatched_request(
                session_id,
                request,
                verdict,
                limits,
                bounds,
                copies,
            ).state;
            &&& after.sessions.contains_key(other) == state.sessions.contains_key(other)
            &&& state.sessions.contains_key(other) ==> {
                let one = after.sessions[other];
                &&& ledger::only_gave_back(one, state.sessions[other])
                &&& !(request is Detach) && !(request is AckSegmentRetirement) ==> one
                    == state.sessions[other]
                &&& holdings_last(state, after.table, other) ==> one == state.sessions[other]
            }
        }),
{
    match request {
        IamRequest::Detach { port_id, .. } => {
            lemma_settling_another(state.without_port(session_id, port_id), other);
        },
        IamRequest::AckSegmentRetirement { segment_id, .. } => {
            let session = state.sessions[session_id.value].session;
            lemma_settling_another(
                ServerState {
                    table: segment_manager::table_after_ack(state.table, segment_id, session_id),
                    ..state.with_session(
                        session_id,
                        SessionState { pending: session.pending.remove(segment_id.value), ..session },
                    )
                },
                other,
            );
        },
        _ => {
            lemma_others_stay(state, session_id, request, verdict, limits, bounds, copies, other);
        },
    }
}

proof fn lemma_others_stay<H>(
    state: ServerState<H>,
    session_id: SessionId,
    request: IamRequest,
    verdict: Verdict,
    limits: ResourceLimits,
    bounds: QosBounds,
    copies: Seq<Option<H>>,
    other: u64,
)
    requires
        other != session_id.value,
        !(request is Detach),
        !(request is AckSegmentRetirement),
    ensures
        ({
            let after = state.dispatched_request(
                session_id,
                request,
                verdict,
                limits,
                bounds,
                copies,
            ).state;
            &&& after.sessions.contains_key(other) == state.sessions.contains_key(other)
            &&& state.sessions.contains_key(other) ==> after.sessions[other]
                == state.sessions[other]
        }),
{
}

/// Whether all that counts for a session is in a table of segments.
pub open spec fn holdings_last<H>(state: ServerState<H>, table: SegmentTable<H>, key: u64) -> bool {
    forall|i: int|
        0 <= i < state.ledger.len() && (#[trigger] state.ledger[i]).session_id.value == key
            ==> state.ledger[i].holding.is_in(table)
}

proof fn lemma_settling_another<H>(state: ServerState<H>, other: u64)
    ensures
        ({
            let after = state.settled(None);
            &&& after.sessions.contains_key(other) == state.sessions.contains_key(other)
            &&& state.sessions.contains_key(other) ==> {
                let one = after.sessions[other];
                &&& ledger::only_gave_back(one, state.sessions[other])
                &&& holdings_last(state, state.table, other) ==> one == state.sessions[other]
            }
        }),
{
    let after = state.settled(None);
    ledger::lemma_settling_keeps(state.sessions, state.ledger, state.table, None);
    assert(after.sessions.dom().contains(other) == state.sessions.dom().contains(other));
    if holdings_last(state, state.table, other) {
        ledger::lemma_settling_leaves(state.sessions, state.ledger, state.table, None, other);
    }
}

/// No request lets a session have more ports of any type than its limit: what was within the
/// limits is within them afterwards.
pub proof fn law_port_limits_hold<H>(
    state: ServerState<H>,
    session_id: SessionId,
    request: IamRequest,
    verdict: Verdict,
    limits: ResourceLimits,
    bounds: QosBounds,
    copies: Seq<Option<H>>,
    port_type: PortType,
)
    requires
        state.sessions.contains_key(session_id.value),
        state.sessions[session_id.value].session.usage.ports(port_type) <= limits.port_limit(
            port_type,
        ),
    ensures
        state.dispatched_request(
            session_id,
            request,
            verdict,
            limits,
            bounds,
            copies,
        ).state.sessions[session_id.value].session.usage.ports(port_type) <= limits.port_limit(
            port_type,
        ),
{
    let before = state.sessions[session_id.value].session;
    match request {
        IamRequest::Detach { port_id, .. } => {
            lemma_detaching_counts_down(before, port_id, port_type);
            let without = state.without_port(session_id, port_id);
            assert(without.sessions[session_id.value].session == before.without_port(port_id));
            lemma_settling_another(without, session_id.value);
        },
        IamRequest::AckSegmentRetirement { segment_id, .. } => {
            lemma_settling_another(
                ServerState {
                    table: segment_manager::table_after_ack(state.table, segment_id, session_id),
                    ..state.with_session(
                        session_id,
                        SessionState { pending: before.pending.remove(segment_id.value), ..before },
                    )
                },
                session_id.value,
            );
        },
        IamRequest::RequestSegmentHandle { .. } => {},
        IamRequest::RequestDynamicSegmentHandle { .. } => {},
        IamRequest::AttachPublisher { .. } => {},
        IamRequest::AttachSubscriber { .. } => {},
        IamRequest::AttachServer { .. } => {},
        IamRequest::AttachClient { .. } => {},
        _ => {
            assert(state.dispatched_request(
                session_id,
                request,
                verdict,
                limits,
                bounds,
                copies,
            ).state.sessions[session_id.value].session.usage == before.usage);
        },
    }
}

proof fn lemma_detaching_counts_down(before: SessionState, port_id: u128, port_type: PortType)
    ensures
        before.without_port(port_id).usage.ports(port_type) <= before.usage.ports(port_type),
{
}

/// At its limit a session is refused another port of the type, and the denial names the limit.
pub proof fn law_port_limit_is_enforced<H>(
    state: ServerState<H>,
    session_id: SessionId,
    service: Seq<char>,
    port_type: PortType,
    asked: QosRequest,
    limits: ResourceLimits,
    bounds: QosBounds,
    copies: Seq<Option<H>>,
)
    requires
        state.sessions.contains_key(session_id.value),
        state.sessions[session_id.value].session.usage.ports(port_type) >= limits.port_limit(
            port_type,
        ),
    ensures
        ({
            let effect = state.attach(
                session_id,
                service,
                port_type,
                asked,
                Verdict::Allow,
                limits,
                bounds,
                copies,
            );
            &&& effect.state == state
            &&& effect.reply == (ReplyState::<H>::Answer {
                answer: server_state::port_limit_reached(port_type, limits.port_limit(port_type)),
                handles: Seq::empty(),
            })
        }),
{
}

/// A port that asks for more than the bounds allow is refused for its Quality of Service, and the
/// server stays as it is; one that asks for no more is not.
pub proof fn law_qos_bounds_are_enforced<H>(
    state: ServerState<H>,
    session_id: SessionId,
    service: Seq<char>,
    port_type: PortType,
    asked: QosRequest,
    limits: ResourceLimits,
    bounds: QosBounds,
    copies: Seq<Option<H>>,
)
    requires
        state.sessions[session_id.value].session.usage.ports(port_type) < limits.port_limit(
            port_type,
        ),
        state.sessions[session_id.value].session.usage.segment_count < limits.max_segments,
    ensures
        ({
            let effect = state.attach_within(
                session_id,
                service,
                port_type,
                asked,
                limits,
                bounds,
                copies,
            );
            if server_state::buffer_within(asked, bounds) && server_state::history_within(
                asked,
                bounds,
            ) {
                &&& effect.state == state.with_new_port(session_id, service, port_type)
                &&& effect.reply is Answer
                &&& effect.reply->answer is AttachOk
            } else {
                &&& effect.state == state
                &&& effect.reply is Answer
                &&& effect.reply->answer matches Answer::Denied { reason, .. }
                &&& reason == DenialReason::IncompatibleQos
            }
        }),
{
}

/// Nothing that a session brings lets it count more segments than its limit: handles are received,
/// and segments created, only below it, and each time one segment more is counted. The limit
/// bounds what a session brings; a segment that others share with it is granted to it at the limit
/// too, and counts towards the limit from then on.
pub proof fn law_segment_limit_holds<H>(
    state: ServerState<H>,
    session_id: SessionId,
    registration: Registration,
    handle_count: usize,
    limits: ResourceLimits,
    handles: Seq<H>,
    segment_order: SegmentOrder,
    created: Result<(H, usize), IamServerError>,
    kept: Option<H>,
)
    requires
        state.sessions.contains_key(session_id.value),
        state.sessions[session_id.value].session.usage.segment_count <= limits.max_segments,
        segment_order.session_id == session_id,
    ensures
        ({
            let order = HandleOrder { session_id, registration };
            let first = state.register(
                session_id,
                registration,
                handle_count,
                Verdict::Allow,
                limits,
            );
            let after = state.handles_received(order, handles).state;
            first.reply == (ReplyState::<H>::ReceiveHandles { order })
                ==> after.sessions[session_id.value].session.usage.segment_count
                <= limits.max_segments
        }),
        ({
            let first = state.add_segment_within(
                session_id,
                segment_order.port_id,
                segment_order.requested_size,
                segment_order.bucket_size,
                segment_order.bucket_align,
                limits,
            );
            let after = first.state.segment_created(segment_order, created, kept).state;
            first.reply == (ReplyState::<H>::CreateSegment { order: segment_order })
                ==> after.sessions[session_id.value].session.usage.segment_count
                <= limits.max_segments
        }),
{
    if handles.len() > 0 {
        if let Ok((table, holding, _)) = state.filed(registration, handles[0]) {
            lemma_filing_counts_one(state, table, session_id, holding, registration.size());
        }
    }
    let first = state.add_segment_within(
        session_id,
        segment_order.port_id,
        segment_order.requested_size,
        segment_order.bucket_size,
        segment_order.bucket_align,
        limits,
    ).state;
    if created is Ok && kept is Some {
        lemma_filing_counts_one(
            first,
            first.segment_created(segment_order, created, kept).state.table,
            session_id,
            Holding::Segment { segment_id: segment_order.segment_id },
            (created->Ok_0).1,
        );
    }
}

proof fn lemma_filing_counts_one<H>(
    state: ServerState<H>,
    table: SegmentTable<H>,
    session_id: SessionId,
    holding: Holding,
    size: usize,
)
    requires
        state.sessions.contains_key(session_id.value),
    ensures
        ({
            let after = ServerState { table, ..state }.settled(Some(holding)).with_charge(
                session_id,
                holding,
                size,
            );
            let before = state.sessions[session_id.value].session.usage.segment_count;
            before < usize::MAX
                ==> after.sessions[session_id.value].session.usage.segment_count <= before + 1
        }),
{
    ledger::lemma_settling_keeps(state.sessions, state.ledger, table, Some(holding));
    let settled = ledger::settled_sessions(state.sessions, state.ledger, table, Some(holding));
    assert(settled.dom().contains(session_id.value));
}

proof fn lemma_reaping_only_removes<H>(table: SegmentTable<H>, port: u128)
    ensures
        forall|key: u128| #[trigger]
            table.without_port(port).port_segments.contains_key(key)
                ==> table.port_segments.contains_key(key),
        forall|key: u128| #[trigger]
            table.without_port(port).mgmt_segments.contains_key(key)
                ==> table.mgmt_segments.contains_key(key),
        forall|key: (u128, u128)| #[trigger]
            table.without_port(port).channels.contains_key(key) ==> table.channels.contains_key(
                key,
            ),
{
}

proof fn lemma_reaped_ports_hold_nothing<H>(table: SegmentTable<H>, ports: Seq<PortInfo>, i: int)
    requires
        0 <= i < ports.len(),
    ensures
        ({
            let after = server_state::table_without_ports(table, ports);
            let port = ports[i].port_id;
            &&& !after.port_segments.contains_key(port)
            &&& !after.mgmt_segments.contains_key(port)
            &&& forall|other: u128| !(#[trigger] after.channels.contains_key((port, other)))
            &&& forall|other: u128| !(#[trigger] after.channels.contains_key((other, port)))
        }),
    decreases ports.len(),
{
    let front = server_state::table_without_ports(table, ports.drop_last());
    let last = ports.last().port_id;
    if i < ports.len() - 1 {
        lemma_reaped_ports_hold_nothing(table, ports.drop_last(), i);
        assert(ports.drop_last()[i] == ports[i]);
        lemma_reaping_only_removes(front, last);
        let port = ports[i].port_id;
        assert forall|other: u128| !(#[trigger] front.without_port(last).channels.contains_key(
            (port, other),
        )) by {
            assert(!front.channels.contains_key((port, other)));
        }
        assert forall|other: u128| !(#[trigger] front.without_port(last).channels.contains_key(
            (other, port),
        )) by {
            assert(!front.channels.contains_key((other, port)));
        }
    } else {
        assert(ports.last() == ports[i]);
    }
}

/// A removed session leaves nothing behind: no entry, no charge, no consumer, no access to a
/// segment, no pending acknowledgment, and nothing that one of its ports had registered or a
/// channel ended at.
pub proof fn law_removed_session_leaves_nothing<H>(
    state: ServerState<H>,
    session_id: SessionId,
    i: int,
    segment: u8,
)
    requires
        state.sessions.contains_key(session_id.value),
        0 <= i < state.sessions[session_id.value].session.ports.len(),
    ensures
        ({
            let after = state.removed(session_id);
            let port = state.sessions[session_id.value].session.ports[i].port_id;
            &&& !after.sessions.contains_key(session_id.value)
            &&& forall|j: int|
                0 <= j < after.consumers.len() ==> (#[trigger] after.consumers[j]).session_id
                    != session_id
            &&& after.table.segments.contains_key(segment) ==> {
                &&& !after.table.segments[segment].authorized.contains(session_id.value)
                &&& !after.table.segments[segment].pending.contains(session_id.value)
            }
            &&& !after.table.port_segments.contains_key(port)
            &&& !after.table.mgmt_segments.contains_key(port)
            &&& forall|other: u128| !(#[trigger] after.table.channels.contains_key((port, other)))
            &&& forall|other: u128| !(#[trigger] after.table.channels.contains_key((other, port)))
            &&& state.sessions[session_id.value].session.ports[i].port_type.is_producer()
                ==> !after.producers.contains_key(port)
            &&& forall|j: int|
                0 <= j < after.ledger.len() ==> (#[trigger] after.ledger[j]).session_id
                    != session_id
        }),
{
    let without = state.without_session(session_id);
    let after = without.settled(None);
    ledger::lemma_settling_keeps(without.sessions, without.ledger, without.table, None);
    assert(!after.sessions.dom().contains(session_id.value));
    let others = |charge: Charge| charge.session_id != session_id;
    let lasting = |charge: Charge| charge.lasts(without.table, None);
    assert forall|j: int| 0 <= j < after.ledger.len() implies (
    #[trigger] after.ledger[j]).session_id != session_id by {
        let charge = after.ledger[j];
        without.ledger.lemma_filter_contains_rev(lasting, charge);
        let k = choose|k: int| 0 <= k < without.ledger.len() && without.ledger[k] == charge;
        state.ledger.lemma_filter_pred(others, k);
    }
    let ports = state.sessions[session_id.value].session.ports;
    let keep = |consumer: ConsumerState| consumer.session_id != session_id;
    assert forall|j: int| 0 <= j < after.consumers.len() implies (
    #[trigger] after.consumers[j]).session_id != session_id by {
        state.consumers.lemma_filter_pred(keep, j);
    }
    lemma_reaped_ports_hold_nothing(state.table, ports, i);
    let reaped = server_state::table_without_ports(state.table, ports);
    assert(after.table.channels == reaped.channels);
    lemma_producers_without(state.producers, ports, ports[i].port_id);
    if ports[i].port_type.is_producer() {
        assert(ports[i].port_id == ports[i].port_id);
    }
}

/// Giving up a port that was just attached, and has registered nothing, leaves the server as it
/// was before, but for the identifier that was used up.
pub proof fn law_detaching_undoes_attaching<H>(
    state: ServerState<H>,
    session_id: SessionId,
    service: Seq<char>,
    port_type: PortType,
)
    requires
        consistent(state),
        state.sessions.contains_key(session_id.value),
        state.port_counter < u128::MAX,
        state.sessions[session_id.value].session.usage.ports(port_type) < usize::MAX,
        state.table.without_port((state.port_counter + 1) as u128) == state.table,
        nothing_owed(state),
    ensures
        state.with_new_port(session_id, service, port_type).detach(
            session_id,
            (state.port_counter + 1) as u128,
        ).state == (ServerState { port_counter: (state.port_counter + 1) as u128, ..state }),
{
    let new_id = (state.port_counter + 1) as u128;
    lemma_losing_undoes_attaching(state, session_id, service, port_type);
    let after = state.with_new_port(session_id, service, port_type).without_port(
        session_id,
        new_id,
    );
    ledger::lemma_nothing_to_settle(after.sessions, after.ledger, after.table, None);
}

/// Whether everything counts that is in the ledger: the server holds all of it.
pub open spec fn nothing_owed<H>(state: ServerState<H>) -> bool {
    forall|i: int|
        0 <= i < state.ledger.len() ==> (#[trigger] state.ledger[i]).lasts(state.table, None)
}

proof fn lemma_losing_undoes_attaching<H>(
    state: ServerState<H>,
    session_id: SessionId,
    service: Seq<char>,
    port_type: PortType,
)
    requires
        consistent(state),
        state.sessions.contains_key(session_id.value),
        state.port_counter < u128::MAX,
        state.sessions[session_id.value].session.usage.ports(port_type) < usize::MAX,
        state.table.without_port((state.port_counter + 1) as u128) == state.table,
    ensures
        state.with_new_port(session_id, service, port_type).without_port(
            session_id,
            (state.port_counter + 1) as u128,
        ) == (ServerState { port_counter: (state.port_counter + 1) as u128, ..state }),
{
    let new = PortInfo { port_id: (state.port_counter + 1) as u128, port_type };
    let before = state.sessions[session_id.value].session;
    law_new_port_keeps_consistency(state, session_id, service, port_type);
    assert(!session::attached(before.ports, new.port_id)) by {
        if session::attached(before.ports, new.port_id) {
            let i = choose|i: int|
                0 <= i < before.ports.len() && (#[trigger] before.ports[i]).port_id == new.port_id;
            assert(owns(state, session_id.value, before.ports[i]));
        }
    }
    session::law_detaching_undoes_attaching(before, new.port_id, port_type);
    let grown = state.with_new_port(session_id, service, port_type);
    let after = grown.without_port(session_id, new.port_id);
    assert(after.sessions =~= state.sessions);
    let ports = grown.sessions[session_id.value].session.ports;
    assert(ports[before.ports.len() as int] == new);
    assert(owns(grown, session_id.value, new));
    lemma_owned_is_attached(grown, session_id.value, new);
    if port_type.is_producer() {
        assert(!state.producers.contains_key(new.port_id)) by {
            if state.producers.contains_key(new.port_id) {
                assert(is_producer(state, new.port_id));
            }
        }
        assert(after.producers =~= state.producers);
    } else {
        let keep = |consumer: ConsumerState|
            !(consumer.session_id == session_id && consumer.port_id == new.port_id);
        let last = ConsumerState { service, session_id, port_id: new.port_id };
        assert(grown.consumers == state.consumers.push(last));
        assert forall|i: int| 0 <= i < state.consumers.len() implies keep(
            #[trigger] state.consumers[i],
        ) by {
            assert(is_consumer(state, state.consumers[i]));
        }
        lemma_filter_keeps_all(state.consumers, keep);
        state.consumers.lemma_filter_push(last, keep);
        assert(after.consumers =~= state.consumers);
    }
}

proof fn lemma_filter_keeps_all(list: Seq<ConsumerState>, keep: spec_fn(ConsumerState) -> bool)
    requires
        forall|i: int| 0 <= i < list.len() ==> keep(#[trigger] list[i]),
    ensures
        list.filter(keep) == list,
    decreases list.len(),
{
    reveal(Seq::filter);
    if list.len() > 0 {
        lemma_filter_keeps_all(list.drop_last(), keep);
        assert(list.drop_last().push(list.last()) =~= list);
    }
}

/// A data segment that a client registers can be read but not written by those it is granted
/// to, and the grant carries the size that was registered.
pub proof fn law_registered_segments_are_read_only<H>(
    state: ServerState<H>,
    port_id: u128,
    segment_size: usize,
    handle: H,
)
    ensures
        state.filed(Registration::Segment { port_id, segment_size }, handle) matches Ok(
            (table, _, Answer::RegisterSegmentOk { segment_id }),
        ) ==> {
            &&& table.segments[segment_id.value].access.read
            &&& !table.segments[segment_id.value].access.write
            &&& table.segments[segment_id.value].size == segment_size
            &&& table.segments[segment_id.value].handle == handle
        },
{
}

/// A dynamic segment that a producer registers at an index is what a consumer that asks for
/// that index gets, with a duplicate of the handle that was registered.
pub proof fn law_registered_index_is_served<H>(
    state: ServerState<H>,
    port_id: u128,
    segment_index: u8,
    segment_size: usize,
    handle: H,
    consumer: SessionId,
    duplicate: H,
)
    requires
        state.filed(
            Registration::DynamicSegment { port_id, segment_index, segment_size },
            handle,
        ) is Ok,
    ensures
        ({
            let (table, _, _) = state.filed(
                Registration::DynamicSegment { port_id, segment_index, segment_size },
                handle,
            )->Ok_0;
            let served = ServerState { table, ..state };
            let id = table.at_index_of_port(port_id, segment_index);
            &&& table.grant_of(id) == Some(handle)
            &&& served.request_dynamic_segment(
                consumer,
                port_id,
                segment_index,
                Some(duplicate),
            ).reply matches ReplyState::Answer { answer, handles }
            &&& handles == seq![duplicate]
            &&& answer matches Answer::DynamicSegmentHandleOk { segment_info, handle_count }
            &&& handle_count == 1
            &&& segment_info.size == segment_size
            &&& !segment_info.access.write
        }),
{
}

/// Beginning the retirement of a segment keeps the server consistent.
pub proof fn law_retirement_keeps_consistency<H>(state: ServerState<H>, segment_id: SegmentId)
    requires
        consistent(state),
        state.table.segments.contains_key(segment_id.value),
    ensures
        consistent(state.with_retirement(segment_id)),
{
    let after = state.with_retirement(segment_id);
    assert forall|key: u64| #[trigger] after.sessions.contains_key(key) implies after.sessions[key].session.id.value
        == key && after.sessions[key].session.accounts_for_ports() by {
        assert(state.sessions[key].session.accounts_for_ports());
    }
    lemma_same_owners(state, after);
}

/// A client may acknowledge the retirement of a segment exactly if its session may access the
/// segment when the retirement begins; others are refused, and change nothing.
pub proof fn law_asked_sessions_may_acknowledge<H>(
    state: ServerState<H>,
    segment_id: SegmentId,
    session_id: SessionId,
)
    requires
        state.table.segments.contains_key(segment_id.value),
        !state.table.segments[segment_id.value].retiring,
        state.sessions.contains_key(session_id.value),
        !state.sessions[session_id.value].session.pending.contains(segment_id.value),
    ensures
        ({
            let begun = state.with_retirement(segment_id);
            let effect = begun.ack_retirement(session_id, segment_id);
            if segment_manager::authorized_for(state.table, segment_id, session_id) {
                effect.reply == (ReplyState::<H>::Answer {
                    answer: Answer::AckOk,
                    handles: Seq::empty(),
                })
            } else {
                &&& effect.state == begun
                &&& effect.reply matches ReplyState::Answer {
                    answer: Answer::Denied { reason, .. },
                    ..
                }
                &&& reason == DenialReason::Unauthorized
            }
        }),
{
}

/// The server once several sessions have acknowledged the retirement of a segment.
pub open spec fn state_after_acks<H>(
    state: ServerState<H>,
    segment_id: SegmentId,
    sessions: Seq<SessionId>,
) -> ServerState<H>
    decreases sessions.len(),
{
    if sessions.len() == 0 {
        state
    } else {
        state_after_acks(state, segment_id, sessions.drop_last()).ack_retirement(
            sessions.last(),
            segment_id,
        ).state
    }
}

proof fn lemma_acks_reach_the_table<H>(
    state: ServerState<H>,
    segment_id: SegmentId,
    sessions: Seq<SessionId>,
)
    requires
        state.table.segments.contains_key(segment_id.value),
        !state.table.segments[segment_id.value].retiring,
        exists|session: u64|
            state.table.segments[segment_id.value].authorized.contains(session),
        forall|i: int|
            0 <= i < sessions.len() ==> state.sessions.contains_key(
                (#[trigger] sessions[i]).value,
            ),
    ensures
        ({
            let begun = state.with_retirement(segment_id);
            let after = state_after_acks(begun, segment_id, sessions);
            &&& after.table == segment_laws::table_after_acks(begun.table, segment_id, sessions)
            &&& after.sessions.dom() == state.sessions.dom()
            &&& forall|session: u64| #[trigger]
                state.sessions.contains_key(session)
                    && state.table.segments[segment_id.value].authorized.contains(session)
                    && !segment_laws::has_acked(sessions, session)
                    ==> after.sessions[session].session.pending.contains(segment_id.value)
        }),
    decreases sessions.len(),
{
    let begun = state.with_retirement(segment_id);
    let authorized = state.table.segments[segment_id.value].authorized;
    if sessions.len() == 0 {
        assert(begun.sessions.dom() =~= state.sessions.dom());
    } else {
        let earlier = sessions.drop_last();
        let last = sessions.last();
        assert(sessions[sessions.len() - 1] == last);
        assert forall|i: int| 0 <= i < earlier.len() implies state.sessions.contains_key(
            (#[trigger] earlier[i]).value,
        ) by {
            assert(earlier[i] == sessions[i]);
        }
        lemma_acks_reach_the_table(state, segment_id, earlier);
        let witness = choose|session: u64| authorized.contains(session);
        assert(begun.table.segments[segment_id.value].pending.contains(witness));
        segment_laws::lemma_acks(begun.table, segment_id, earlier);
        let middle = state_after_acks(begun, segment_id, earlier);
        let after = state_after_acks(begun, segment_id, sessions);
        assert forall|session: u64| segment_laws::has_acked(earlier, session) implies #[trigger] segment_laws::has_acked(
            sessions,
            session,
        ) by {
            let i = choose|i: int|
                0 <= i < earlier.len() && earlier[i] == (SessionId { value: session });
            assert(sessions[i] == (SessionId { value: session }));
        }
        assert(segment_laws::has_acked(sessions, last.value));
        if !middle.sessions[last.value].session.pending.contains(segment_id.value) {
            assert(!authorized.contains(last.value) || segment_laws::has_acked(
                earlier,
                last.value,
            ));
            let table = middle.table;
            if segment_manager::ack_counts(table, segment_id, last) {
                let waiting = table.segments[segment_id.value].pending;
                assert(!waiting.contains(last.value));
                assert(waiting.remove(last.value) =~= waiting);
                let unacked = choose|session: u64| #[trigger]
                    begun.table.segments[segment_id.value].pending.contains(session)
                        && !segment_laws::has_acked(earlier, session);
                assert(waiting.contains(unacked));
                assert(table.segments[segment_id.value].acknowledged(last.value)
                    =~= table.segments[segment_id.value]);
                assert(segment_manager::table_after_ack(table, segment_id, last).segments
                    =~= table.segments);
            }
            assert(segment_manager::table_after_ack(table, segment_id, last) == table);
        } else {
            let session = middle.sessions[last.value].session;
            let acked = ServerState {
                table: segment_manager::table_after_ack(middle.table, segment_id, last),
                ..middle.with_session(
                    last,
                    SessionState { pending: session.pending.remove(segment_id.value), ..session },
                )
            };
            assert(after == acked.settled(None));
            assert(acked.sessions.dom() =~= state.sessions.dom());
            ledger::lemma_settling_keeps(acked.sessions, acked.ledger, acked.table, None);
            if acked.table.segments.contains_key(segment_id.value) {
                ledger::lemma_settling_keeps_held(
                    acked.sessions,
                    acked.ledger,
                    acked.table,
                    None,
                    segment_id,
                );
            } else {
                segment_laws::lemma_acks(begun.table, segment_id, sessions);
            }
            assert forall|session: u64| #[trigger]
                state.sessions.contains_key(session) && authorized.contains(session)
                    && !segment_laws::has_acked(
                    sessions,
                    session,
                ) implies after.sessions[session].session.pending.contains(segment_id.value) by {
                assert(state.sessions.dom().contains(session));
                assert(!segment_laws::has_acked(earlier, session));
                assert(session != last.value);
                if !acked.table.segments.contains_key(segment_id.value) {
                    assert(begun.table.segments[segment_id.value].pending.contains(session));
                }
            }
        }
    }
}

/// A segment whose retirement the server began goes exactly when every session that may access
/// it has acknowledged, in whatever order, and however often, the acknowledgments come.
pub proof fn law_acknowledged_segment_goes<H>(
    state: ServerState<H>,
    segment_id: SegmentId,
    sessions: Seq<SessionId>,
)
    requires
        state.table.segments.contains_key(segment_id.value),
        !state.table.segments[segment_id.value].retiring,
        exists|session: u64|
            state.table.segments[segment_id.value].authorized.contains(session),
        forall|i: int|
            0 <= i < sessions.len() ==> state.sessions.contains_key(
                (#[trigger] sessions[i]).value,
            ),
    ensures
        state_after_acks(
            state.with_retirement(segment_id),
            segment_id,
            sessions,
        ).table.segments.contains_key(segment_id.value) <==> exists|session: u64| #[trigger]
            state.table.segments[segment_id.value].authorized.contains(session)
                && !segment_laws::has_acked(sessions, session),
{
    lemma_acks_reach_the_table(state, segment_id, sessions);
    segment_laws::law_retirement_completes_with_last_ack(state.table, segment_id, sessions);
}

/// A segment that a single session may access goes with that session's acknowledgment: it is told
/// so, has nothing to acknowledge any more, and the segment counts for nobody.
pub proof fn law_sole_acknowledgment_completes<H>(
    state: ServerState<H>,
    segment_id: SegmentId,
    session_id: SessionId,
)
    requires
        state.table.segments.contains_key(segment_id.value),
        !state.table.segments[segment_id.value].retiring,
        state.table.segments[segment_id.value].authorized == set![session_id.value],
        state.sessions.contains_key(session_id.value),
    ensures
        ({
            let effect = state.with_retirement(segment_id).ack_retirement(session_id, segment_id);
            let after = effect.state;
            &&& effect.reply == (ReplyState::<H>::Answer {
                answer: Answer::AckOk,
                handles: Seq::empty(),
            })
            &&& after.table.segments == state.table.segments.remove(segment_id.value)
            &&& after.sessions.contains_key(session_id.value)
            &&& !after.sessions[session_id.value].session.pending.contains(segment_id.value)
            &&& forall|other: SessionId|
                !#[trigger] ledger::is_charged(
                    after.ledger,
                    other,
                    Holding::Segment { segment_id },
                )
        }),
{
    let begun = state.with_retirement(segment_id);
    let after = begun.ack_retirement(session_id, segment_id).state;
    let retired = begun.table.segments[segment_id.value];
    assert(retired.pending.contains(session_id.value));
    assert(retired.pending.remove(session_id.value) =~= Set::empty());
    assert(begun.sessions[session_id.value].session.pending.contains(segment_id.value));
    let session = begun.sessions[session_id.value].session;
    let acked = begun.with_session(
        session_id,
        SessionState { pending: session.pending.remove(segment_id.value), ..session },
    );
    ledger::lemma_settling_keeps(acked.sessions, acked.ledger, after.table, None);
    assert(acked.sessions.dom().contains(session_id.value));
    assert(after.sessions.dom().contains(session_id.value));
    assert(after.table.segments =~= state.table.segments.remove(segment_id.value));
    ledger::lemma_settled_ledger_lasts(acked.ledger, after.table, None);
    assert forall|other: SessionId|
        !#[trigger] ledger::is_charged(after.ledger, other, Holding::Segment { segment_id }) by {
        if ledger::is_charged(after.ledger, other, Holding::Segment { segment_id }) {
            let i = choose|i: int|
                0 <= i < after.ledger.len() && (#[trigger] after.ledger[i]).session_id == other
                    && after.ledger[i].holding == (Holding::Segment { segment_id });
            assert(after.ledger[i].lasts(after.table, None));
            assert(false);
        }
    }
}

} // verus!
