//! What holds of the segment table whatever is done to it.

use vstd::prelude::*;
use crate::protocol::SessionId;
use crate::segment_manager;
use crate::segment_manager::{SegmentState, SegmentTable, GAP_SEGMENT, INITIAL_SEGMENT};
use crate::types::{AccessRights, SegmentId};

verus! {

/// An identifier that is given out lies between the reserved ones and belongs to no live
/// segment.
pub proof fn law_allocated_id_is_fresh<H>(table: SegmentTable<H>, id: u8)
    requires
        table.is_next_free(id),
    ensures
        1 <= id <= 254,
        !table.segments.contains_key(id),
{
}

/// There is at most one identifier to give out next.
pub proof fn law_allocation_is_determined<H>(table: SegmentTable<H>, a: u8, b: u8)
    requires
        table.is_next_free(a),
        table.is_next_free(b),
    ensures
        a == b,
{
}

/// The identifier to give out next is the one that the scan reaches first.
pub proof fn lemma_next_free<H>(table: SegmentTable<H>, id: u8)
    requires
        table.is_next_free(id),
    ensures
        table.next_free() == Some(id),
{
    law_allocation_is_determined(table, id, choose|other: u8| table.is_next_free(other));
}

/// Identifiers run out exactly when all 254 that are not reserved belong to live segments.
pub proof fn law_exhausted_when_all_in_use<H>(table: SegmentTable<H>)
    ensures
        table.exhausted() <==> forall|id: u8|
            1 <= id <= 254 ==> #[trigger] table.segments.contains_key(id),
{
    if table.exhausted() {
        assert forall|id: u8| 1 <= id <= 254 implies #[trigger] table.segments.contains_key(
            id,
        ) by {
            assert(!table.usable(id));
        }
    }
}

/// Identifiers are scanned in a circle: two segments that are registered one after the other
/// get different identifiers, and a freed identifier is not given out again before the scan
/// has come round.
pub proof fn law_scan_goes_round<H>(table: SegmentTable<H>, id: u8, later: u8)
    requires
        table.is_next_free(id),
        table.scanned_past(id).is_next_free(later),
        later != id,
    ensures
        table.scanned_past(id).usable(id),
        segment_manager::distance(segment_manager::successor(id), later) < segment_manager::distance(segment_manager::successor(id), id),
{
}

/// A segment that was placed at an index of a port is the one found there.
pub proof fn law_placed_is_found<H>(table: SegmentTable<H>, port: u128, index: u8, id: SegmentId)
    requires
        id.value != GAP_SEGMENT,
    ensures
        table.with_placed(port, index, id).at_index_of_port(port, index) == Some(id.value),
{
}

/// Placing a segment leaves every other index of the port, and every other port, as it was.
pub proof fn law_placing_moves_nothing<H>(
    table: SegmentTable<H>,
    port: u128,
    index: u8,
    id: SegmentId,
    other_port: u128,
    other_index: u8,
)
    requires
        other_port != port || other_index != index,
    ensures
        table.with_placed(port, index, id).at_index_of_port(other_port, other_index)
            == table.at_index_of_port(other_port, other_index),
{
}

/// A segment that is placed at the index of its own identifier never takes the place of a
/// port's initial segment.
pub proof fn law_growth_keeps_initial<H>(table: SegmentTable<H>, port: u128, id: SegmentId)
    requires
        table.is_next_free(id.value),
    ensures
        table.with_placed(port, id.value, id).at_index_of_port(port, INITIAL_SEGMENT)
            == table.at_index_of_port(port, INITIAL_SEGMENT),
{
    law_placing_moves_nothing(table, port, id.value, id, port, INITIAL_SEGMENT);
}

/// Reaping a port's data segments frees their identifiers and touches no other segment.
pub proof fn law_reaping_frees_identifiers<H>(table: SegmentTable<H>, port: u128, id: u8)
    ensures
        table.registered_by(port, id) && id != INITIAL_SEGMENT
            ==> table.without_port_segments(port).usable(id),
        !table.registered_by(port, id) ==> {
            &&& table.without_port_segments(port).segments.contains_key(id)
                == table.segments.contains_key(id)
            &&& table.segments.contains_key(id) ==> table.without_port_segments(port).segments[id]
                == table.segments[id]
        },
{
}

/// Once a port is reaped nothing in the table belongs to it.
pub proof fn law_reaped_port_holds_nothing<H>(table: SegmentTable<H>, port: u128)
    ensures
        !table.without_port(port).port_segments.contains_key(port),
        !table.without_port(port).mgmt_segments.contains_key(port),
        forall|other: u128| !table.without_port(port).channels.contains_key((port, other)),
        forall|other: u128| !table.without_port(port).channels.contains_key((other, port)),
        forall|id: u8|
            table.registered_by(port, id) ==> !table.without_port(
                port,
            ).segments.contains_key(id),
{
}

/// Reaping a port leaves the lists, management segments and channels of other ports alone.
pub proof fn law_reaping_is_isolated<H>(table: SegmentTable<H>, port: u128, a: u128, b: u128)
    requires
        a != port,
        b != port,
    ensures
        table.without_port(port).segments_of(a) == table.segments_of(a),
        table.without_port(port).mgmt_segments.contains_key(a)
            == table.mgmt_segments.contains_key(a),
        table.mgmt_segments.contains_key(a) ==> table.without_port(port).mgmt_segments[a]
            == table.mgmt_segments[a],
        table.without_port(port).channels.contains_key((a, b)) == table.channels.contains_key(
            (a, b),
        ),
        table.channels.contains_key((a, b)) ==> table.without_port(port).channels[(a, b)]
            == table.channels[(a, b)],
{
}

/// Reaping a port twice is reaping it once.
pub proof fn law_reaping_again_changes_nothing<H>(table: SegmentTable<H>, port: u128)
    ensures
        table.without_port(port).without_port(port) == table.without_port(port),
{
    let once = table.without_port(port);
    let twice = once.without_port(port);
    assert(twice.segments =~= once.segments);
    assert(twice.port_segments =~= once.port_segments);
    assert(twice.mgmt_segments =~= once.mgmt_segments);
    assert(twice.channels =~= once.channels);
}

/// Reaping undoes a registration: a port that had nothing has nothing again, and the segments
/// are the ones from before.
pub proof fn law_reaping_undoes_registration<H>(
    table: SegmentTable<H>,
    port: u128,
    id: SegmentId,
    handle: H,
    size: usize,
    access: AccessRights,
)
    requires
        table.is_next_free(id.value),
        !table.port_segments.contains_key(port),
    ensures
        table.scanned_past(id.value).with_segment(id, handle, size, access).with_last_of_port(
            port,
            id,
        ).without_port_segments(port) == table.scanned_past(id.value),
{
    let registered = table.scanned_past(id.value).with_segment(
        id,
        handle,
        size,
        access,
    ).with_last_of_port(port, id);
    let list = registered.segments_of(port);
    assert(list =~= seq![id]);
    assert(list[0] == id);
    assert forall|key: u8| registered.registered_by(port, key) <==> key == id.value by {
        if key == id.value {
            assert(id == (SegmentId { value: key }));
        }
    }
    assert(registered.without_port_segments(port).segments =~= table.segments);
    assert(registered.without_port_segments(port).port_segments =~= table.port_segments);
}

/// A removed segment is in no port's list, and its identifier is free again.
pub proof fn law_removed_segment_is_unlisted<H>(
    table: SegmentTable<H>,
    id: SegmentId,
    port: u128,
)
    ensures
        !table.without_segment(id).segments.contains_key(id.value),
        !table.without_segment(id).segments_of(port).contains(id),
{
    if table.port_segments.contains_key(port) {
        let keep = |other: SegmentId| other.value != id.value;
        let list = table.port_segments[port];
        assert(table.without_segment(id).segments_of(port) == list.filter(keep));
        if list.filter(keep).contains(id) {
            let i = choose|i: int| 0 <= i < list.filter(keep).len() && list.filter(keep)[i] == id;
            list.lemma_filter_pred(keep, i);
            assert(keep(list.filter(keep)[i]));
        }
    }
}

/// While a segment is being retired no session is authorized for it, whatever came of
/// duplicating its handle.
pub proof fn law_retiring_segment_is_closed<H>(
    table: SegmentTable<H>,
    id: u8,
    session_id: SessionId,
    duplicate: Option<H>,
)
    requires
        table.segments.contains_key(id),
        table.segments[id].retiring,
    ensures
        segment_manager::authorization(table.grantable(id), duplicate) is Err,
        segment_manager::grant_result(table, Some(id), duplicate) is None,
        segment_manager::table_after_grant(table, Some(id), session_id, duplicate) == table,
{
}

/// Beginning a retirement a second time changes nothing.
pub proof fn law_retirement_begins_once<H>(state: SegmentState<H>)
    ensures
        state.retired().retired() == state.retired(),
{
}

/// Every session that may access a segment has to acknowledge its retirement, and no other.
pub proof fn law_retirement_asks_authorized<H>(state: SegmentState<H>)
    requires
        !state.retiring,
    ensures
        state.retired().pending == state.authorized,
        state.retired().authorized == state.authorized,
{
}

/// An acknowledgment of a session that is not authorized changes nothing.
pub proof fn law_foreign_ack_is_ignored<H>(
    table: SegmentTable<H>,
    segment_id: SegmentId,
    session_id: SessionId,
)
    requires
        !segment_manager::authorized_for(table, segment_id, session_id),
    ensures
        segment_manager::table_after_ack(table, segment_id, session_id) == table,
        !segment_manager::last_ack(table, segment_id, session_id),
{
}

/// The table once several sessions have acknowledged the retirement of a segment.
pub open spec fn table_after_acks<H>(
    table: SegmentTable<H>,
    segment_id: SegmentId,
    sessions: Seq<SessionId>,
) -> SegmentTable<H>
    decreases sessions.len(),
{
    if sessions.len() == 0 {
        table
    } else {
        segment_manager::table_after_ack(
            table_after_acks(table, segment_id, sessions.drop_last()),
            segment_id,
            sessions.last(),
        )
    }
}

/// Whether a session is among those that have acknowledged.
pub open spec fn has_acked(sessions: Seq<SessionId>, session: u64) -> bool {
    sessions.contains(SessionId { value: session })
}

/// A retiring segment stays until every session that was to acknowledge has done so, and waits
/// for those that have not.
pub proof fn lemma_acks<H>(table: SegmentTable<H>, segment_id: SegmentId, sessions: Seq<SessionId>)
    requires
        table.segments.contains_key(segment_id.value),
        table.segments[segment_id.value].retiring,
        table.segments[segment_id.value].pending.subset_of(
            table.segments[segment_id.value].authorized,
        ),
        exists|session: u64| table.segments[segment_id.value].pending.contains(session),
    ensures
        ({
            let before = table.segments[segment_id.value];
            let after = table_after_acks(table, segment_id, sessions);
            let done = forall|session: u64| #[trigger]
                before.pending.contains(session) ==> has_acked(sessions, session);
            &&& after.segments.contains_key(segment_id.value) <==> !done
            &&& after.segments.contains_key(segment_id.value) ==> {
                &&& after.segments[segment_id.value].authorized == before.authorized
                &&& after.segments[segment_id.value].retiring
                &&& forall|session: u64| #[trigger]
                    after.segments[segment_id.value].pending.contains(session)
                        <==> before.pending.contains(session) && !has_acked(sessions, session)
            }
        }),
    decreases sessions.len(),
{
    let before = table.segments[segment_id.value];
    if sessions.len() == 0 {
        let witness = choose|session: u64| before.pending.contains(session);
        assert(!has_acked(sessions, witness));
    } else {
        let earlier = sessions.drop_last();
        let last = sessions.last();
        lemma_acks(table, segment_id, earlier);
        let middle = table_after_acks(table, segment_id, earlier);
        let after = table_after_acks(table, segment_id, sessions);
        assert forall|session: u64| #[trigger] has_acked(sessions, session) <==> has_acked(
            earlier,
            session,
        ) || session == last.value by {
            assert(sessions =~= earlier.push(last));
            if has_acked(earlier, session) {
                let i = choose|i: int|
                    0 <= i < earlier.len() && earlier[i] == (SessionId { value: session });
                assert(sessions[i] == (SessionId { value: session }));
            }
            if session == last.value {
                assert(sessions[sessions.len() - 1] == (SessionId { value: session }));
            }
        }
        if middle.segments.contains_key(segment_id.value) {
            let state = middle.segments[segment_id.value];
            if !before.authorized.contains(last.value) {
                assert(!before.pending.contains(last.value));
                assert(after == middle);
            } else {
                let rest = state.pending.remove(last.value);
                if rest.is_empty() {
                    assert forall|session: u64| #[trigger]
                        before.pending.contains(session) implies has_acked(sessions, session) by {
                        assert(!rest.contains(session));
                    }
                } else {
                    assert(exists|session: u64| rest.contains(session)) by {
                        if forall|session: u64| !rest.contains(session) {
                            assert(rest =~= Set::empty());
                        }
                    }
                    let witness = choose|session: u64| rest.contains(session);
                    assert(before.pending.contains(witness) && !has_acked(sessions, witness));
                }
            }
        } else {
            assert(after == middle);
        }
    }
}

/// A segment whose retirement began goes exactly when the last of the sessions that had to
/// acknowledge has done so, in whatever order, and however often, the acknowledgments come.
pub proof fn law_retirement_completes_with_last_ack<H>(
    table: SegmentTable<H>,
    segment_id: SegmentId,
    sessions: Seq<SessionId>,
)
    requires
        table.segments.contains_key(segment_id.value),
        !table.segments[segment_id.value].retiring,
        exists|session: u64| table.segments[segment_id.value].authorized.contains(session),
    ensures
        ({
            let retiring = SegmentTable {
                segments: table.segments.insert(
                    segment_id.value,
                    table.segments[segment_id.value].retired(),
                ),
                ..table
            };
            table_after_acks(retiring, segment_id, sessions).segments.contains_key(
                segment_id.value,
            ) <==> exists|session: u64| #[trigger]
                table.segments[segment_id.value].authorized.contains(session) && !has_acked(
                    sessions,
                    session,
                )
        }),
{
    let retiring = SegmentTable {
        segments: table.segments.insert(
            segment_id.value,
            table.segments[segment_id.value].retired(),
        ),
        ..table
    };
    let witness = choose|session: u64|
        table.segments[segment_id.value].authorized.contains(session);
    assert(retiring.segments[segment_id.value].pending.contains(witness));
    lemma_acks(retiring, segment_id, sessions);
}

/// Revoking undoes authorizing.
pub proof fn law_revoking_undoes_authorizing<H>(state: SegmentState<H>, session: u64)
    requires
        !state.authorized.contains(session),
        !state.pending.contains(session),
    ensures
        state.with_session(session).without_session(session) == state,
{
    assert(state.with_session(session).without_session(session) =~= state);
}

/// A session whose access was revoked everywhere may access no data segment, and no retirement
/// waits for it; the other sessions keep what they had.
pub proof fn law_revoked_session_has_no_access<H>(
    table: SegmentTable<H>,
    segment_id: SegmentId,
    revoked: SessionId,
    other: SessionId,
)
    requires
        other != revoked,
    ensures
        !segment_manager::authorized_for(table.without_session(revoked.value), segment_id, revoked),
        segment_manager::authorized_for(table.without_session(revoked.value), segment_id, other) == segment_manager::authorized_for(
            table,
            segment_id,
            other,
        ),
        table.segments.contains_key(segment_id.value) ==> !table.without_session(
            revoked.value,
        ).segments[segment_id.value].pending.contains(revoked.value),
{
}

/// A registered channel is granted for reading and writing, a registered management segment for
/// reading only.
pub proof fn law_access_of_brokered_segments<H>(
    channels: Map<(u128, u128), SegmentState<H>>,
    pair: (u128, u128),
    mgmt: Map<u128, SegmentState<H>>,
    port: u128,
    handle: H,
    size: usize,
    duplicate: H,
)
    ensures
        segment_manager::keyed_grant(
            channels.insert(pair, segment_manager::channel_state(handle, size)),
            pair,
            Some(duplicate),
        ) matches Some((info, granted)) && info.access == (AccessRights { read: true, write: true })
            && info.size >= 1 && granted == duplicate,
        segment_manager::keyed_grant(mgmt.insert(port, segment_manager::mgmt_state(handle, size)), port, Some(duplicate)) matches Some(
            (info, granted),
        ) && info.access == (AccessRights { read: true, write: false }) && info.size >= 1
            && granted == duplicate,
{
}

/// Whether every segment is filed under its own identifier.
pub open spec fn filed_under_own_id<H>(table: SegmentTable<H>) -> bool {
    forall|key: u8| #[trigger]
        table.segments.contains_key(key) ==> table.segments[key].id.value == key
}

/// Every segment is filed under its own identifier, in a new table and after each change.
pub proof fn law_segments_filed_under_own_id<H>(
    table: SegmentTable<H>,
    id: SegmentId,
    handle: H,
    size: usize,
    access: AccessRights,
    session_id: SessionId,
    port: u128,
)
    requires
        filed_under_own_id(table),
    ensures
        filed_under_own_id(SegmentTable::<H>::empty()),
        filed_under_own_id(table.with_segment(id, handle, size, access)),
        filed_under_own_id(table.without_segment(id)),
        filed_under_own_id(table.without_port(port)),
        filed_under_own_id(table.without_session(session_id.value)),
        table.segments.contains_key(id.value) ==> filed_under_own_id(
            table.with_session(id.value, session_id.value),
        ),
        table.segments.contains_key(id.value) ==> filed_under_own_id(
            SegmentTable {
                segments: table.segments.insert(id.value, table.segments[id.value].retired()),
                ..table
            },
        ),
        filed_under_own_id(segment_manager::table_after_ack(table, id, session_id)),
{
}

/// The segments of a port are those of its list: the first is the one at the beginning, the one at an
/// index the one that stands there, unless it is a gap, marked by 255; ports without a list have none.
pub proof fn law_lists_are_read<H>(table: SegmentTable<H>, port: u128, index: u8)
    ensures
        !table.port_segments.contains_key(port) ==> {
            &&& table.segments_of(port).len() == 0
            &&& table.first_of_port(port) is None
            &&& table.at_index_of_port(port, index) is None
        },
        table.port_segments.contains_key(port) ==> {
            let list = table.port_segments[port];
            &&& table.segments_of(port) == list
            &&& list.len() == 0 ==> table.first_of_port(port) is None
            &&& list.len() > 0 ==> table.first_of_port(port) == Some(list[0].value)
            &&& index < list.len() && list[index as int].value != 255 ==> table.at_index_of_port(
                port,
                index,
            ) == Some(list[index as int].value)
            &&& index >= list.len() || list[index as int].value == 255
                ==> table.at_index_of_port(port, index) is None
        },
{
}

/// A data segment is given out if it is there and not being retired, and there is a duplicate of its
/// handle: with the identifier that it was found by, its size and its rights. From then on the
/// session may access it; otherwise nothing changes.
pub proof fn law_data_segments_are_given_out<H>(
    table: SegmentTable<H>,
    id: u8,
    session_id: SessionId,
    duplicate: Option<H>,
)
    ensures
        ({
            let open = table.segments.contains_key(id) && !table.segments[id].retiring;
            let segment = table.segments[id];
            let given = segment_manager::grant_result(table, Some(id), duplicate);
            let after = segment_manager::table_after_grant(table, Some(id), session_id, duplicate);
            &&& table.grant_of(Some(id)) == (if open {
                Some(segment.handle)
            } else {
                None
            })
            &&& if open && duplicate is Some {
                &&& given matches Some((info, handle))
                &&& handle == duplicate->0
                &&& info.segment_id.value == id
                &&& info.size == segment.size
                &&& info.access == segment.access
                &&& after == (SegmentTable {
                    segments: table.segments.insert(
                        id,
                        SegmentState {
                            authorized: segment.authorized.insert(session_id.value),
                            ..segment
                        },
                    ),
                    ..table
                })
            } else {
                given is None && after == table
            }
        }),
        table.grant_of(None) is None,
        segment_manager::grant_result(table, None, duplicate) is None,
        segment_manager::table_after_grant(table, None, session_id, duplicate) == table,
{
}

/// A channel or management segment is given out if it is registered and there is a duplicate of its
/// handle; from then on the session may access it. Otherwise nothing changes.
pub proof fn law_keyed_segments_are_given_out<K, H>(
    states: Map<K, SegmentState<H>>,
    key: K,
    session_id: SessionId,
    duplicate: Option<H>,
)
    ensures
        ({
            let segment = states[key];
            let given = segment_manager::keyed_grant(states, key, duplicate);
            let after = segment_manager::after_keyed_grant(states, key, session_id, duplicate);
            if states.contains_key(key) && duplicate is Some {
                &&& given matches Some((info, handle))
                &&& handle == duplicate->0
                &&& info.segment_id == segment.id
                &&& info.size == segment.size
                &&& info.access == segment.access
                &&& after == states.insert(
                    key,
                    SegmentState {
                        authorized: segment.authorized.insert(session_id.value),
                        ..segment
                    },
                )
            } else {
                given is None && after == states
            }
        }),
{
}

proof fn lemma_infos<H>(
    segments: Map<u8, SegmentState<H>>,
    keep: spec_fn(SegmentState<H>) -> bool,
    n: int,
)
    requires
        0 <= n <= 256,
        forall|key: u8| #[trigger] segments.contains_key(key) ==> segments[key].id.value == key,
    ensures
        ({
            let infos = segment_manager::infos_below(segments, keep, n);
            &&& forall|i: int|
                0 <= i < infos.len() ==> {
                    let id = (#[trigger] infos[i]).segment_id.value;
                    &&& id < n
                    &&& segments.contains_key(id)
                    &&& keep(segments[id])
                    &&& infos[i].size == segments[id].size
                    &&& infos[i].access == segments[id].access
                }
            &&& forall|i: int, j: int|
                0 <= i < j < infos.len() ==> (#[trigger] infos[i]).segment_id.value < (
                #[trigger] infos[j]).segment_id.value
            &&& forall|key: u8|
                key < n && #[trigger] segments.contains_key(key) && keep(segments[key])
                    ==> exists|i: int|
                    0 <= i < infos.len() && (#[trigger] infos[i]).segment_id.value == key
        }),
    decreases n,
{
    if n > 0 {
        lemma_infos(segments, keep, n - 1);
        let rest = segment_manager::infos_below(segments, keep, n - 1);
        let infos = segment_manager::infos_below(segments, keep, n);
        assert forall|i: int| 0 <= i < infos.len() implies {
            let id = (#[trigger] infos[i]).segment_id.value;
            &&& id < n
            &&& segments.contains_key(id)
            &&& keep(segments[id])
            &&& infos[i].size == segments[id].size
            &&& infos[i].access == segments[id].access
        } by {
            if i < rest.len() {
                assert(infos[i] == rest[i]);
            }
        }
        assert forall|i: int, j: int| 0 <= i < j < infos.len() implies (
        #[trigger] infos[i]).segment_id.value < (#[trigger] infos[j]).segment_id.value by {
            assert(infos[i] == rest[i]);
            if j < rest.len() {
                assert(infos[j] == rest[j]);
            }
        }
        assert forall|key: u8|
            key < n && #[trigger] segments.contains_key(key) && keep(
                segments[key],
            ) implies exists|i: int|
            0 <= i < infos.len() && (#[trigger] infos[i]).segment_id.value == key by {
            if key < n - 1 {
                let i = choose|i: int|
                    0 <= i < rest.len() && (#[trigger] rest[i]).segment_id.value == key;
                assert(infos[i] == rest[i]);
            } else {
                assert(infos[infos.len() - 1].segment_id.value == key);
            }
        }
    }
}

/// The active segments are those that are not being retired: all of them are listed, each once, with
/// its size and rights, by ascending identifier, and no other.
pub proof fn law_active_segments_are_listed<H>(table: SegmentTable<H>, id: u8, i: int, j: int)
    requires
        filed_under_own_id(table),
    ensures
        ({
            let infos = segment_manager::infos_below(
                table.segments,
                |state: SegmentState<H>| !state.retiring,
                256,
            );
            &&& (table.segments.contains_key(id) && !table.segments[id].retiring) <==> exists|k: int|
                0 <= k < infos.len() && (#[trigger] infos[k]).segment_id.value == id
            &&& 0 <= i < infos.len() ==> infos[i].size
                == table.segments[infos[i].segment_id.value].size && infos[i].access
                == table.segments[infos[i].segment_id.value].access
            &&& 0 <= i < j < infos.len() ==> infos[i].segment_id.value < infos[j].segment_id.value
        }),
{
    let keep = |state: SegmentState<H>| !state.retiring;
    lemma_infos(table.segments, keep, 256);
    if table.segments.contains_key(id) && !table.segments[id].retiring {
        assert(keep(table.segments[id]));
    }
}

proof fn lemma_ids<H>(segments: Map<u8, SegmentState<H>>, n: int)
    requires
        0 <= n <= 256,
        forall|key: u8| #[trigger] segments.contains_key(key) ==> segments[key].id.value == key,
    ensures
        ({
            let ids = segment_manager::ids_below(segments, n);
            &&& forall|i: int|
                0 <= i < ids.len() ==> (#[trigger] ids[i]).value < n && segments.contains_key(
                    ids[i].value,
                )
            &&& forall|i: int, j: int|
                0 <= i < j < ids.len() ==> (#[trigger] ids[i]).value < (#[trigger] ids[j]).value
            &&& forall|key: u8|
                key < n && #[trigger] segments.contains_key(key) ==> ids.contains(
                    SegmentId { value: key },
                )
        }),
    decreases n,
{
    if n > 0 {
        lemma_ids(segments, n - 1);
        let rest = segment_manager::ids_below(segments, n - 1);
        let ids = segment_manager::ids_below(segments, n);
        assert forall|i: int| 0 <= i < ids.len() implies (#[trigger] ids[i]).value < n
            && segments.contains_key(ids[i].value) by {
            if i < rest.len() {
                assert(ids[i] == rest[i]);
            }
        }
        assert forall|i: int, j: int| 0 <= i < j < ids.len() implies (#[trigger] ids[i]).value < (
        #[trigger] ids[j]).value by {
            assert(ids[i] == rest[i]);
            if j < rest.len() {
                assert(ids[j] == rest[j]);
            }
        }
        assert forall|key: u8|
            key < n && #[trigger] segments.contains_key(key) implies ids.contains(
            SegmentId { value: key },
        ) by {
            if key < n - 1 {
                let i = choose|i: int| 0 <= i < rest.len() && rest[i] == (SegmentId { value: key });
                assert(ids[i] == (SegmentId { value: key }));
            } else {
                assert(ids[ids.len() - 1] == (SegmentId { value: key }));
            }
        }
    }
}

/// All segments are listed by ascending identifier, each once and no other.
pub proof fn law_segment_ids_are_listed<H>(table: SegmentTable<H>, id: u8, i: int, j: int)
    requires
        filed_under_own_id(table),
    ensures
        ({
            let ids = segment_manager::ids_below(table.segments, 256);
            &&& ids.contains(SegmentId { value: id }) <==> table.segments.contains_key(id)
            &&& 0 <= i < j < ids.len() ==> ids[i].value < ids[j].value
        }),
{
    lemma_ids(table.segments, 256);
    let ids = segment_manager::ids_below(table.segments, 256);
    if ids.contains(SegmentId { value: id }) {
        let k = choose|k: int| 0 <= k < ids.len() && ids[k] == (SegmentId { value: id });
        assert(table.segments.contains_key(ids[k].value));
    }
}

} // verus!
