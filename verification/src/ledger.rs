//! The ledger of what counts towards the usage of sessions, and is given back once it is gone.

use vstd::prelude::*;
use crate::segment_manager::SegmentTable;
use crate::server_state::EntryState;
use crate::session::SessionState;
use crate::types::SegmentId;
use crate::protocol::SessionId;

verus! {

/// Something that the server holds.
#[derive(Debug, Clone, Copy, PartialEq, Eq, Structural)]
pub enum Holding {
    /// A data segment.
    Segment {
        /// The identifier of the segment.
        segment_id: SegmentId,
    },
    /// A connection channel.
    Channel {
        /// The port that sends over the channel.
        sender_port_id: u128,
        /// The port that receives over the channel.
        receiver_port_id: u128,
    },
    /// A management segment.
    MgmtSegment {
        /// The producer port.
        port_id: u128,
    },
}

impl Holding {
    /// Whether the server holds it.
    pub open spec fn is_in<H>(self, table: SegmentTable<H>) -> bool {
        match self {
            Holding::Segment { segment_id } => table.segments.contains_key(segment_id.value),
            Holding::Channel { sender_port_id, receiver_port_id } => table.channels.contains_key(
                (sender_port_id, receiver_port_id),
            ),
            Holding::MgmtSegment { port_id } => table.mgmt_segments.contains_key(port_id),
        }
    }
}

/// What counts towards the usage of a session: something that it brought, or a segment that it
/// was granted. What it both brought and was granted counts once.
#[derive(Debug, Clone, Copy, PartialEq, Eq, Structural)]
pub struct Charge {
    /// The session.
    pub session_id: SessionId,
    /// What counts.
    pub holding: Holding,
    /// The size that was counted.
    pub size: usize,
}

impl Charge {
    /// The session once it counts no more: a segment that was granted is not granted any more
    /// either.
    pub open spec fn given_back(self, session: SessionState) -> SessionState {
        match self.holding {
            Holding::Segment { segment_id } if session.granted.contains(segment_id.value) => {
                session.without_segment(segment_id.value, self.size)
            },
            _ => SessionState { usage: session.usage.without_segment(self.size), ..session },
        }
    }

    /// Whether it goes on to count: the server holds what counts, and it was not replaced.
    pub open spec fn lasts<H>(self, table: SegmentTable<H>, replaced: Option<Holding>) -> bool {
        self.holding.is_in(table) && replaced != Some(self.holding)
    }
}

/// Whether something counts for a session.
pub open spec fn is_charged(ledger: Seq<Charge>, session_id: SessionId, holding: Holding) -> bool {
    exists|i: int|
        0 <= i < ledger.len() && (#[trigger] ledger[i]).session_id == session_id
            && ledger[i].holding == holding
}

/// One charge more leaves what counted before, and adds what it is for.
pub proof fn lemma_charged_with(
    ledger: Seq<Charge>,
    charge: Charge,
    session_id: SessionId,
    holding: Holding,
)
    ensures
        is_charged(ledger.push(charge), session_id, holding) <==> is_charged(
            ledger,
            session_id,
            holding,
        ) || (charge.session_id == session_id && charge.holding == holding),
{
    let more = ledger.push(charge);
    if is_charged(ledger, session_id, holding) {
        let i = choose|i: int|
            0 <= i < ledger.len() && (#[trigger] ledger[i]).session_id == session_id
                && ledger[i].holding == holding;
        assert(more[i] == ledger[i]);
    }
    assert(more[ledger.len() as int] == charge);
    if is_charged(more, session_id, holding) {
        let i = choose|i: int|
            0 <= i < more.len() && (#[trigger] more[i]).session_id == session_id
                && more[i].holding == holding;
        if i < ledger.len() {
            assert(ledger[i] == more[i]);
        }
    }
}

/// The sessions once a charge is given back.
pub open spec fn refunded(sessions: Map<u64, EntryState>, charge: Charge) -> Map<u64, EntryState> {
    if sessions.contains_key(charge.session_id.value) {
        let entry = sessions[charge.session_id.value];
        sessions.insert(
            charge.session_id.value,
            EntryState { session: charge.given_back(entry.session), ..entry },
        )
    } else {
        sessions
    }
}

/// The sessions once every charge that does not last is given back.
pub open spec fn settled_sessions<H>(
    sessions: Map<u64, EntryState>,
    ledger: Seq<Charge>,
    table: SegmentTable<H>,
    replaced: Option<Holding>,
) -> Map<u64, EntryState>
    decreases ledger.len(),
{
    if ledger.len() == 0 {
        sessions
    } else {
        let rest = settled_sessions(sessions, ledger.drop_last(), table, replaced);
        if ledger.last().lasts(table, replaced) {
            rest
        } else {
            refunded(rest, ledger.last())
        }
    }
}

/// Whether two entries of a session differ at most in what it counts and is granted.
pub open spec fn same_but_segments(one: EntryState, other: EntryState) -> bool {
    &&& one.handshake_complete == other.handshake_complete
    &&& one.session.id == other.session.id
    &&& one.session.credentials == other.session.credentials
    &&& one.session.authenticated_at == other.session.authenticated_at
    &&& one.session.ports == other.session.ports
    &&& one.session.usage == (crate::session::SessionResourceUsage {
        segment_count: one.session.usage.segment_count,
        total_memory: one.session.usage.total_memory,
        ..other.session.usage
    })
}

/// Whether an entry of a session differs from an earlier one at most in that it counts less and is
/// granted less.
pub open spec fn only_gave_back(after: EntryState, before: EntryState) -> bool {
    &&& same_but_segments(after, before)
    &&& after.session.granted.subset_of(before.session.granted)
    &&& after.session.pending.subset_of(before.session.pending)
    &&& after.session.usage.segment_count <= before.session.usage.segment_count
    &&& after.session.usage.total_memory <= before.session.usage.total_memory
}

/// Settling changes only what sessions count and are granted, and never raises it.
pub proof fn lemma_settling_keeps<H>(
    sessions: Map<u64, EntryState>,
    ledger: Seq<Charge>,
    table: SegmentTable<H>,
    replaced: Option<Holding>,
)
    ensures
        ({
            let after = settled_sessions(sessions, ledger, table, replaced);
            &&& after.dom() == sessions.dom()
            &&& forall|key: u64| #[trigger]
                sessions.contains_key(key) ==> only_gave_back(after[key], sessions[key])
        }),
    decreases ledger.len(),
{
    if ledger.len() > 0 {
        lemma_settling_keeps(sessions, ledger.drop_last(), table, replaced);
        let rest = settled_sessions(sessions, ledger.drop_last(), table, replaced);
        let after = settled_sessions(sessions, ledger, table, replaced);
        assert(after.dom() =~= sessions.dom());
    }
}

/// Where every charge lasts there is nothing to settle.
pub proof fn lemma_nothing_to_settle<H>(
    sessions: Map<u64, EntryState>,
    ledger: Seq<Charge>,
    table: SegmentTable<H>,
    replaced: Option<Holding>,
)
    requires
        forall|i: int| 0 <= i < ledger.len() ==> (#[trigger] ledger[i]).lasts(table, replaced),
    ensures
        settled_sessions(sessions, ledger, table, replaced) == sessions,
        ledger.filter(|charge: Charge| charge.lasts(table, replaced)) == ledger,
    decreases ledger.len(),
{
    reveal(Seq::filter);
    if ledger.len() > 0 {
        let front = ledger.drop_last();
        assert forall|i: int| 0 <= i < front.len() implies (#[trigger] front[i]).lasts(
            table,
            replaced,
        ) by {
            assert(front[i] == ledger[i]);
        }
        assert(ledger[ledger.len() - 1].lasts(table, replaced));
        lemma_nothing_to_settle(sessions, front, table, replaced);
        assert(front.push(ledger.last()) =~= ledger);
    }
}

/// What is left in a ledger once it is settled lasts.
pub proof fn lemma_settled_ledger_lasts<H>(
    ledger: Seq<Charge>,
    table: SegmentTable<H>,
    replaced: Option<Holding>,
)
    ensures
        ({
            let rest = ledger.filter(|charge: Charge| charge.lasts(table, replaced));
            forall|i: int| 0 <= i < rest.len() ==> (#[trigger] rest[i]).lasts(table, replaced)
        }),
{
    let keep = |charge: Charge| charge.lasts(table, replaced);
    let rest = ledger.filter(keep);
    assert forall|i: int| 0 <= i < rest.len() implies (#[trigger] rest[i]).lasts(
        table,
        replaced,
    ) by {
        ledger.lemma_filter_pred(keep, i);
    }
}

/// It does not matter whether a charge is given back before or after another charge.
proof fn lemma_refunds_commute(sessions: Map<u64, EntryState>, one: Charge, other: Charge)
    ensures
        refunded(refunded(sessions, one), other) == refunded(refunded(sessions, other), one),
{
    if sessions.contains_key(one.session_id.value) && one.session_id.value
        == other.session_id.value {
        let session = sessions[one.session_id.value].session;
        let a = other.given_back(one.given_back(session));
        let b = one.given_back(other.given_back(session));
        assert(a.granted =~= b.granted);
        assert(a.pending =~= b.pending);
        assert(a == b);
    }
    assert(refunded(refunded(sessions, one), other) =~= refunded(refunded(sessions, other), one));
}

/// It does not matter whether a charge is given back before or after the rest is settled.
pub proof fn lemma_refund_commutes<H>(
    sessions: Map<u64, EntryState>,
    charge: Charge,
    ledger: Seq<Charge>,
    table: SegmentTable<H>,
    replaced: Option<Holding>,
)
    ensures
        settled_sessions(refunded(sessions, charge), ledger, table, replaced) == refunded(
            settled_sessions(sessions, ledger, table, replaced),
            charge,
        ),
    decreases ledger.len(),
{
    if ledger.len() > 0 {
        lemma_refund_commutes(sessions, charge, ledger.drop_last(), table, replaced);
        let rest = settled_sessions(sessions, ledger.drop_last(), table, replaced);
        lemma_refunds_commute(rest, charge, ledger.last());
    }
}

/// What the server holds on to, and was not replaced, stays granted and pending where it was.
pub proof fn lemma_settling_keeps_held<H>(
    sessions: Map<u64, EntryState>,
    ledger: Seq<Charge>,
    table: SegmentTable<H>,
    replaced: Option<Holding>,
    segment_id: SegmentId,
)
    requires
        table.segments.contains_key(segment_id.value),
        replaced != Some(Holding::Segment { segment_id }),
    ensures
        ({
            let after = settled_sessions(sessions, ledger, table, replaced);
            forall|key: u64| #[trigger]
                sessions.contains_key(key) ==> {
                    &&& after[key].session.granted.contains(segment_id.value)
                        == sessions[key].session.granted.contains(segment_id.value)
                    &&& after[key].session.pending.contains(segment_id.value)
                        == sessions[key].session.pending.contains(segment_id.value)
                }
        }),
    decreases ledger.len(),
{
    if ledger.len() > 0 {
        lemma_settling_keeps_held(sessions, ledger.drop_last(), table, replaced, segment_id);
        lemma_settling_keeps(sessions, ledger.drop_last(), table, replaced);
        let rest = settled_sessions(sessions, ledger.drop_last(), table, replaced);
        let charge = ledger.last();
        if !charge.lasts(table, replaced) {
            assert(charge.holding != (Holding::Segment { segment_id }));
            assert forall|key: u64| #[trigger] sessions.contains_key(key) implies {
                let after = refunded(rest, charge);
                &&& after[key].session.granted.contains(segment_id.value)
                    == sessions[key].session.granted.contains(segment_id.value)
                &&& after[key].session.pending.contains(segment_id.value)
                    == sessions[key].session.pending.contains(segment_id.value)
            } by {
                assert(rest.dom().contains(key));
                if let Holding::Segment { segment_id: other } = charge.holding {
                    assert(other.value != segment_id.value);
                }
            }
        }
    }
}

/// A segment whose charge was given back is not granted any more.
pub proof fn lemma_settling_revokes<H>(
    sessions: Map<u64, EntryState>,
    ledger: Seq<Charge>,
    table: SegmentTable<H>,
    replaced: Option<Holding>,
    i: int,
    segment_id: SegmentId,
)
    requires
        0 <= i < ledger.len(),
        ledger[i].holding == (Holding::Segment { segment_id }),
        !ledger[i].lasts(table, replaced),
        sessions.contains_key(ledger[i].session_id.value),
    ensures
        !settled_sessions(sessions, ledger, table, replaced)[ledger[i].session_id.value].session.granted.contains(segment_id.value),
    decreases ledger.len(),
{
    let front = ledger.drop_last();
    let rest = settled_sessions(sessions, front, table, replaced);
    lemma_settling_keeps(sessions, front, table, replaced);
    assert(rest.dom().contains(ledger[i].session_id.value));
    if i < front.len() {
        assert(front[i] == ledger[i]);
        lemma_settling_revokes(sessions, front, table, replaced, i, segment_id);
    }
}

/// A session all of whose charges last stays as it is.
pub proof fn lemma_settling_leaves<H>(
    sessions: Map<u64, EntryState>,
    ledger: Seq<Charge>,
    table: SegmentTable<H>,
    replaced: Option<Holding>,
    key: u64,
)
    requires
        forall|i: int|
            0 <= i < ledger.len() && (#[trigger] ledger[i]).session_id.value == key
                ==> ledger[i].lasts(table, replaced),
    ensures
        sessions.contains_key(key) ==> settled_sessions(sessions, ledger, table, replaced)[key]
            == sessions[key],
    decreases ledger.len(),
{
    if ledger.len() > 0 {
        let front = ledger.drop_last();
        assert forall|i: int|
            0 <= i < front.len() && (#[trigger] front[i]).session_id.value
                == key implies front[i].lasts(table, replaced) by {
            assert(front[i] == ledger[i]);
        }
        assert(ledger[ledger.len() - 1] == ledger.last());
        lemma_settling_leaves(sessions, front, table, replaced, key);
    }
}

} // verus!
